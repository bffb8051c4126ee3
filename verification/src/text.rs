//! Text helpers. Strings are modelled as sequences of characters.
use vstd::prelude::*;
use vstd::string::*;
use vstd::utf8::*;

verus! {

/// `String::push` appends one character to the text.
pub assume_specification[ String::push ](text: &mut String, c: char)
    ensures
        final(text)@ == old(text)@.push(c),
;

/// `char::is_whitespace` holds of exactly the characters with the Unicode
/// `White_Space` property.
pub assume_specification[ char::is_whitespace ](c: char) -> (r: bool)
    ensures
        r == white_space(c),
;

/// `str::to_uppercase`: the result depends on the text alone. On ASCII text
/// it maps each character on its own.
#[verifier::external_body]
pub(crate) fn to_uppercase(text: &str) -> (r: String)
    ensures
        r@ == uppercased(text@),
        is_ascii_chars(text@) ==> r@ == text@.map_values(|c: char| ascii_upper(c)),
{
    text.to_uppercase()
}

/// What `str::to_uppercase` returns for a text.
pub uninterp spec fn uppercased(text: Seq<char>) -> Seq<char>;

/// Whether two texts are the same.
pub(crate) fn same(a: &str, b: &str) -> (r: bool)
    ensures
        r == (a@ == b@),
{
    let x = a.as_bytes();
    let y = b.as_bytes();
    proof {
        encode_utf8_decode_utf8(a@);
        encode_utf8_decode_utf8(b@);
    }
    if x.len() != y.len() {
        return false;
    }
    let mut i: usize = 0;
    while i < x.len()
        invariant
            x@ == encode_utf8(a@),
            y@ == encode_utf8(b@),
            x.len() == y.len(),
            i <= x.len(),
            forall|j: int| 0 <= j < i ==> #[trigger] x@[j] == y@[j],
        decreases x.len() - i,
    {
        if x[i] != y[i] {
            return false;
        }
        i = i + 1;
    }
    proof {
        assert(x@ =~= y@);
    }
    true
}

/// The characters with the Unicode `White_Space` property.
pub open spec fn white_space(c: char) -> bool {
    ||| '\u{9}' <= c <= '\u{d}'
    ||| c == ' '
    ||| c == '\u{85}'
    ||| c == '\u{a0}'
    ||| c == '\u{1680}'
    ||| '\u{2000}' <= c <= '\u{200a}'
    ||| c == '\u{2028}'
    ||| c == '\u{2029}'
    ||| c == '\u{202f}'
    ||| c == '\u{205f}'
    ||| c == '\u{3000}'
}

pub open spec fn ascii_upper(c: char) -> char {
    if 'a' <= c <= 'z' {
        ((c as u8) - 32) as u8 as char
    } else {
        c
    }
}

pub open spec fn ascii_lower(c: char) -> char {
    if 'A' <= c <= 'Z' {
        ((c as u8) + 32) as u8 as char
    } else {
        c
    }
}

/// A text with its ASCII letters in lower case.
pub open spec fn lowered(text: Seq<char>) -> Seq<char> {
    text.map_values(|c: char| ascii_lower(c))
}

/// The characters of a text, in order.
pub fn to_chars(text: &str) -> (out: Vec<char>)
    ensures
        out@ == text@,
{
    let mut out: Vec<char> = Vec::new();
    for c in it: text.chars()
        invariant
            out@ == it.seq().take(it.index()),
            it.seq() == text@,
    {
        out.push(c);
        proof {
            assert(it.seq().take(it.index() + 1) =~= it.seq().take(it.index()).push(c));
        }
    }
    proof {
        assert(text@.take(text@.len() as int) =~= text@);
    }
    out
}

/// The text made of the characters from `from` up to `to`.
pub fn slice_text(chars: &Vec<char>, from: usize, to: usize) -> (out: String)
    requires
        from <= to <= chars.len(),
    ensures
        out@ == chars@.subrange(from as int, to as int),
{
    let mut out: String = String::new();
    let mut i: usize = from;
    while i < to
        invariant
            from <= i <= to <= chars.len(),
            out@ == chars@.subrange(from as int, i as int),
        decreases to - i,
    {
        out.push(chars[i]);
        proof {
            assert(chars@.subrange(from as int, i + 1) =~= chars@.subrange(from as int, i as int).push(
                chars@[i as int],
            ));
        }
        i = i + 1;
    }
    out
}

/// Two texts, one after the other.
pub fn cat(a: &str, b: &str) -> (out: String)
    ensures
        out@ == a@ + b@,
{
    let mut out: String = a.to_owned();
    out.append(b);
    out
}

/// A text without the leading characters that `p` holds of.
pub open spec fn skip_while(text: Seq<char>, p: spec_fn(char) -> bool) -> Seq<char>
    decreases text.len(),
{
    if text.len() > 0 && p(text[0]) {
        skip_while(text.drop_first(), p)
    } else {
        text
    }
}

/// A text without the trailing characters that `p` holds of.
pub open spec fn drop_while(text: Seq<char>, p: spec_fn(char) -> bool) -> Seq<char>
    decreases text.len(),
{
    if text.len() > 0 && p(text.last()) {
        drop_while(text.drop_last(), p)
    } else {
        text
    }
}

/// A text without leading and trailing white space.
pub open spec fn trimmed_text(text: Seq<char>) -> Seq<char> {
    drop_while(skip_while(text, |c: char| white_space(c)), |c: char| white_space(c))
}

proof fn lemma_skip_within(text: Seq<char>, p: spec_fn(char) -> bool)
    ensures
        forall|c: char| #[trigger] skip_while(text, p).contains(c) ==> text.contains(c),
    decreases text.len(),
{
    if text.len() > 0 && p(text[0]) {
        let rest = text.skip(1);
        lemma_skip_within(rest, p);
        assert forall|c: char| #[trigger] skip_while(text, p).contains(c) implies text.contains(c) by {
            assert(skip_while(rest, p).contains(c));
            let i = choose|i: int| 0 <= i < rest.len() && rest[i] == c;
            assert(text[i + 1] == c);
        }
    }
}

proof fn lemma_drop_within(text: Seq<char>, p: spec_fn(char) -> bool)
    ensures
        forall|c: char| #[trigger] drop_while(text, p).contains(c) ==> text.contains(c),
    decreases text.len(),
{
    if text.len() > 0 && p(text.last()) {
        let rest = text.drop_last();
        lemma_drop_within(rest, p);
        assert forall|c: char| #[trigger] drop_while(text, p).contains(c) implies text.contains(c) by {
            assert(drop_while(rest, p).contains(c));
            let i = choose|i: int| 0 <= i < rest.len() && rest[i] == c;
            assert(text[i] == c);
        }
    }
}

/// Trimming adds no character.
pub proof fn lemma_trimmed_within(text: Seq<char>)
    ensures
        forall|i: int|
            0 <= i < trimmed_text(text).len() ==> text.contains(#[trigger] trimmed_text(text)[i]),
{
    let p = |c: char| white_space(c);
    let mid = skip_while(text, p);
    lemma_skip_within(text, p);
    lemma_drop_within(mid, p);
    let out = trimmed_text(text);
    assert(out == drop_while(mid, p));
    assert forall|i: int| 0 <= i < out.len() implies text.contains(#[trigger] out[i]) by {
        assert(drop_while(mid, p).contains(out[i]));
        assert(skip_while(text, p).contains(out[i]));
    }
}

pub fn trim(text: &str) -> (out: String)
    ensures
        out@ == trimmed_text(text@),
{
    let chars = to_chars(text);
    let mut from: usize = 0;
    let ghost p = |c: char| white_space(c);
    proof {
        assert(chars@.subrange(0, chars@.len() as int) =~= text@);
    }
    while from < chars.len() && chars[from].is_whitespace()
        invariant
            p == (|c: char| white_space(c)),
            from <= chars.len(),
            skip_while(text@, p) == skip_while(
                chars@.subrange(from as int, chars@.len() as int),
                p,
            ),
        decreases chars.len() - from,
    {
        proof {
            let cur = chars@.subrange(from as int, chars@.len() as int);
            assert(cur.drop_first() =~= chars@.subrange(from + 1, chars@.len() as int));
        }
        from = from + 1;
    }
    let ghost mid = chars@.subrange(from as int, chars@.len() as int);
    proof {
        assert(skip_while(mid, p) == mid);
    }
    let mut to: usize = chars.len();
    while to > from && chars[to - 1].is_whitespace()
        invariant
            p == (|c: char| white_space(c)),
            from <= to <= chars.len(),
            drop_while(mid, p) == drop_while(chars@.subrange(from as int, to as int), p),
        decreases to,
    {
        proof {
            let cur = chars@.subrange(from as int, to as int);
            assert(cur.drop_last() =~= chars@.subrange(from as int, to - 1));
        }
        to = to - 1;
    }
    proof {
        let cur = chars@.subrange(from as int, to as int);
        assert(drop_while(cur, p) == cur);
    }
    slice_text(&chars, from, to)
}

/// A text without the leading occurrences of a character.
pub fn strip_leading(text: &str, lead: char) -> (out: String)
    ensures
        out@ == skip_while(text@, |c: char| c == lead),
{
    let chars = to_chars(text);
    let ghost p = |c: char| c == lead;
    let mut from: usize = 0;
    proof {
        assert(chars@.subrange(0, chars@.len() as int) =~= text@);
    }
    while from < chars.len() && chars[from] == lead
        invariant
            p == (|c: char| c == lead),
            from <= chars.len(),
            skip_while(text@, p) == skip_while(
                chars@.subrange(from as int, chars@.len() as int),
                p,
            ),
        decreases chars.len() - from,
    {
        proof {
            let cur = chars@.subrange(from as int, chars@.len() as int);
            assert(cur.drop_first() =~= chars@.subrange(from + 1, chars@.len() as int));
        }
        from = from + 1;
    }
    slice_text(&chars, from, chars.len())
}

/// A text without the trailing occurrences of a character.
pub fn strip_trailing(text: &str, trail: char) -> (out: String)
    ensures
        out@ == drop_while(text@, |c: char| c == trail),
{
    let chars = to_chars(text);
    let ghost p = |c: char| c == trail;
    let mut to: usize = chars.len();
    proof {
        assert(chars@.subrange(0, chars@.len() as int) =~= text@);
    }
    while to > 0 && chars[to - 1] == trail
        invariant
            p == (|c: char| c == trail),
            to <= chars.len(),
            drop_while(text@, p) == drop_while(chars@.subrange(0, to as int), p),
        decreases to,
    {
        proof {
            let cur = chars@.subrange(0, to as int);
            assert(cur.drop_last() =~= chars@.subrange(0, to - 1));
        }
        to = to - 1;
    }
    slice_text(&chars, 0, to)
}

pub fn to_ascii_lowercase(text: &str) -> (out: String)
    ensures
        out@ == lowered(text@),
{
    let chars = to_chars(text);
    let mut out: String = String::new();
    let mut i: usize = 0;
    while i < chars.len()
        invariant
            chars@ == text@,
            i <= chars.len(),
            out@ == lowered(text@).take(i as int),
        decreases chars.len() - i,
    {
        let c = chars[i];
        let low: char = if 'A' <= c && c <= 'Z' {
            ((c as u8) + 32) as char
        } else {
            c
        };
        out.push(low);
        proof {
            assert(lowered(text@).take(i + 1) =~= lowered(text@).take(i as int).push(low));
        }
        i = i + 1;
    }
    proof {
        assert(lowered(text@).take(i as int) =~= lowered(text@));
    }
    out
}

/// Order of texts: by the first character that differs, a prefix before what
/// extends it.
pub open spec fn text_le(a: Seq<char>, b: Seq<char>) -> bool
    decreases a.len(),
{
    if a.len() == 0 {
        true
    } else if b.len() == 0 {
        false
    } else if a[0] == b[0] {
        text_le(a.drop_first(), b.drop_first())
    } else {
        a[0] < b[0]
    }
}

pub fn le_text(a: &str, b: &str) -> (r: bool)
    ensures
        r == text_le(a@, b@),
{
    let x = to_chars(a);
    let y = to_chars(b);
    let mut i: usize = 0;
    proof {
        assert(a@.skip(0) =~= a@);
        assert(b@.skip(0) =~= b@);
    }
    while i < x.len() && i < y.len() && x[i] == y[i]
        invariant
            x@ == a@,
            y@ == b@,
            i <= x.len(),
            i <= y.len(),
            text_le(a@, b@) == text_le(a@.skip(i as int), b@.skip(i as int)),
        decreases x.len() - i,
    {
        proof {
            assert(a@.skip(i as int).drop_first() =~= a@.skip(i + 1));
            assert(b@.skip(i as int).drop_first() =~= b@.skip(i + 1));
        }
        i = i + 1;
    }
    if i == x.len() {
        true
    } else if i == y.len() {
        false
    } else {
        x[i] < y[i]
    }
}

pub proof fn lemma_text_le_total(a: Seq<char>, b: Seq<char>)
    ensures
        text_le(a, b) || text_le(b, a),
    decreases a.len(),
{
    if a.len() > 0 && b.len() > 0 && a[0] == b[0] {
        lemma_text_le_total(a.drop_first(), b.drop_first());
    }
}

pub proof fn lemma_text_le_trans(a: Seq<char>, b: Seq<char>, c: Seq<char>)
    requires
        text_le(a, b),
        text_le(b, c),
    ensures
        text_le(a, c),
    decreases a.len(),
{
    if a.len() > 0 && b.len() > 0 && c.len() > 0 && a[0] == b[0] && b[0] == c[0] {
        lemma_text_le_trans(a.drop_first(), b.drop_first(), c.drop_first());
    }
}

pub proof fn lemma_text_le_antisym(a: Seq<char>, b: Seq<char>)
    requires
        text_le(a, b),
        text_le(b, a),
    ensures
        a == b,
    decreases a.len(),
{
    if a.len() > 0 && b.len() > 0 && a[0] == b[0] {
        lemma_text_le_antisym(a.drop_first(), b.drop_first());
        assert(a =~= seq![a[0]] + a.drop_first());
        assert(b =~= seq![b[0]] + b.drop_first());
    } else {
        assert(a =~= b);
    }
}

/// Whether a text begins with another.
pub open spec fn begins_with(text: Seq<char>, prefix: Seq<char>) -> bool {
    prefix.len() <= text.len() && text.take(prefix.len() as int) == prefix
}

/// Whether `part` stands in the text at a position.
pub open spec fn stands_at(text: Seq<char>, part: Seq<char>, at: int) -> bool {
    0 <= at <= text.len() - part.len() && text.subrange(at, at + part.len()) == part
}

/// Whether `part` stands somewhere in the text.
pub open spec fn holds_text(text: Seq<char>, part: Seq<char>) -> bool {
    exists|at: int| #[trigger] stands_at(text, part, at)
}

pub(crate) fn matches_at(text: &Vec<char>, part: &Vec<char>, at: usize) -> (r: bool)
    ensures
        r == stands_at(text@, part@, at as int),
{
    if part.len() > text.len() || at > text.len() - part.len() {
        return false;
    }
    let mut i: usize = 0;
    while i < part.len()
        invariant
            part.len() <= text.len(),
            at <= text.len() - part.len(),
            i <= part.len(),
            forall|j: int| 0 <= j < i ==> text@[at + j] == #[trigger] part@[j],
        decreases part.len() - i,
    {
        if text[at + i] != part[i] {
            proof {
                if stands_at(text@, part@, at as int) {
                    assert(text@.subrange(at as int, at + part@.len())[i as int] == part@[i as int]);
                }
            }
            return false;
        }
        i = i + 1;
    }
    proof {
        assert(text@.subrange(at as int, at + part@.len()) =~= part@);
    }
    true
}

pub fn starts_with(text: &str, prefix: &str) -> (r: bool)
    ensures
        r == begins_with(text@, prefix@),
{
    let t = to_chars(text);
    let p = to_chars(prefix);
    let r = matches_at(&t, &p, 0);
    proof {
        if prefix@.len() <= text@.len() {
            assert(text@.subrange(0, prefix@.len() as int) =~= text@.take(prefix@.len() as int));
        }
    }
    r
}

pub fn contains_text(text: &str, part: &str) -> (r: bool)
    ensures
        r == holds_text(text@, part@),
{
    let t = to_chars(text);
    let p = to_chars(part);
    if p.len() > t.len() {
        return false;
    }
    let mut i: usize = 0;
    while i <= t.len() - p.len()
        invariant
            t@ == text@,
            p@ == part@,
            p.len() <= t.len(),
            i <= t.len() - p.len() + 1,
            forall|j: int| 0 <= j < i ==> !(#[trigger] stands_at(text@, part@, j)),
        decreases t.len() - i,
    {
        if matches_at(&t, &p, i) {
            return true;
        }
        if i == t.len() - p.len() {
            proof {
                assert forall|at: int| !(#[trigger] stands_at(text@, part@, at)) by {
                    if 0 <= at <= i {
                    }
                }
            }
            return false;
        }
        i = i + 1;
    }
    false
}

pub open spec fn digit(n: int) -> char {
    (n + 48) as u8 as char
}

/// A number in decimal digits.
pub open spec fn decimal(n: nat) -> Seq<char>
    decreases n,
{
    if n < 10 {
        seq![digit(n as int)]
    } else {
        decimal(n / 10).push(digit((n % 10) as int))
    }
}

pub fn decimal_text(n: u64) -> (out: String)
    ensures
        out@ == decimal(n as nat),
    decreases n,
{
    let d: u8 = (n % 10) as u8;
    let mut out = if n < 10 {
        String::new()
    } else {
        decimal_text(n / 10)
    };
    let ghost before = out@;
    out.push((d + 48) as char);
    proof {
        if n < 10 {
            assert(out@ =~= decimal(n as nat));
        }
    }
    out
}

/// A number in decimal, with a minus sign where it is negative.
pub open spec fn signed_decimal(n: int) -> Seq<char> {
    if n < 0 {
        "-"@ + decimal((-n) as nat)
    } else {
        decimal(n as nat)
    }
}

pub fn signed_text(n: i64) -> (out: String)
    ensures
        out@ == signed_decimal(n as int),
{
    if n < 0 {
        let size: u64 = (-(n as i128)) as u64;
        let digits = decimal_text(size);
        cat("-", digits.as_str())
    } else {
        decimal_text(n as u64)
    }
}

/// Three texts, one after the other.
pub fn cat3(a: &str, b: &str, c: &str) -> (out: String)
    ensures
        out@ == a@ + b@ + c@,
{
    let mut out: String = a.to_owned();
    out.append(b);
    out.append(c);
    out
}

/// An optional text, taken by its view.
pub open spec fn opt_text(o: Option<String>) -> Option<Seq<char>> {
    match o {
        Some(s) => Some(s@),
        None => None,
    }
}

/// An optional borrowed text, taken by its view.
pub open spec fn opt_str(o: Option<&str>) -> Option<Seq<char>> {
    match o {
        Some(s) => Some(s@),
        None => None,
    }
}

/// The texts of a list, each taken by its view.
pub open spec fn texts(list: Seq<String>) -> Seq<Seq<char>> {
    list.map_values(|s: String| s@)
}

pub fn clone_opt(o: &Option<String>) -> (r: Option<String>)
    ensures
        opt_text(r) == opt_text(*o),
{
    match o {
        Some(s) => Some(s.clone()),
        None => None,
    }
}

pub fn own_opt(o: Option<&str>) -> (r: Option<String>)
    ensures
        opt_text(r) == opt_str(o),
{
    match o {
        Some(s) => Some(s.to_owned()),
        None => None,
    }
}

/// Borrows an optional text.
pub fn as_opt_str(o: &Option<String>) -> (r: Option<&str>)
    ensures
        opt_str(r) == opt_text(*o),
{
    match o {
        Some(s) => Some(s.as_str()),
        None => None,
    }
}

/// Whether an optional text is present and equal to `b`.
pub fn opt_is(o: &Option<String>, b: &str) -> (r: bool)
    ensures
        r == (opt_text(*o) == Some(b@)),
{
    match o {
        Some(s) => same(s.as_str(), b),
        None => false,
    }
}

pub fn clone_texts(list: &Vec<String>) -> (r: Vec<String>)
    ensures
        texts(r@) == texts(list@),
{
    let mut r: Vec<String> = Vec::new();
    let mut i: usize = 0;
    while i < list.len()
        invariant
            i <= list.len(),
            texts(r@) =~= texts(list@).take(i as int),
        decreases list.len() - i,
    {
        let ghost before = r@;
        r.push(list[i].clone());
        proof {
            assert(texts(r@) =~= texts(before).push(list@[i as int]@));
        }
        i = i + 1;
    }
    r
}

/// Whether a text is one of a list.
pub fn has_text(list: &Vec<String>, text: &str) -> (r: bool)
    ensures
        r == texts(list@).contains(text@),
{
    let mut i: usize = 0;
    while i < list.len()
        invariant
            i <= list.len(),
            forall|j: int| 0 <= j < i ==> #[trigger] texts(list@)[j] != text@,
        decreases list.len() - i,
    {
        if same(list[i].as_str(), text) {
            proof {
                assert(texts(list@)[i as int] == text@);
            }
            return true;
        }
        i = i + 1;
    }
    false
}

} // verus!

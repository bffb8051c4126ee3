//! Invite codes as people type and read them.
use crate::text::{ascii_upper, to_chars, to_uppercase, uppercased, white_space};
use vstd::prelude::*;
use vstd::string::*;
use vstd::utf8::*;

verus! {

/// The characters of an invite code that count: neither white space nor dashes.
pub open spec fn code_chars(raw: Seq<char>) -> Seq<char> {
    raw.filter(|c: char| !white_space(c) && c != '-')
}

/// A text in upper case, the ASCII letters first.
pub open spec fn upper_code(text: Seq<char>) -> Seq<char> {
    let bare = text.map_values(|c: char| ascii_upper(c));
    if is_ascii_chars(bare) {
        bare
    } else {
        uppercased(bare)
    }
}

/// An invite code without white space and dashes, in upper case.
pub open spec fn normalized_code(raw: Seq<char>) -> Seq<char> {
    code_chars(upper_code(code_chars(raw)))
}

/// The characters of an invite code that count.
fn kept_chars(raw: &str) -> (out: String)
    ensures
        out@ == code_chars(raw@),
{
    let chars = to_chars(raw);
    let ghost p = |c: char| !white_space(c) && c != '-';
    let mut kept: String = String::new();
    let mut i: usize = 0;
    proof {
        reveal(Seq::filter);
        assert(raw@.take(0) =~= Seq::empty());
    }
    while i < chars.len()
        invariant
            chars@ == raw@,
            p == (|c: char| !white_space(c) && c != '-'),
            i <= chars.len(),
            kept@ == raw@.take(i as int).filter(p),
        decreases chars.len() - i,
    {
        let c = chars[i];
        proof {
            crate::table::lemma_filter_step(raw@, p, i as int);
        }
        if !c.is_whitespace() && c != '-' {
            kept.push(c);
        }
        i = i + 1;
    }
    proof {
        assert(raw@.take(i as int) =~= raw@);
    }
    kept
}

fn to_ascii_uppercase(text: &str) -> (out: String)
    ensures
        out@ == text@.map_values(|c: char| ascii_upper(c)),
{
    let chars = to_chars(text);
    let ghost whole = text@.map_values(|c: char| ascii_upper(c));
    let mut out: String = String::new();
    let mut i: usize = 0;
    while i < chars.len()
        invariant
            chars@ == text@,
            whole == text@.map_values(|c: char| ascii_upper(c)),
            i <= chars.len(),
            out@ =~= whole.take(i as int),
        decreases chars.len() - i,
    {
        let c = chars[i];
        if 'a' <= c && c <= 'z' {
            out.push((c as u8 - 32) as char);
        } else {
            out.push(c);
        }
        i = i + 1;
    }
    proof {
        assert(whole.take(i as int) =~= whole);
    }
    out
}

/// Strips white space and dashes from an invite code and puts it in upper case.
pub fn normalize_invite_code(raw: &str) -> (code: String)
    ensures
        code@ == normalized_code(raw@),
{
    let kept = kept_chars(raw);
    let bare = to_ascii_uppercase(kept.as_str());
    let upper = to_uppercase(bare.as_str());
    proof {
        lemma_upper_twice(kept@);
    }
    kept_chars(upper.as_str())
}

proof fn lemma_upper_twice(text: Seq<char>)
    ensures
        ({
            let bare = text.map_values(|c: char| ascii_upper(c));
            bare.map_values(|c: char| ascii_upper(c)) == bare
        }),
{
    let bare = text.map_values(|c: char| ascii_upper(c));
    assert forall|i: int| 0 <= i < bare.len() implies ascii_upper(#[trigger] bare[i]) == bare[i] by {
        lemma_ascii_upper(text[i]);
    }
    assert(bare.map_values(|c: char| ascii_upper(c)) =~= bare);
}

proof fn lemma_ascii_upper(c: char)
    ensures
        ascii_upper(ascii_upper(c)) == ascii_upper(c),
        white_space(ascii_upper(c)) == white_space(c),
        ascii_upper(c) == '-' <==> c == '-',
        !('a' <= ascii_upper(c) <= 'z'),
{
    if 'a' <= c <= 'z' {
        let u: u8 = c as u8;
        assert(97 <= u <= 122);
        assert(65 <= (u - 32) as u8 <= 90);
    }
}

/// A normalized code holds neither white space nor dashes.
pub proof fn normalized_code_is_bare(raw: Seq<char>)
    ensures
        forall|i: int|
            0 <= i < normalized_code(raw).len() ==> {
                let c = #[trigger] normalized_code(raw)[i];
                !white_space(c) && c != '-'
            },
{
    broadcast use vstd::seq_lib::group_filter_ensures;

    let p = |c: char| !white_space(c) && c != '-';
    let n = normalized_code(raw);
    assert forall|i: int| 0 <= i < n.len() implies {
        let c = #[trigger] n[i];
        !white_space(c) && c != '-'
    } by {
        assert(p(n[i]));
    }
}

/// White space, dashes and the case of ASCII letters do not count in an invite code.
pub proof fn spacing_and_case_do_not_count(raw: Seq<char>, other: Seq<char>)
    requires
        code_chars(raw).map_values(|c: char| ascii_upper(c)) == code_chars(other).map_values(
            |c: char| ascii_upper(c),
        ),
    ensures
        normalized_code(raw) == normalized_code(other),
{
}

/// A character that does not count may be put in anywhere, or left out.
pub proof fn inserting_does_not_count(head: Seq<char>, c: char, tail: Seq<char>)
    requires
        white_space(c) || c == '-',
    ensures
        normalized_code(head + seq![c] + tail) == normalized_code(head + tail),
{
    let p = |c: char| !white_space(c) && c != '-';
    Seq::filter_distributes_over_add(head + seq![c], tail, p);
    Seq::filter_distributes_over_add(head, seq![c], p);
    Seq::filter_distributes_over_add(head, tail, p);
    assert(seq![c].filter(p) =~= Seq::empty()) by {
        reveal(Seq::filter);
        assert(seq![c].drop_last() =~= Seq::empty());
        assert(seq![c].drop_last().filter(p) =~= Seq::empty());
    }
    assert(head.filter(p) + Seq::<char>::empty() =~= head.filter(p));
}

/// Normalizing a normalized ASCII code changes nothing.
pub proof fn normalizing_twice_is_normalizing_once(raw: Seq<char>)
    requires
        is_ascii_chars(code_chars(raw)),
    ensures
        normalized_code(normalized_code(raw)) == normalized_code(raw),
{
    broadcast use vstd::seq_lib::group_filter_ensures;

    let p = |c: char| !white_space(c) && c != '-';
    let kept = code_chars(raw);
    let bare = kept.map_values(|c: char| ascii_upper(c));
    assert forall|i: int| 0 <= i < kept.len() implies p(#[trigger] kept[i]) by {
        assert(p(raw.filter(p)[i]));
    }
    assert forall|i: int| 0 <= i < bare.len() implies ({
        let c = #[trigger] bare[i];
        !white_space(c) && c != '-' && !('a' <= c <= 'z')
    }) by {
        lemma_ascii_upper(kept[i]);
        assert(p(kept[i]));
    }
    assert(is_ascii_chars(bare)) by {
        lemma_ascii_bare(kept);
    }
    assert(plain_code(bare));
    lemma_plain_fixed(bare);
    assert(normalized_code(raw) == bare);
}

proof fn lemma_ascii_bare(text: Seq<char>)
    requires
        is_ascii_chars(text),
    ensures
        is_ascii_chars(text.map_values(|c: char| ascii_upper(c))),
{
    let bare = text.map_values(|c: char| ascii_upper(c));
    assert forall|i: int| 0 <= i < bare.len() implies (#[trigger] bare[i]) as u32 <= 127 by {
        let c = text[i];
        assert(c as u32 <= 127);
        if 'a' <= c <= 'z' {
            let u: u8 = c as u8;
            assert(65 <= (u - 32) as u8 <= 90);
        }
    }
}

/// `str::from_utf8`: the text that the bytes encode, if they are valid UTF-8.
#[verifier::external_body]
pub(crate) fn utf8_text(bytes: &[u8]) -> (r: Option<String>)
    ensures
        r is Some <==> valid_utf8(bytes@),
        r matches Some(s) ==> s@ == decode_utf8(bytes@),
{
    match std::str::from_utf8(bytes) {
        Ok(s) => Some(s.to_owned()),
        Err(_) => None,
    }
}

/// Bytes cut into groups of four, each read as text; a group that is no text is left out.
pub open spec fn groups_of_four(bytes: Seq<u8>) -> Seq<Seq<char>>
    decreases bytes.len(),
{
    if bytes.len() == 0 {
        Seq::empty()
    } else {
        let n = if bytes.len() < 4 {
            bytes.len() as int
        } else {
            4
        };
        let head = bytes.take(n);
        let rest = groups_of_four(bytes.skip(n));
        if valid_utf8(head) {
            seq![decode_utf8(head)] + rest
        } else {
            rest
        }
    }
}

/// Texts with a dash between each two.
pub open spec fn dashed(parts: Seq<Seq<char>>) -> Seq<char>
    decreases parts.len(),
{
    if parts.len() == 0 {
        Seq::empty()
    } else if parts.len() == 1 {
        parts[0]
    } else {
        parts[0] + seq!['-'] + dashed(parts.skip(1))
    }
}

/// The display form of an invite code: groups of four with dashes between them.
pub open spec fn display_code(code: Seq<char>) -> Seq<char> {
    dashed(groups_of_four(encode_utf8(normalized_code(code))))
}

proof fn lemma_dashed_push(parts: Seq<Seq<char>>, last: Seq<char>)
    ensures
        dashed(parts.push(last)) == if parts.len() == 0 {
            last
        } else {
            dashed(parts) + seq!['-'] + last
        },
    decreases parts.len(),
{
    let all = parts.push(last);
    if parts.len() == 0 {
        assert(all[0] == last);
    } else {
        assert(all.skip(1) =~= parts.skip(1).push(last));
        lemma_dashed_push(parts.skip(1), last);
        if parts.len() == 1 {
            assert(dashed(all.skip(1)) == last);
        } else {
            assert(dashed(all) =~= dashed(parts) + seq!['-'] + last);
        }
    }
}

pub fn format_invite_code_for_display(code: &str) -> (out: String)
    ensures
        out@ == display_code(code@),
{
    let n = normalize_invite_code(code);
    let bytes = n.as_str().as_bytes();
    let mut out: String = String::new();
    let mut i: usize = 0;
    let ghost mut parts: Seq<Seq<char>> = Seq::empty();
    proof {
        assert(bytes@.skip(0) =~= bytes@);
        assert(parts + groups_of_four(bytes@) =~= groups_of_four(bytes@));
    }
    while i < bytes.len()
        invariant
            i <= bytes.len(),
            out@ == dashed(parts),
            groups_of_four(bytes@) == parts + groups_of_four(bytes@.skip(i as int)),
            parts.len() == 0 ==> out@.len() == 0,
            parts.len() > 0 ==> out@.len() > 0,
        decreases bytes.len() - i,
    {
        let end: usize = if bytes.len() - i < 4 {
            bytes.len()
        } else {
            i + 4
        };
        let group = vstd::slice::slice_subrange(bytes, i, end);
        let ghost rest = bytes@.skip(i as int);
        proof {
            assert(rest.take(end - i) =~= group@);
            assert(rest.skip(end - i) =~= bytes@.skip(end as int));
        }
        if let Some(text) = utf8_text(group) {
            let first = out.as_str().is_empty();
            if !first {
                out.push('-');
            }
            out.append(text.as_str());
            proof {
                lemma_dashed_push(parts, text@);
                let tail = groups_of_four(bytes@.skip(end as int));
                assert(parts + (seq![text@] + tail) =~= parts.push(text@) + tail);
                parts = parts.push(text@);
                assert(out@ =~= dashed(parts));
                assert(text@.len() > 0) by {
                    if text@.len() == 0 {
                        decode_utf8_encode_utf8(group@);
                        assert(encode_utf8(text@).len() == 0);
                    }
                }
            }
        }
        i = end;
    }
    proof {
        assert(bytes@.skip(i as int) =~= Seq::empty());
        assert(parts + Seq::<Seq<char>>::empty() =~= parts);
    }
    out
}

/// Whether a code reads the same after normalization: ASCII without white space, dashes
/// and lower-case letters.
pub open spec fn plain_code(code: Seq<char>) -> bool {
    &&& is_ascii_chars(code)
    &&& forall|i: int|
        0 <= i < code.len() ==> {
            let c = #[trigger] code[i];
            !white_space(c) && c != '-' && !('a' <= c <= 'z')
        }
}

proof fn lemma_plain_fixed(code: Seq<char>)
    requires
        plain_code(code),
    ensures
        code_chars(code) == code,
        code.map_values(|c: char| ascii_upper(c)) == code,
    decreases code.len(),
{
    reveal(Seq::filter);
    if code.len() > 0 {
        assert(forall|i: int|
            0 <= i < code.len() - 1 ==> #[trigger] code.drop_last()[i] == code[i]);
        lemma_plain_fixed(code.drop_last());
        assert(code.last() == code[code.len() - 1]);
        assert(code.drop_last().push(code.last()) =~= code);
    }
    assert(code_chars(code) =~= code);
    assert(code.map_values(|c: char| ascii_upper(c)) =~= code);
}

proof fn lemma_plain_bytes(code: Seq<char>)
    requires
        plain_code(code),
    ensures
        encode_utf8(code) == Seq::new(code.len(), |i: int| code[i] as u8),
        valid_utf8(encode_utf8(code)),
        decode_utf8(encode_utf8(code)) == code,
{
    is_ascii_chars_encode_utf8(code);
    encode_utf8_valid_utf8(code);
    encode_utf8_decode_utf8(code);
    assert(encode_utf8(code) =~= Seq::new(code.len(), |i: int| code[i] as u8));
}

proof fn lemma_plain_parts(code: Seq<char>, n: int)
    requires
        plain_code(code),
        0 <= n <= code.len(),
    ensures
        plain_code(code.take(n)),
        plain_code(code.skip(n)),
        encode_utf8(code).take(n) == encode_utf8(code.take(n)),
        encode_utf8(code).skip(n) == encode_utf8(code.skip(n)),
{
    let head = code.take(n);
    let tail = code.skip(n);
    assert(forall|i: int| 0 <= i < head.len() ==> #[trigger] head[i] == code[i]);
    assert(forall|i: int| 0 <= i < tail.len() ==> #[trigger] tail[i] == code[i + n]);
    lemma_plain_bytes(code);
    lemma_plain_bytes(head);
    lemma_plain_bytes(tail);
    assert(encode_utf8(code).take(n) =~= encode_utf8(head));
    assert(encode_utf8(code).skip(n) =~= encode_utf8(tail));
}

proof fn lemma_dash_drops(head: Seq<char>, rest: Seq<char>)
    ensures
        code_chars(head + seq!['-'] + rest) == code_chars(head) + code_chars(rest),
{
    let p = |c: char| !white_space(c) && c != '-';
    Seq::filter_distributes_over_add(head + seq!['-'], rest, p);
    Seq::filter_distributes_over_add(head, seq!['-'], p);
    assert(seq!['-'].filter(p) =~= Seq::empty()) by {
        reveal(Seq::filter);
        assert(seq!['-'].drop_last() =~= Seq::empty());
        assert(seq!['-'].drop_last().filter(p) =~= Seq::empty());
    }
    assert(code_chars(head) + Seq::<char>::empty() =~= code_chars(head));
}

proof fn lemma_groups_step(code: Seq<char>, n: int)
    requires
        plain_code(code),
        code.len() > 0,
        n == if code.len() < 4 {
            code.len() as int
        } else {
            4
        },
    ensures
        groups_of_four(encode_utf8(code)) == seq![code.take(n)] + groups_of_four(
            encode_utf8(code.skip(n)),
        ),
{
    lemma_plain_bytes(code);
    lemma_plain_parts(code, n);
    lemma_plain_bytes(code.take(n));
}

/// Without its dashes, the display form of a plain code is the code.
proof fn lemma_display_chars(code: Seq<char>, parts: Seq<Seq<char>>)
    requires
        plain_code(code),
        parts == groups_of_four(encode_utf8(code)),
    ensures
        code_chars(dashed(parts)) == code,
    decreases code.len(),
{
    lemma_plain_fixed(code);
    if code.len() == 0 {
        lemma_plain_bytes(code);
        assert(dashed(parts) =~= code);
    } else {
        let n = if code.len() < 4 {
            code.len() as int
        } else {
            4
        };
        let head = code.take(n);
        let tail = code.skip(n);
        let rest = groups_of_four(encode_utf8(tail));
        lemma_groups_step(code, n);
        lemma_plain_parts(code, n);
        lemma_display_chars(tail, rest);
        lemma_plain_fixed(head);
        assert(parts[0] == head);
        assert(parts.skip(1) =~= rest);
        assert(head + tail =~= code);
        if rest.len() == 0 {
            assert(dashed(rest) =~= Seq::empty());
            lemma_plain_fixed(Seq::empty());
            assert(tail =~= Seq::empty());
            assert(head =~= code);
        } else {
            lemma_dash_drops(head, dashed(rest));
        }
    }
}

/// Normalizing the display form of a plain code gives the code back: what a person reads
/// off the screen and types in, dashes and all, is the code that was stored.
pub proof fn display_normalizes_back(code: Seq<char>)
    requires
        plain_code(code),
    ensures
        normalized_code(code) == code,
        normalized_code(display_code(code)) == code,
{
    lemma_plain_fixed(code);
    lemma_display_chars(code, groups_of_four(encode_utf8(code)));
    assert(is_ascii_chars(code_chars(display_code(code))));
}

/// The display form of a plain code shows it four characters at a time, with a dash between.
pub proof fn display_is_in_fours(code: Seq<char>)
    requires
        plain_code(code),
    ensures
        code.len() <= 4 ==> display_code(code) == code,
        code.len() > 4 ==> display_code(code) == code.take(4) + seq!['-'] + display_code(
            code.skip(4),
        ),
{
    lemma_plain_fixed(code);
    if code.len() == 0 {
        lemma_plain_bytes(code);
        assert(display_code(code) =~= code);
    } else {
        let n = if code.len() < 4 {
            code.len() as int
        } else {
            4
        };
        let parts = groups_of_four(encode_utf8(code));
        let rest = groups_of_four(encode_utf8(code.skip(n)));
        lemma_groups_step(code, n);
        lemma_plain_parts(code, n);
        lemma_plain_fixed(code.skip(n));
        assert(parts[0] == code.take(n));
        assert(parts.skip(1) =~= rest);
        if code.len() <= 4 {
            lemma_plain_bytes(code.skip(n));
            assert(code.take(n) =~= code);
            assert(rest.len() == 0);
        } else {
            lemma_groups_step(
                code.skip(n),
                if code.skip(n).len() < 4 {
                    code.skip(n).len() as int
                } else {
                    4
                },
            );
            assert(rest.len() > 0);
        }
    }
}

} // verus!

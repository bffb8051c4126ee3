//! Fresh identifiers and random codes.
use crate::table::lemma_no_repeat_len;
use crate::text::{cat, has_text, texts};
use vstd::arithmetic::power::pow;
use vstd::prelude::*;

verus! {

/// Whether a character is a lower-case hexadecimal digit.
pub open spec fn lower_hex(c: char) -> bool {
    '0' <= c <= '9' || 'a' <= c <= 'f'
}

/// Whether a text is a prefix, an underscore and 32 lower-case hexadecimal digits.
pub open spec fn is_short_id(prefix: Seq<char>, id: Seq<char>) -> bool {
    &&& id.len() == prefix.len() + 33
    &&& id.take(prefix.len() as int) == prefix
    &&& id[prefix.len() as int] == '_'
    &&& forall|i: int| prefix.len() < i < id.len() ==> lower_hex(#[trigger] id[i])
}

/// `uuid::Uuid::now_v7` in its simple form: 32 lower-case hexadecimal digits
/// without hyphens. Which digits depends on the time and on chance.
#[verifier::external_body]
fn uuid_v7_simple() -> (r: String)
    ensures
        r@.len() == 32,
        forall|i: int| 0 <= i < 32 ==> lower_hex(#[trigger] r@[i]),
{
    uuid::Uuid::now_v7().simple().to_string()
}

/// A fresh identifier that starts with the given prefix.
pub fn short_id(prefix: &str) -> (id: String)
    ensures
        is_short_id(prefix@, id@),
{
    let uuid = uuid_v7_simple();
    let head = cat(prefix, "_");
    proof {
        reveal_strlit("_");
    }
    let id = cat(head.as_str(), uuid.as_str());
    proof {
        assert(id@.take(prefix@.len() as int) =~= prefix@);
        assert forall|i: int| prefix@.len() < i < id@.len() implies lower_hex(
            #[trigger] id@[i],
        ) by {
            assert(id@[i] == uuid@[i - prefix@.len() - 1]);
        }
    }
    id
}

/// The lower-case hexadecimal digit of a value below 16.
pub open spec fn lower_digit(n: int) -> char {
    if n < 10 {
        (n + 48) as u8 as char
    } else {
        (n + 87) as u8 as char
    }
}

/// A number in that many hexadecimal digits.
pub open spec fn lower_hex_text(n: int, width: nat) -> Seq<char>
    decreases width,
{
    if width == 0 {
        Seq::empty()
    } else {
        lower_hex_text(n / 16, (width - 1) as nat).push(lower_digit(n % 16))
    }
}

proof fn lemma_lower_hex(n: int, width: nat)
    requires
        0 <= n,
    ensures
        lower_hex_text(n, width).len() == width,
        forall|i: int| 0 <= i < width ==> lower_hex(#[trigger] lower_hex_text(n, width)[i]),
    decreases width,
{
    if width > 0 {
        lemma_lower_hex(n / 16, (width - 1) as nat);
    }
}

/// Numbers that are small enough for their digits have different digits.
proof fn lemma_lower_hex_apart(a: int, b: int, width: nat)
    requires
        0 <= a < pow(16, width),
        0 <= b < pow(16, width),
        lower_hex_text(a, width) == lower_hex_text(b, width),
    ensures
        a == b,
    decreases width,
{
    reveal(pow);
    if width > 0 {
        let less = (width - 1) as nat;
        let x = lower_hex_text(a / 16, less);
        let y = lower_hex_text(b / 16, less);
        assert(x.push(lower_digit(a % 16)).drop_last() =~= x);
        assert(y.push(lower_digit(b % 16)).drop_last() =~= y);
        assert(x.push(lower_digit(a % 16)).last() == lower_digit(a % 16));
        assert(y.push(lower_digit(b % 16)).last() == lower_digit(b % 16));
        assert(a % 16 == b % 16);
        assert(pow(16, width) == 16 * pow(16, less));
        lemma_lower_hex_apart(a / 16, b / 16, less);
    }
}

fn lower_hex_of(n: u64) -> (out: String)
    ensures
        out@ == lower_hex_text(n as int, 32),
{
    let mut digits: Vec<char> = Vec::new();
    let mut rest: u64 = n;
    let mut width: usize = 32;
    while width > 0
        invariant
            width <= 32,
            digits.len() == 32 - width,
            lower_hex_text(n as int, 32) == lower_hex_text(rest as int, width as nat)
                + digits@.reverse(),
        decreases width,
    {
        let d: u8 = (rest % 16) as u8;
        let c = if d < 10 {
            (d + 48) as char
        } else {
            (d + 87) as char
        };
        let ghost before = digits@;
        let ghost head = lower_hex_text(rest as int / 16, (width - 1) as nat);
        digits.push(c);
        proof {
            assert(before.push(c).reverse() =~= seq![c] + before.reverse());
            assert(head.push(c) + before.reverse() =~= head + (seq![c] + before.reverse()));
        }
        rest = rest / 16;
        width = width - 1;
    }
    let mut out: String = String::new();
    let ghost whole = digits@.reverse();
    let mut i: usize = 0;
    while i < digits.len()
        invariant
            digits.len() == 32,
            whole == digits@.reverse(),
            i <= 32,
            out@ =~= whole.take(i as int),
        decreases digits.len() - i,
    {
        out.push(digits[31 - i]);
        i = i + 1;
    }
    proof {
        assert(whole.take(i as int) =~= whole);
        assert(lower_hex_text(rest as int, 0) + whole =~= whole);
    }
    out
}

/// The identifier with a prefix and a number.
spec fn numbered_id(prefix: Seq<char>, n: int) -> Seq<char> {
    prefix + "_"@ + lower_hex_text(n, 32)
}

/// An identifier that is not in use: a fresh one, and should chance have given one that is, the
/// first of the numbered ones that is not.
pub fn unused_id(prefix: &str, used: &Vec<String>) -> (id: String)
    ensures
        is_short_id(prefix@, id@),
        !texts(used@).contains(id@),
{
    let id = short_id(prefix);
    if !has_text(used, id.as_str()) {
        return id;
    }
    let ghost tried: Seq<Seq<char>> = Seq::empty();
    let head = cat(prefix, "_");
    let mut n: u64 = 0;
    loop
        invariant
            head@ == prefix@ + "_"@,
            n <= used.len(),
            tried.len() == n,
            forall|i: int| 0 <= i < n ==> #[trigger] tried[i] == numbered_id(prefix@, i),
            forall|i: int| 0 <= i < n ==> texts(used@).contains(#[trigger] tried[i]),
        decreases used.len() - n,
    {
        let digits = lower_hex_of(n);
        let id = cat(head.as_str(), digits.as_str());
        proof {
            reveal_strlit("_");
            lemma_lower_hex(n as int, 32);
            assert(id@.take(prefix@.len() as int) =~= prefix@);
            assert forall|i: int| prefix@.len() < i < id@.len() implies lower_hex(
                #[trigger] id@[i],
            ) by {
                assert(id@[i] == digits@[i - prefix@.len() - 1]);
            }
        }
        if !has_text(used, id.as_str()) {
            return id;
        }
        proof {
            tried = tried.push(id@);
            lemma_numbered_apart(prefix@, tried);
            lemma_no_repeat_len(tried, texts(used@));
        }
        n = n + 1;
    }
}

/// Numbered identifiers are all different.
proof fn lemma_numbered_apart(prefix: Seq<char>, tried: Seq<Seq<char>>)
    requires
        tried.len() <= 0x1_0000_0000_0000_0000,
        forall|i: int| 0 <= i < tried.len() ==> #[trigger] tried[i] == numbered_id(prefix, i),
    ensures
        tried.no_duplicates(),
{
    assert(pow(16, 32) > 0x1_0000_0000_0000_0000) by {
        reveal_with_fuel(pow, 33);
    }
    assert forall|i: int, j: int|
        0 <= i < tried.len() && 0 <= j < tried.len() && i != j implies tried[i] != tried[j] by {
        if tried[i] == tried[j] {
            let head = prefix + "_"@;
            let a = lower_hex_text(i, 32);
            let b = lower_hex_text(j, 32);
            assert((head + a).skip(head.len() as int) =~= a);
            assert((head + b).skip(head.len() as int) =~= b);
            lemma_lower_hex_apart(i, j, 32);
        }
    }
}

/// `getrandom::getrandom` on a buffer of eight bytes. `None` when the operating
/// system has no entropy to give; which bytes come back is chance.
#[verifier::external_body]
fn random_eight() -> (r: Option<Vec<u8>>)
    ensures
        r matches Some(bytes) ==> bytes@.len() == 8,
{
    let mut buf = [0u8; 8];
    match getrandom::getrandom(&mut buf) {
        Ok(()) => Some(buf.to_vec()),
        Err(_) => None,
    }
}

/// The upper-case hexadecimal digit of a value below 16.
pub open spec fn upper_digit(n: int) -> char {
    if n < 10 {
        (n + 48) as u8 as char
    } else {
        (n + 55) as u8 as char
    }
}

/// Two upper-case hexadecimal digits for each byte.
pub open spec fn upper_hex_text(bytes: Seq<u8>) -> Seq<char> {
    Seq::new(
        2 * bytes.len(),
        |i: int|
            if i % 2 == 0 {
                upper_digit(bytes[i / 2] as int / 16)
            } else {
                upper_digit(bytes[i / 2] as int % 16)
            },
    )
}

fn hex_digit(n: u8) -> (c: char)
    requires
        n < 16,
    ensures
        c == upper_digit(n as int),
{
    if n < 10 {
        (n + 48) as char
    } else {
        (n + 55) as char
    }
}

/// Writes bytes as upper-case hexadecimal digits.
pub fn upper_hex(bytes: &Vec<u8>) -> (out: String)
    ensures
        out@ == upper_hex_text(bytes@),
{
    let mut out: String = String::new();
    let mut i: usize = 0;
    while i < bytes.len()
        invariant
            i <= bytes.len(),
            out@.len() == 2 * i,
            forall|j: int| 0 <= j < 2 * i ==> #[trigger] out@[j] == upper_hex_text(bytes@)[j],
        decreases bytes.len() - i,
    {
        let b = bytes[i];
        out.push(hex_digit(b / 16));
        out.push(hex_digit(b % 16));
        i = i + 1;
    }
    proof {
        assert(out@ =~= upper_hex_text(bytes@));
    }
    out
}

/// Whether a character is an upper-case hexadecimal digit.
pub open spec fn upper_hex_char(c: char) -> bool {
    '0' <= c <= '9' || 'A' <= c <= 'F'
}

/// A random invite code of 16 upper-case hexadecimal digits, `None` without entropy.
pub fn generate_invite_code() -> (r: Option<String>)
    ensures
        r matches Some(code) ==> code@.len() == 16 && forall|i: int|
            0 <= i < 16 ==> upper_hex_char(#[trigger] code@[i]),
{
    match random_eight() {
        Some(bytes) => Some(upper_hex(&bytes)),
        None => None,
    }
}

} // verus!

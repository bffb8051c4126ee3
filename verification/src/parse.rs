//! Reading numbers and lists out of text.
use crate::text::{texts, to_chars, white_space};
use vstd::prelude::*;

verus! {

/// The pieces of a text between the occurrences of a separator.
pub open spec fn split_at_each(text: Seq<char>, sep: char) -> Seq<Seq<char>>
    decreases text.len(),
{
    if text.len() == 0 {
        seq![Seq::empty()]
    } else {
        let pieces = split_at_each(text.drop_last(), sep);
        if text.last() == sep {
            pieces.push(Seq::empty())
        } else {
            pieces.drop_last().push(pieces.last().push(text.last()))
        }
    }
}

/// Splits a text at each occurrence of a separator.
pub fn split(text: &str, sep: char) -> (out: Vec<String>)
    ensures
        texts(out@) == split_at_each(text@, sep),
        out.len() > 0,
{
    let chars = to_chars(text);
    let mut out: Vec<String> = Vec::new();
    let mut piece: String = String::new();
    let mut i: usize = 0;
    proof {
        assert(text@.take(0) =~= Seq::empty());
        assert(texts(out@).push(piece@) =~= seq![Seq::<char>::empty()]);
    }
    while i < chars.len()
        invariant
            chars@ == text@,
            i <= chars.len(),
            texts(out@).push(piece@) == split_at_each(text@.take(i as int), sep),
        decreases chars.len() - i,
    {
        let c = chars[i];
        let ghost before = texts(out@);
        let ghost was = piece@;
        proof {
            assert(text@.take(i + 1).drop_last() =~= text@.take(i as int));
            assert(before.push(was).drop_last() =~= before);
        }
        if c == sep {
            out.push(piece);
            piece = String::new();
            proof {
                assert(texts(out@) =~= before.push(was));
            }
        } else {
            piece.push(c);
        }
        i = i + 1;
    }
    proof {
        assert(text@.take(i as int) =~= text@);
    }
    let ghost before = texts(out@);
    out.push(piece);
    proof {
        assert(texts(out@) =~= before.push(piece@));
    }
    out
}

/// The longest runs of a text without white space.
pub open spec fn words(text: Seq<char>) -> Seq<Seq<char>>
    decreases text.len(),
{
    if text.len() == 0 {
        Seq::empty()
    } else {
        let rest = words(text.drop_last());
        let c = text.last();
        if white_space(c) {
            rest
        } else if text.len() > 1 && !white_space(text[text.len() - 2]) {
            rest.drop_last().push(rest.last().push(c))
        } else {
            rest.push(seq![c])
        }
    }
}

/// The words of a text.
pub fn split_whitespace(text: &str) -> (out: Vec<String>)
    ensures
        texts(out@) == words(text@),
{
    let chars = to_chars(text);
    let mut out: Vec<String> = Vec::new();
    let mut word: String = String::new();
    let mut inside = false;
    let mut i: usize = 0;
    proof {
        assert(text@.take(0) =~= Seq::empty());
        assert(texts(out@) =~= Seq::empty());
    }
    while i < chars.len()
        invariant
            chars@ == text@,
            i <= chars.len(),
            inside == (i > 0 && !white_space(text@[i - 1])),
            inside ==> texts(out@).push(word@) == words(text@.take(i as int)),
            !inside ==> texts(out@) == words(text@.take(i as int)) && word@.len() == 0,
        decreases chars.len() - i,
    {
        let c = chars[i];
        let ghost before = texts(out@);
        let ghost was = word@;
        let ghost now = text@.take(i + 1);
        proof {
            assert(now.drop_last() =~= text@.take(i as int));
            assert(now.last() == c);
            assert(before.push(was).drop_last() =~= before);
            if i > 0 {
                assert(now[now.len() - 2] == text@[i - 1]);
            }
        }
        if c.is_whitespace() {
            if inside {
                out.push(word);
                word = String::new();
                proof {
                    assert(texts(out@) =~= before.push(was));
                }
            }
            inside = false;
        } else {
            word.push(c);
            proof {
                if !inside {
                    assert(word@ =~= seq![c]);
                }
            }
            inside = true;
        }
        i = i + 1;
    }
    proof {
        assert(text@.take(i as int) =~= text@);
    }
    if inside {
        let ghost before = texts(out@);
        out.push(word);
        proof {
            assert(texts(out@) =~= before.push(word@));
        }
    }
    out
}

pub open spec fn is_digit(c: char) -> bool {
    '0' <= c <= '9'
}

pub open spec fn digit_value(c: char) -> int {
    c as int - 48
}

pub open spec fn all_digits(text: Seq<char>) -> bool {
    forall|i: int| 0 <= i < text.len() ==> is_digit(#[trigger] text[i])
}

/// The number that decimal digits write.
pub open spec fn digits_number(text: Seq<char>) -> nat
    decreases text.len(),
{
    if text.len() == 0 {
        0
    } else {
        (digits_number(text.drop_last()) * 10 + digit_value(text.last())) as nat
    }
}

/// The number that a text of decimal digits writes, at least one of them.
pub open spec fn natural(text: Seq<char>) -> Option<nat> {
    if text.len() > 0 && all_digits(text) {
        Some(digits_number(text))
    } else {
        None
    }
}

/// The number that a text writes with an optional plus sign.
pub open spec fn unsigned(text: Seq<char>) -> Option<nat> {
    if text.len() > 0 && text[0] == '+' {
        natural(text.skip(1))
    } else {
        natural(text)
    }
}

/// The number that a text writes with an optional sign.
pub open spec fn signed(text: Seq<char>) -> Option<int> {
    if text.len() > 0 && text[0] == '-' {
        match natural(text.skip(1)) {
            Some(n) => Some(-(n as int)),
            None => None,
        }
    } else {
        match unsigned(text) {
            Some(n) => Some(n as int),
            None => None,
        }
    }
}

/// The 64-bit number that a text writes.
pub open spec fn int_text(text: Seq<char>) -> Option<i64> {
    match signed(text) {
        Some(n) => if i64::MIN <= n <= i64::MAX {
            Some(n as i64)
        } else {
            None
        },
        None => None,
    }
}

/// The number up to 255 that a text writes.
pub open spec fn byte_text(text: Seq<char>) -> Option<u8> {
    match unsigned(text) {
        Some(n) => if n <= 255 {
            Some(n as u8)
        } else {
            None
        },
        None => None,
    }
}

/// The largest magnitude of a 64-bit number.
pub const MAGNITUDE: u64 = 9_223_372_036_854_775_808;

/// Reads digits from a position on, as far as the number is at most [`MAGNITUDE`].
fn read_natural(chars: &Vec<char>, from: usize) -> (r: Option<u64>)
    requires
        from <= chars.len(),
    ensures
        match r {
            Some(n) => natural(chars@.skip(from as int)) == Some(n as nat) && n <= MAGNITUDE,
            None => natural(chars@.skip(from as int)) is None || natural(
                chars@.skip(from as int),
            )->0 > MAGNITUDE,
        },
{
    let ghost body = chars@.skip(from as int);
    if from == chars.len() {
        return None;
    }
    let mut n: u64 = 0;
    let mut over = false;
    let mut i: usize = from;
    proof {
        assert(body.take(0) =~= Seq::empty());
    }
    while i < chars.len()
        invariant
            from <= i <= chars.len(),
            body == chars@.skip(from as int),
            n <= MAGNITUDE,
            forall|j: int| 0 <= j < i - from ==> is_digit(#[trigger] body[j]),
            !over ==> n == digits_number(body.take(i - from)),
            over ==> digits_number(body.take(i - from)) > MAGNITUDE,
        decreases chars.len() - i,
    {
        let c = chars[i];
        proof {
            assert(body[i - from] == c);
            assert(body.take(i - from + 1).drop_last() =~= body.take(i - from));
            assert(body.take(i - from + 1).last() == c);
        }
        if c < '0' || c > '9' {
            proof {
                assert(!is_digit(body[i - from]));
            }
            return None;
        }
        let d: u64 = c as u64 - 48;
        if !over {
            if n > (MAGNITUDE - d) / 10 {
                over = true;
            } else {
                n = n * 10 + d;
            }
        }
        i = i + 1;
    }
    proof {
        assert(body.take(i - from) =~= body);
    }
    if over {
        None
    } else {
        Some(n)
    }
}

/// Reads a 64-bit number, as `i64::from_str` does.
pub fn parse_i64(text: &str) -> (r: Option<i64>)
    ensures
        r == int_text(text@),
{
    let chars = to_chars(text);
    proof {
        assert(text@.skip(0) =~= text@);
    }
    if chars.len() == 0 {
        return None;
    }
    if chars[0] == '-' {
        match read_natural(&chars, 1) {
            Some(n) => if n == MAGNITUDE {
                Some(i64::MIN)
            } else {
                Some(-(n as i64))
            },
            None => None,
        }
    } else {
        let from: usize = if chars[0] == '+' {
            1
        } else {
            0
        };
        match read_natural(&chars, from) {
            Some(n) => if n == MAGNITUDE {
                None
            } else {
                Some(n as i64)
            },
            None => None,
        }
    }
}

/// Reads a number up to 255, as `u8::from_str` does.
pub fn parse_u8(text: &str) -> (r: Option<u8>)
    ensures
        r == byte_text(text@),
{
    let chars = to_chars(text);
    proof {
        assert(text@.skip(0) =~= text@);
    }
    if chars.len() == 0 {
        return None;
    }
    let from: usize = if chars[0] == '+' {
        1
    } else {
        0
    };
    match read_natural(&chars, from) {
        Some(n) => if n <= 255 {
            Some(n as u8)
        } else {
            None
        },
        None => None,
    }
}

/// Reads a number up to 65535, as `u16::from_str` does.
pub fn parse_u16(text: &str) -> (r: Option<u16>)
    ensures
        r == match unsigned(text@) {
            Some(n) => if n <= 65535 {
                Some(n as u16)
            } else {
                None
            },
            None => None,
        },
{
    let chars = to_chars(text);
    proof {
        assert(text@.skip(0) =~= text@);
    }
    if chars.len() == 0 {
        return None;
    }
    let from: usize = if chars[0] == '+' {
        1
    } else {
        0
    };
    match read_natural(&chars, from) {
        Some(n) => if n <= 65535 {
            Some(n as u16)
        } else {
            None
        },
        None => None,
    }
}

} // verus!

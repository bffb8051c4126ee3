//! Numbers, words and the order of texts.
use crate::ids::{lower_digit, upper_digit, upper_hex_text};
use crate::parse::{
    all_digits, byte_text, digits_number, int_text, is_digit, natural, signed,
    split_at_each, unsigned, words,
};
use crate::text::{decimal, digit, signed_decimal, text_le, white_space};
use vstd::prelude::*;

verus! {

/// A number in decimal digits is read as that number, and is written without leading zeros.
pub proof fn decimal_reads_back(n: nat)
    ensures
        decimal(n).len() > 0,
        all_digits(decimal(n)),
        digits_number(decimal(n)) == n,
        natural(decimal(n)) == Some(n),
        unsigned(decimal(n)) == Some(n),
        decimal(n).len() > 1 ==> decimal(n)[0] != '0',
        n > 0 ==> decimal(n)[0] != '0',
        n < 10 ==> decimal(n).len() == 1,
        n < 100 ==> decimal(n).len() <= 2,
        n < 1000 ==> decimal(n).len() <= 3,
    decreases n,
{
    let text = decimal(n);
    if n < 10 {
        assert(text.drop_last() =~= Seq::empty());
        assert(digits_number(text.drop_last()) == 0);
        assert(is_digit(text[0]));
    } else {
        decimal_reads_back(n / 10);
        assert(text.drop_last() =~= decimal(n / 10));
        assert(text.last() == digit((n % 10) as int));
        assert forall|i: int| 0 <= i < text.len() implies is_digit(#[trigger] text[i]) by {
            if i < text.len() - 1 {
                assert(text[i] == decimal(n / 10)[i]);
            }
        }
        assert(text[0] == decimal(n / 10)[0]);
        assert(digits_number(text) == (n / 10) * 10 + n % 10);
    }
    assert(is_digit(text[0]));
}

/// A number with its sign is read as that number.
pub proof fn signed_reads_back(n: int)
    ensures
        signed(signed_decimal(n)) == Some(n),
        i64::MIN <= n <= i64::MAX ==> int_text(signed_decimal(n)) == Some(n as i64),
        !(i64::MIN <= n <= i64::MAX) ==> int_text(signed_decimal(n)) is None,
        0 <= n <= 255 ==> byte_text(signed_decimal(n)) == Some(n as u8),
        n > 255 ==> byte_text(signed_decimal(n)) is None,
{
    reveal_strlit("-");
    if n < 0 {
        decimal_reads_back((-n) as nat);
        let text = signed_decimal(n);
        assert(text[0] == '-');
        assert(text.skip(1) =~= decimal((-n) as nat));
    } else {
        decimal_reads_back(n as nat);
        assert(is_digit(decimal(n as nat)[0]));
    }
}

/// A text that is empty or holds something else than digits, but for one sign ahead, is no number.
pub proof fn only_digits_are_numbers(text: Seq<char>, i: int)
    ensures
        text.len() == 0 ==> signed(text) is None && unsigned(text) is None && natural(text) is None,
        0 <= i < text.len() && !is_digit(text[i]) ==> natural(text) is None,
        1 <= i < text.len() && !is_digit(text[i]) ==> unsigned(text) is None && signed(
            text,
        ) is None,
        text.len() > 0 && text[0] == '-' ==> unsigned(text) is None,
{
    if 1 <= i < text.len() {
        assert(text.skip(1)[i - 1] == text[i]);
    }
}

/// Each digit is worth ten times the one behind it.
pub proof fn digits_are_decimal(text: Seq<char>, c: char)
    requires
        all_digits(text),
        is_digit(c),
    ensures
        digits_number(text.push(c)) == digits_number(text) * 10 + (c as int - '0' as int),
        digits_number(Seq::empty()) == 0,
{
    assert(text.push(c).drop_last() =~= text);
}

/// The words of two texts with white space between are those of the first and those of the
/// second.
pub proof fn white_space_parts_words(a: Seq<char>, c: char, b: Seq<char>)
    requires
        white_space(c),
    ensures
        words(a + seq![c] + b) == words(a) + words(b),
    decreases b.len(),
{
    let text = a + seq![c] + b;
    if b.len() == 0 {
        assert(text.drop_last() =~= a);
        assert(text.last() == c);
        assert(words(a) + words(b) =~= words(a));
    } else {
        let rest = b.drop_last();
        white_space_parts_words(a, c, rest);
        assert(text.drop_last() =~= a + seq![c] + rest);
        assert(text.last() == b.last());
        if !white_space(b.last()) {
            if b.len() > 1 {
                assert(text[text.len() - 2] == b[b.len() - 2]);
                if !white_space(b[b.len() - 2]) {
                    lemma_word_at_end(rest);
                    assert(words(text) =~= words(a) + words(b));
                } else {
                    assert(words(text) =~= words(a) + words(b));
                }
            } else {
                assert(text[text.len() - 2] == c);
                assert(words(rest) =~= Seq::empty());
                assert(words(text) =~= words(a) + words(b));
            }
        }
    }
}

proof fn lemma_word_at_end(text: Seq<char>)
    requires
        text.len() > 0,
        !white_space(text.last()),
    ensures
        words(text).len() > 0,
{
}

/// A text without white space is one word.
pub proof fn bare_text_is_one_word(text: Seq<char>)
    requires
        text.len() > 0,
        forall|i: int| 0 <= i < text.len() ==> !white_space(#[trigger] text[i]),
    ensures
        words(text) == seq![text],
    decreases text.len(),
{
    let rest = text.drop_last();
    assert(!white_space(text[text.len() - 1]));
    if rest.len() > 0 {
        bare_text_is_one_word(rest);
        assert(!white_space(text[text.len() - 2]));
        assert(rest.push(text.last()) =~= text);
        assert(words(text) =~= seq![text]);
    } else {
        assert(words(rest) =~= Seq::empty());
        assert(seq![text.last()] =~= text);
        assert(words(text) =~= seq![text]);
    }
}

/// A separator parts a text in the pieces before it and those behind it, and a text without one is
/// one piece.
pub proof fn separator_parts_pieces(a: Seq<char>, b: Seq<char>, sep: char)
    ensures
        split_at_each(a + seq![sep] + b, sep) == split_at_each(a, sep) + split_at_each(b, sep),
        !a.contains(sep) ==> split_at_each(a, sep) == seq![a],
{
    crate::platform::storage_config_laws::lemma_split_join(a, b, sep);
    if !a.contains(sep) {
        assert forall|i: int| 0 <= i < a.len() implies #[trigger] a[i] != sep by {
            assert(a.contains(a[i]));
        }
        crate::platform::storage_config_laws::lemma_split_bare(a, sep);
    }
}

/// Texts are ordered by the first character in which they differ, and a text comes before one that
/// goes on behind it.
pub proof fn texts_are_ordered_by_first_difference(
    common: Seq<char>,
    x: char,
    a: Seq<char>,
    y: char,
    b: Seq<char>,
)
    ensures
        x < y ==> text_le(common + seq![x] + a, common + seq![y] + b) && !text_le(
            common + seq![y] + b,
            common + seq![x] + a,
        ),
        text_le(common, common + a),
        a.len() > 0 ==> !text_le(common + a, common),
    decreases common.len(),
{
    let left = common + seq![x] + a;
    let right = common + seq![y] + b;
    if common.len() > 0 {
        let rest = common.drop_first();
        texts_are_ordered_by_first_difference(rest, x, a, y, b);
        assert(left.drop_first() =~= rest + seq![x] + a);
        assert(right.drop_first() =~= rest + seq![y] + b);
        assert((common + a).drop_first() =~= rest + a);
        assert(left[0] == common[0] && right[0] == common[0] && (common + a)[0] == common[0]);
    } else {
        assert(left[0] == x && right[0] == y);
        assert(common + a =~= a);
    }
}

/// A digit of base sixteen stands for its value, and each byte is written in two of them.
pub proof fn hex_digits_stand_for_values(n: int, bytes: Seq<u8>, i: int)
    requires
        0 <= n < 16,
        0 <= i < bytes.len(),
    ensures
        crate::platform::ip_allowlist::hex_value(upper_digit(n)) == Some(n as nat),
        crate::platform::ip_allowlist::hex_value(lower_digit(n)) == Some(n as nat),
        upper_hex_text(bytes).len() == 2 * bytes.len(),
        bytes[i] == crate::platform::ip_allowlist::hex_value(upper_hex_text(bytes)[2 * i])->0 * 16
            + crate::platform::ip_allowlist::hex_value(upper_hex_text(bytes)[2 * i + 1])->0,
{
    let high = bytes[i] as int / 16;
    let low = bytes[i] as int % 16;
    assert(2 * i / 2 == i && (2 * i) % 2 == 0 && (2 * i + 1) / 2 == i && (2 * i + 1) % 2 == 1);
    assert(upper_hex_text(bytes)[2 * i] == upper_digit(high));
    assert(upper_hex_text(bytes)[2 * i + 1] == upper_digit(low));
}

} // verus!

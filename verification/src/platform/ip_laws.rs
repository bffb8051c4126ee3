//! What an entry of an address allowlist means.
use crate::parse::{all_digits, byte_text, digits_number, is_digit, split_at_each};
use crate::platform::ip_allowlist::{
    bare_address_is_full_prefix, covers, double_colon_from, groups_number, hex_number, hex_value,
    octet, plain_groups, position_from, v4_number, v4_octets, v6_group, v6_groups, v6_number,
};
use crate::number_laws::{decimal_reads_back, separator_parts_pieces};
use crate::text::{decimal, trimmed_text, white_space};
use vstd::arithmetic::power2::pow2;
use vstd::prelude::*;

verus! {

/// A character that an address can hold.
spec fn addr_char(c: char) -> bool {
    hex_value(c) is Some || c == ':' || c == '.'
}

spec fn all_addr(text: Seq<char>) -> bool {
    forall|i: int| 0 <= i < text.len() ==> addr_char(#[trigger] text[i])
}

spec fn pieces_addr(pieces: Seq<Seq<char>>) -> bool {
    forall|k: int| 0 <= k < pieces.len() ==> all_addr(#[trigger] pieces[k])
}

/// A text whose pieces hold only characters of an address is such a text itself.
proof fn lemma_split_chars(text: Seq<char>, sep: char)
    requires
        sep == ':' || sep == '.',
        pieces_addr(split_at_each(text, sep)),
    ensures
        all_addr(text),
    decreases text.len(),
{
    lemma_split_some(text, sep);
    if text.len() > 0 {
        let init = text.drop_last();
        let c = text.last();
        let before = split_at_each(init, sep);
        let pieces = split_at_each(text, sep);
        lemma_split_some(init, sep);
        assert(pieces_addr(before)) by {
            assert forall|k: int| 0 <= k < before.len() implies all_addr(#[trigger] before[k]) by {
                assert(all_addr(pieces[k]));
                if c != sep && k == before.len() - 1 {
                    assert(pieces[k] == before[k].push(c));
                    assert forall|i: int| 0 <= i < before[k].len() implies addr_char(
                        #[trigger] before[k][i],
                    ) by {
                        assert(pieces[k][i] == before[k][i]);
                    }
                } else {
                    assert(pieces[k] == before[k]);
                }
            }
        }
        lemma_split_chars(init, sep);
        if c != sep {
            let last = pieces[pieces.len() - 1];
            assert(all_addr(last));
            assert(last[last.len() - 1] == c);
        }
        assert forall|i: int| 0 <= i < text.len() implies addr_char(#[trigger] text[i]) by {
            if i < init.len() {
                assert(init[i] == text[i]);
            }
        }
    }
}

proof fn lemma_split_some(text: Seq<char>, sep: char)
    ensures
        split_at_each(text, sep).len() > 0,
    decreases text.len(),
{
    if text.len() > 0 {
        lemma_split_some(text.drop_last(), sep);
    }
}

/// A text without the separator is one piece.
proof fn lemma_one_piece(text: Seq<char>, sep: char)
    requires
        forall|i: int| 0 <= i < text.len() ==> #[trigger] text[i] != sep,
    ensures
        split_at_each(text, sep) == seq![text],
    decreases text.len(),
{
    if text.len() > 0 {
        let init = text.drop_last();
        assert(forall|i: int| 0 <= i < init.len() ==> #[trigger] init[i] == text[i]);
        lemma_one_piece(init, sep);
        assert(text.last() == text[text.len() - 1]);
        assert(init.push(text.last()) =~= text);
        assert(split_at_each(text, sep) =~= seq![text]);
    } else {
        assert(text =~= Seq::empty());
    }
}

proof fn lemma_v4_chars(text: Seq<char>)
    requires
        v4_octets(text) is Some,
    ensures
        all_addr(text),
        forall|i: int| 0 <= i < text.len() ==> #[trigger] text[i] != ':',
        text.len() > 0,
{
    let pieces = split_at_each(text, '.');
    assert forall|k: int| 0 <= k < pieces.len() implies all_addr(#[trigger] pieces[k]) by {
        assert(octet(pieces[k]) is Some);
        assert forall|i: int| 0 <= i < pieces[k].len() implies addr_char(
            #[trigger] pieces[k][i],
        ) by {
            assert(is_digit(pieces[k][i]));
        }
    }
    lemma_split_chars(text, '.');
    lemma_no_colon(text);
}

/// A text whose pieces between dots hold only digits has no colon.
proof fn lemma_no_colon(text: Seq<char>)
    requires
        forall|k: int|
            0 <= k < split_at_each(text, '.').len() ==> all_digits(
                #[trigger] split_at_each(text, '.')[k],
            ),
    ensures
        forall|i: int| 0 <= i < text.len() ==> #[trigger] text[i] != ':',
    decreases text.len(),
{
    if text.len() > 0 {
        let init = text.drop_last();
        let c = text.last();
        let before = split_at_each(init, '.');
        let pieces = split_at_each(text, '.');
        lemma_split_some(init, '.');
        assert forall|k: int| 0 <= k < before.len() implies all_digits(#[trigger] before[k]) by {
            assert(all_digits(pieces[k]));
            if c != '.' && k == before.len() - 1 {
                assert(pieces[k] == before[k].push(c));
                assert forall|i: int| 0 <= i < before[k].len() implies is_digit(
                    #[trigger] before[k][i],
                ) by {
                    assert(pieces[k][i] == before[k][i]);
                }
            } else {
                assert(pieces[k] == before[k]);
            }
        }
        lemma_no_colon(init);
        if c != '.' {
            let last = pieces[pieces.len() - 1];
            assert(all_digits(last));
            assert(is_digit(last[last.len() - 1]));
        }
        assert forall|i: int| 0 <= i < text.len() implies #[trigger] text[i] != ':' by {
            if i < init.len() {
                assert(init[i] == text[i]);
            }
        }
    }
}

proof fn lemma_plain_chars(pieces: Seq<Seq<char>>, n: int, k: int)
    requires
        plain_groups(pieces, n) is Some,
        0 <= k < n,
    ensures
        v6_group(pieces[k]) is Some,
    decreases n,
{
    if k < n - 1 {
        lemma_plain_chars(pieces, n - 1, k);
    }
}

proof fn lemma_group_chars(text: Seq<char>)
    requires
        v6_group(text) is Some,
    ensures
        all_addr(text),
{
    assert forall|i: int| 0 <= i < text.len() implies addr_char(#[trigger] text[i]) by {
        assert(hex_value(text[i]) is Some);
    }
}

proof fn lemma_groups_chars(text: Seq<char>, v4_tail: bool)
    requires
        v6_groups(text, v4_tail) is Some,
    ensures
        all_addr(text),
{
    if text.len() > 0 {
        let pieces = split_at_each(text, ':');
        lemma_split_some(text, ':');
        assert forall|k: int| 0 <= k < pieces.len() implies all_addr(#[trigger] pieces[k]) by {
            if k < pieces.len() - 1 {
                lemma_plain_chars(pieces, pieces.len() - 1, k);
                lemma_group_chars(pieces[k]);
            } else if v6_group(pieces[k]) is Some {
                lemma_group_chars(pieces[k]);
            } else {
                lemma_v4_chars(pieces[k]);
            }
        }
        lemma_split_chars(text, ':');
    }
}

proof fn lemma_double_colon(text: Seq<char>, i: int)
    requires
        0 <= i,
    ensures
        double_colon_from(text, i) matches Some(j) ==> i <= j < text.len() - 1 && text[j] == ':'
            && text[j + 1] == ':',
    decreases text.len() - i,
{
    if i < text.len() - 1 {
        lemma_double_colon(text, i + 1);
    }
}

proof fn lemma_v6_chars(text: Seq<char>)
    requires
        v6_number(text) is Some,
    ensures
        all_addr(text),
        text.len() > 0,
{
    lemma_double_colon(text, 0);
    match double_colon_from(text, 0) {
        None => lemma_groups_chars(text, true),
        Some(i) => {
            let head = text.take(i);
            let tail = text.skip(i + 2);
            lemma_groups_chars(head, false);
            lemma_groups_chars(tail, true);
            assert forall|k: int| 0 <= k < text.len() implies addr_char(#[trigger] text[k]) by {
                if k < i {
                    assert(head[k] == text[k]);
                } else if k >= i + 2 {
                    assert(tail[k - i - 2] == text[k]);
                }
            }
        },
    }
}

/// No text is an address of both families.
pub proof fn families_are_apart(text: Seq<char>)
    ensures
        !(v4_number(text) is Some && v6_number(text) is Some),
{
    if v4_number(text) is Some {
        lemma_v4_chars(text);
        lemma_double_colon(text, 0);
        lemma_one_piece(text, ':');
        let pieces = split_at_each(text, ':');
        assert(pieces.len() == 1);
        assert(plain_groups(pieces, 0) == Some(Seq::<nat>::empty()));
    }
}

proof fn lemma_position_none(text: Seq<char>, c: char, i: int)
    requires
        0 <= i,
        forall|j: int| i <= j < text.len() ==> #[trigger] text[j] != c,
    ensures
        position_from(text, c, i) is None,
    decreases text.len() - i,
{
    if i < text.len() {
        lemma_position_none(text, c, i + 1);
    }
}

proof fn lemma_position_at(text: Seq<char>, c: char, i: int, n: int)
    requires
        0 <= i <= n < text.len(),
        text[n] == c,
        forall|j: int| i <= j < n ==> #[trigger] text[j] != c,
    ensures
        position_from(text, c, i) == Some(n),
    decreases n - i,
{
    if i < n {
        lemma_position_at(text, c, i + 1, n);
    }
}

proof fn lemma_trimmed(text: Seq<char>)
    requires
        text.len() > 0,
        !white_space(text[0]),
        !white_space(text.last()),
    ensures
        trimmed_text(text) == text,
{
}

/// An entry with a slash after characters of an address is the address and what follows.
proof fn lemma_entry_parts(address: Seq<char>, digits: Seq<char>)
    requires
        all_addr(address),
        address.len() > 0,
        all_digits(digits),
        digits.len() > 0,
    ensures
        ({
            let entry = address + "/"@ + digits;
            &&& position_from(address, '/', 0) is None
            &&& position_from(entry, '/', 0) == Some(address.len() as int)
            &&& trimmed_text(entry.take(address.len() as int)) == address
            &&& trimmed_text(entry.skip(address.len() as int + 1)) == digits
        }),
{
    reveal_strlit("/");
    let entry = address + "/"@ + digits;
    let n = address.len() as int;
    assert forall|j: int| 0 <= j < n implies #[trigger] address[j] != '/' by {
        assert(addr_char(address[j]));
    }
    lemma_position_none(address, '/', 0);
    assert forall|j: int| 0 <= j < n implies #[trigger] entry[j] != '/' by {
        assert(entry[j] == address[j]);
    }
    assert(entry[n] == '/');
    lemma_position_at(entry, '/', 0, n);
    assert(entry.take(n) =~= address);
    assert(entry.skip(n + 1) =~= digits);
    assert(addr_char(address[0]) && addr_char(address[n - 1]));
    lemma_trimmed(address);
    assert(is_digit(digits[0]) && is_digit(digits[digits.len() - 1]));
    lemma_trimmed(digits);
}

proof fn lemma_widths()
    ensures
        "/32"@ == "/"@ + "32"@,
        "/128"@ == "/"@ + "128"@,
        all_digits("32"@) && "32"@.len() > 0 && byte_text("32"@) == Some(32u8),
        all_digits("128"@) && "128"@.len() > 0 && byte_text("128"@) == Some(128u8),
{
    reveal_strlit("/");
    reveal_strlit("32");
    reveal_strlit("128");
    reveal_strlit("/32");
    reveal_strlit("/128");
    assert("/32"@ =~= "/"@ + "32"@);
    assert("/128"@ =~= "/"@ + "128"@);
    let a = "32"@;
    assert(a.drop_last().drop_last() =~= Seq::empty());
    assert(digits_number(a.drop_last().drop_last()) == 0);
    assert(digits_number(a.drop_last()) == 3);
    assert(digits_number(a) == 32);
    let b = "128"@;
    assert(b.drop_last().drop_last().drop_last() =~= Seq::empty());
    assert(digits_number(b.drop_last().drop_last().drop_last()) == 0);
    assert(digits_number(b.drop_last().drop_last()) == 1);
    assert(digits_number(b.drop_last()) == 12);
    assert(digits_number(b) == 128);
}

/// A bare IPv4 address is the same entry as that address with `/32`.
pub proof fn bare_v4_is_slash_32(address: Seq<char>, ip: Seq<char>)
    requires
        v4_number(address) is Some,
    ensures
        covers(address, ip) <==> covers(address + "/32"@, ip),
{
    lemma_widths();
    lemma_v4_chars(address);
    lemma_entry_parts(address, "32"@);
    assert(address + "/32"@ =~= address + "/"@ + "32"@);
    families_are_apart(address);
    bare_address_is_full_prefix(address, ip);
}

/// A bare IPv6 address is the same entry as that address with `/128`.
pub proof fn bare_v6_is_slash_128(address: Seq<char>, ip: Seq<char>)
    requires
        v6_number(address) is Some,
    ensures
        covers(address, ip) <==> covers(address + "/128"@, ip),
{
    lemma_widths();
    lemma_v6_chars(address);
    lemma_entry_parts(address, "128"@);
    assert(address + "/128"@ =~= address + "/"@ + "128"@);
    families_are_apart(address);
    bare_address_is_full_prefix(address, ip);
}

/// An address covers itself.
pub proof fn address_covers_itself(address: Seq<char>)
    requires
        v4_number(address) is Some || v6_number(address) is Some,
    ensures
        covers(address, address),
{
    lemma_widths();
    if v4_number(address) is Some {
        lemma_v4_chars(address);
    } else {
        lemma_v6_chars(address);
    }
    lemma_entry_parts(address, "32"@);
}

/// A number up to 255 in decimal digits is an octet; one with a zero ahead and a greater one are
/// none.
pub proof fn octets_are_decimal(n: nat, rest: Seq<char>)
    ensures
        n <= 255 ==> octet(decimal(n)) == Some(n),
        n > 255 ==> octet(decimal(n)) is None,
        rest.len() > 0 ==> octet(seq!['0'] + rest) is None,
        octet(Seq::empty()) is None,
{
    decimal_reads_back(n);
    assert((seq!['0'] + rest)[0] == '0');
}

proof fn lemma_no_sign(n: nat, c: char)
    requires
        !is_digit(c),
    ensures
        !decimal(n).contains(c),
{
    decimal_reads_back(n);
    if decimal(n).contains(c) {
        let i = choose|i: int| 0 <= i < decimal(n).len() && decimal(n)[i] == c;
        assert(is_digit(decimal(n)[i]));
    }
}

/// Four octets with dots between are an IPv4 address, each octet worth 256 times the next.
pub proof fn dotted_octets_are_an_address(a: nat, b: nat, c: nat, d: nat)
    requires
        a <= 255,
        b <= 255,
        c <= 255,
        d <= 255,
    ensures
        v4_number(
            decimal(a) + seq!['.'] + (decimal(b) + seq!['.'] + (decimal(c) + seq!['.'] + decimal(
                d,
            ))),
        ) == Some((a * 16777216 + b * 65536 + c * 256 + d) as nat),
{
    let cd = decimal(c) + seq!['.'] + decimal(d);
    let bcd = decimal(b) + seq!['.'] + cd;
    let text = decimal(a) + seq!['.'] + bcd;
    octets_are_decimal(a, Seq::empty());
    octets_are_decimal(b, Seq::empty());
    octets_are_decimal(c, Seq::empty());
    octets_are_decimal(d, Seq::empty());
    lemma_no_sign(a, '.');
    lemma_no_sign(b, '.');
    lemma_no_sign(c, '.');
    lemma_no_sign(d, '.');
    separator_parts_pieces(decimal(c), decimal(d), '.');
    separator_parts_pieces(decimal(d), Seq::empty(), '.');
    separator_parts_pieces(decimal(b), cd, '.');
    separator_parts_pieces(decimal(a), bcd, '.');
    assert(split_at_each(text, '.') =~= seq![decimal(a), decimal(b), decimal(c), decimal(d)]);
}

/// An entry with a prefix covers the addresses of its family that agree with it in as many leading
/// bits, and no others; a prefix longer than an address covers nothing.
pub proof fn prefix_covers_its_network(address: Seq<char>, prefix: nat, ip: Seq<char>)
    ensures
        v4_number(address) is Some && v4_number(ip) is Some && prefix <= 32 ==> (covers(
            address + "/"@ + decimal(prefix),
            ip,
        ) <==> v4_number(address)->0 / pow2((32 - prefix) as nat) == v4_number(ip)->0 / pow2(
            (32 - prefix) as nat,
        )),
        v6_number(address) is Some && v6_number(ip) is Some && prefix <= 128 ==> (covers(
            address + "/"@ + decimal(prefix),
            ip,
        ) <==> v6_number(address)->0 / pow2((128 - prefix) as nat) == v6_number(ip)->0 / pow2(
            (128 - prefix) as nat,
        )),
        v4_number(address) is Some && prefix > 32 ==> !covers(
            address + "/"@ + decimal(prefix),
            ip,
        ),
        v6_number(address) is Some && prefix > 128 ==> !covers(
            address + "/"@ + decimal(prefix),
            ip,
        ),
        v4_number(address) is Some && v4_number(ip) is None ==> !covers(
            address + "/"@ + decimal(prefix),
            ip,
        ),
        v6_number(address) is Some && v6_number(ip) is None ==> !covers(
            address + "/"@ + decimal(prefix),
            ip,
        ),
{
    decimal_reads_back(prefix);
    families_are_apart(address);
    families_are_apart(ip);
    if v4_number(address) is Some {
        lemma_v4_chars(address);
        lemma_entry_parts(address, decimal(prefix));
    }
    if v6_number(address) is Some {
        lemma_v6_chars(address);
        lemma_entry_parts(address, decimal(prefix));
    }
}

/// An entry without a prefix covers the address that it writes, however that is written, and no
/// other.
pub proof fn bare_entry_covers_one_address(address: Seq<char>, ip: Seq<char>)
    ensures
        v4_number(address) is Some ==> (covers(address, ip) <==> v4_number(ip) == v4_number(
            address,
        )),
        v6_number(address) is Some ==> (covers(address, ip) <==> v6_number(ip) == v6_number(
            address,
        )),
{
    lemma_widths();
    families_are_apart(address);
    if v4_number(address) is Some {
        lemma_v4_chars(address);
        lemma_entry_parts(address, "32"@);
    }
    if v6_number(address) is Some {
        lemma_v6_chars(address);
        lemma_entry_parts(address, "32"@);
    }
}

/// Texts with colons between.
pub open spec fn colon_joined(parts: Seq<Seq<char>>) -> Seq<char>
    decreases parts.len(),
{
    if parts.len() == 0 {
        Seq::empty()
    } else if parts.len() == 1 {
        parts[0]
    } else {
        colon_joined(parts.drop_last()) + seq![':'] + parts.last()
    }
}

/// One to four digits of base sixteen each.
pub open spec fn hex_groups(parts: Seq<Seq<char>>) -> bool {
    forall|k: int|
        0 <= k < parts.len() ==> 1 <= (#[trigger] parts[k]).len() <= 4 && forall|i: int|
            0 <= i < parts[k].len() ==> hex_value(#[trigger] parts[k][i]) is Some
}

/// What the groups are worth.
pub open spec fn group_values(parts: Seq<Seq<char>>) -> Seq<nat> {
    parts.map_values(|p: Seq<char>| hex_number(p))
}

/// Each digit of base sixteen is worth sixteen times the one behind it, whatever its case, and
/// each group of an address is worth 65536 times the one behind it.
pub proof fn hex_is_positional(text: Seq<char>, c: char, groups: Seq<nat>, g: nat)
    ensures
        hex_number(text.push(c)) == hex_number(text) * 16 + hex_value(c)->0,
        hex_number(Seq::empty()) == 0,
        '0' <= c <= '9' ==> hex_value(c) == Some((c as int - '0' as int) as nat),
        'a' <= c <= 'f' ==> hex_value(c) == Some((c as int - 'a' as int + 10) as nat),
        'A' <= c <= 'F' ==> hex_value(c) == Some((c as int - 'A' as int + 10) as nat),
        hex_value(c) is Some ==> '0' <= c <= '9' || 'a' <= c <= 'f' || 'A' <= c <= 'F',
        groups_number(groups.push(g)) == groups_number(groups) * 65536 + g,
        groups_number(Seq::empty()) == 0,
{
    assert(text.push(c).drop_last() =~= text);
    assert(groups.push(g).drop_last() =~= groups);
}

proof fn lemma_joined_pieces(parts: Seq<Seq<char>>)
    requires
        parts.len() > 0,
        hex_groups(parts),
    ensures
        split_at_each(colon_joined(parts), ':') =~= parts,
        colon_joined(parts).len() > 0,
        colon_joined(parts).last() != ':',
        colon_joined(parts)[0] != ':',
        forall|i: int|
            0 <= i < colon_joined(parts).len() - 1 ==> !(#[trigger] colon_joined(parts)[i] == ':'
                && colon_joined(parts)[i + 1] == ':'),
    decreases parts.len(),
{
    let last = parts.last();
    let text = colon_joined(parts);
    assert(last == parts[parts.len() - 1]);
    assert forall|i: int| 0 <= i < last.len() implies #[trigger] last[i] != ':' by {
        assert(hex_value(parts[parts.len() - 1][i]) is Some);
    }
    assert(!last.contains(':'));
    separator_parts_pieces(last, Seq::empty(), ':');
    if parts.len() > 1 {
        let rest = parts.drop_last();
        assert forall|k: int| 0 <= k < rest.len() implies 1 <= (#[trigger] rest[k]).len() <= 4
            && forall|i: int|
            0 <= i < rest[k].len() ==> hex_value(#[trigger] rest[k][i]) is Some by {
            assert(rest[k] == parts[k]);
        }
        let head = colon_joined(rest);
        lemma_joined_pieces(rest);
        separator_parts_pieces(head, last, ':');
        assert(rest + seq![last] =~= parts);
        assert(text[0] == head[0]);
        assert(text.last() == last.last());
        assert forall|i: int| 0 <= i < text.len() - 1 implies !(#[trigger] text[i] == ':' && text[i
            + 1] == ':') by {
            if i < head.len() - 1 {
                assert(text[i] == head[i] && text[i + 1] == head[i + 1]);
            } else if i == head.len() - 1 {
                assert(text[i] == head.last());
            } else if i == head.len() {
                assert(text[i + 1] == last[0]);
            } else {
                assert(text[i] == last[i - head.len() - 1]);
            }
        }
    } else {
        assert(parts =~= seq![last]);
        assert(text.last() == last[last.len() - 1]);
        assert forall|i: int| 0 <= i < text.len() - 1 implies !(#[trigger] text[i] == ':' && text[i
            + 1] == ':') by {
            assert(last[i] != ':');
        }
    }
}

proof fn lemma_plain_values(parts: Seq<Seq<char>>, n: int)
    requires
        hex_groups(parts),
        0 <= n <= parts.len(),
    ensures
        plain_groups(parts, n) == Some(group_values(parts).take(n)),
    decreases n,
{
    if n > 0 {
        lemma_plain_values(parts, n - 1);
        assert(v6_group(parts[n - 1]) == Some(hex_number(parts[n - 1])));
        assert(group_values(parts).take(n - 1).push(hex_number(parts[n - 1])) =~= group_values(
            parts,
        ).take(n));
    } else {
        assert(group_values(parts).take(0) =~= Seq::empty());
    }
}

proof fn lemma_joined_groups(parts: Seq<Seq<char>>, v4_tail: bool)
    requires
        hex_groups(parts),
    ensures
        v6_groups(colon_joined(parts), v4_tail) == Some(group_values(parts)),
{
    if parts.len() == 0 {
        assert(group_values(parts) =~= Seq::empty());
    } else {
        lemma_joined_pieces(parts);
        let n = parts.len() as int;
        lemma_plain_values(parts, n - 1);
        assert(v6_group(parts[n - 1]) == Some(hex_number(parts[n - 1])));
        assert(group_values(parts).take(n - 1).push(hex_number(parts[n - 1])) =~= group_values(
            parts,
        ));
    }
}

proof fn lemma_first_double_colon(text: Seq<char>, from: int, at: int)
    requires
        0 <= from <= at < text.len() - 1,
        text[at] == ':' && text[at + 1] == ':',
        forall|i: int| from <= i < at ==> !(#[trigger] text[i] == ':' && text[i + 1] == ':'),
    ensures
        double_colon_from(text, from) == Some(at),
    decreases at - from,
{
    if from < at {
        assert(!(text[from] == ':' && text[from + 1] == ':'));
        lemma_first_double_colon(text, from + 1, at);
    }
}

/// Eight groups with colons between are an IPv6 address. A double colon stands for as many zero
/// groups as are missing, wherever it stands.
pub proof fn colon_groups_are_an_address(head: Seq<Seq<char>>, tail: Seq<Seq<char>>)
    requires
        hex_groups(head),
        hex_groups(tail),
    ensures
        head.len() == 8 ==> v6_number(colon_joined(head)) == Some(
            groups_number(group_values(head)),
        ),
        1 <= head.len() && head.len() != 8 ==> v6_number(colon_joined(head)) is None,
        head.len() + tail.len() <= 7 ==> v6_number(
            colon_joined(head) + seq![':', ':'] + colon_joined(tail),
        ) == Some(
            groups_number(
                group_values(head) + Seq::new(
                    (8 - head.len() - tail.len()) as nat,
                    |k: int| 0nat,
                ) + group_values(tail),
            ),
        ),
        head.len() + tail.len() > 7 ==> v6_number(
            colon_joined(head) + seq![':', ':'] + colon_joined(tail),
        ) is None,
{
    let a = colon_joined(head);
    let b = colon_joined(tail);
    let text = a + seq![':', ':'] + b;
    let n = a.len() as int;
    lemma_joined_groups(head, true);
    lemma_joined_groups(head, false);
    lemma_joined_groups(tail, true);
    if head.len() > 0 {
        lemma_joined_pieces(head);
        lemma_double_colon(a, 0);
        if let Some(j) = double_colon_from(a, 0) {
            assert(a[j] == ':' && a[j + 1] == ':');
            assert(false);
        }
    }
    assert(text[n] == ':' && text[n + 1] == ':');
    assert forall|i: int| 0 <= i < n implies !(#[trigger] text[i] == ':' && text[i + 1] == ':') by {
        assert(text[i] == a[i]);
        if i < n - 1 {
            assert(text[i + 1] == a[i + 1]);
        } else {
            assert(a.last() == a[i]);
        }
    }
    lemma_first_double_colon(text, 0, n);
    assert(text.take(n) =~= a);
    assert(text.skip(n + 2) =~= b);
}

} // verus!

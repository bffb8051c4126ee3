//! Matching of addresses against an allowlist of networks and addresses.
use crate::parse::{byte_text, parse_u8, split, split_at_each};
use crate::text::{slice_text, texts, to_chars, trim, trimmed_text};
use vstd::arithmetic::power2::{lemma2_to64, lemma_pow2_pos, lemma_pow2_unfold, pow2};
use vstd::prelude::*;

verus! {

/// A number up to 255 in decimal without leading zeros.
pub open spec fn octet(text: Seq<char>) -> Option<nat> {
    if (text.len() == 1 || (2 <= text.len() <= 3 && text[0] != '0')) && crate::parse::all_digits(
        text,
    ) && crate::parse::digits_number(text) <= 255 {
        Some(crate::parse::digits_number(text))
    } else {
        None
    }
}

/// The four numbers of an IPv4 address in dotted form.
pub open spec fn v4_octets(text: Seq<char>) -> Option<Seq<nat>> {
    let pieces = split_at_each(text, '.');
    if pieces.len() == 4 && octet(pieces[0]) is Some && octet(pieces[1]) is Some && octet(
        pieces[2],
    ) is Some && octet(pieces[3]) is Some {
        Some(
            seq![
                octet(pieces[0])->0,
                octet(pieces[1])->0,
                octet(pieces[2])->0,
                octet(pieces[3])->0,
            ],
        )
    } else {
        None
    }
}

/// An IPv4 address as a number.
pub open spec fn v4_number(text: Seq<char>) -> Option<nat> {
    match v4_octets(text) {
        Some(o) => Some(((o[0] * 256 + o[1]) * 256 + o[2]) * 256 + o[3]),
        None => None,
    }
}

pub open spec fn hex_value(c: char) -> Option<nat> {
    if '0' <= c <= '9' {
        Some((c as int - 48) as nat)
    } else if 'a' <= c <= 'f' {
        Some((c as int - 87) as nat)
    } else if 'A' <= c <= 'F' {
        Some((c as int - 55) as nat)
    } else {
        None
    }
}

pub open spec fn all_hex(text: Seq<char>) -> bool {
    forall|i: int| 0 <= i < text.len() ==> hex_value(#[trigger] text[i]) is Some
}

pub open spec fn hex_number(text: Seq<char>) -> nat
    decreases text.len(),
{
    if text.len() == 0 {
        0
    } else {
        hex_number(text.drop_last()) * 16 + hex_value(text.last())->0
    }
}

/// A group of an IPv6 address: one to four hexadecimal digits.
pub open spec fn v6_group(text: Seq<char>) -> Option<nat> {
    if 1 <= text.len() <= 4 && all_hex(text) {
        Some(hex_number(text))
    } else {
        None
    }
}

/// The groups that the first `n` pieces write, each a group of its own.
pub open spec fn plain_groups(pieces: Seq<Seq<char>>, n: int) -> Option<Seq<nat>>
    decreases n,
{
    if n <= 0 {
        Some(Seq::empty())
    } else {
        match (plain_groups(pieces, n - 1), v6_group(pieces[n - 1])) {
            (Some(so_far), Some(g)) => Some(so_far.push(g)),
            _ => None,
        }
    }
}

/// The groups that a list with colons writes. The last piece may be an IPv4 address, which
/// stands for two groups, where that is allowed.
pub open spec fn v6_groups(text: Seq<char>, v4_tail: bool) -> Option<Seq<nat>> {
    if text.len() == 0 {
        Some(Seq::empty())
    } else {
        let pieces = split_at_each(text, ':');
        let last = pieces.last();
        match plain_groups(pieces, pieces.len() - 1) {
            None => None,
            Some(front) => match v6_group(last) {
                Some(g) => Some(front.push(g)),
                None => match v4_octets(last) {
                    Some(o) => if v4_tail {
                        Some(front.push(o[0] * 256 + o[1]).push(o[2] * 256 + o[3]))
                    } else {
                        None
                    },
                    None => None,
                },
            },
        }
    }
}

/// Two colons stand at a position.
pub open spec fn double_colon_at(text: Seq<char>, i: int) -> bool {
    0 <= i < text.len() - 1 && text[i] == ':' && text[i + 1] == ':'
}

/// Where the first two colons in a row stand from a position on.
pub open spec fn double_colon_from(text: Seq<char>, i: int) -> Option<int>
    decreases text.len() - i,
{
    if i >= text.len() - 1 {
        None
    } else if double_colon_at(text, i) {
        Some(i)
    } else {
        double_colon_from(text, i + 1)
    }
}

/// The eight groups of an IPv6 address. Two colons in a row stand for the groups that are left
/// out, all zero and at least one.
pub open spec fn v6_address(text: Seq<char>) -> Option<Seq<nat>> {
    match double_colon_from(text, 0) {
        None => match v6_groups(text, true) {
            Some(g) => if g.len() == 8 {
                Some(g)
            } else {
                None
            },
            None => None,
        },
        Some(i) => match (v6_groups(text.take(i), false), v6_groups(text.skip(i + 2), true)) {
            (Some(head), Some(tail)) => if head.len() + tail.len() <= 7 {
                Some(head + Seq::new((8 - head.len() - tail.len()) as nat, |k: int| 0nat) + tail)
            } else {
                None
            },
            _ => None,
        },
    }
}

/// The number that groups of 16 bits write.
pub open spec fn groups_number(groups: Seq<nat>) -> nat
    decreases groups.len(),
{
    if groups.len() == 0 {
        0
    } else {
        groups_number(groups.drop_last()) * 65536 + groups.last()
    }
}

/// An IPv6 address as a number.
pub open spec fn v6_number(text: Seq<char>) -> Option<nat> {
    match v6_address(text) {
        Some(g) => Some(groups_number(g)),
        None => None,
    }
}

/// Whether two addresses of `width` bits agree in their first `prefix` bits.
pub open spec fn same_network(a: nat, b: nat, prefix: nat, width: nat) -> bool {
    prefix <= width && a / pow2((width - prefix) as nat) == b / pow2((width - prefix) as nat)
}

/// Whether two texts write the same address.
pub open spec fn same_address(a: Seq<char>, b: Seq<char>) -> bool {
    ||| v4_number(a) is Some && v4_number(a) == v4_number(b)
    ||| v6_number(a) is Some && v6_number(a) == v6_number(b)
}

/// Whether an address lies in a network.
pub open spec fn in_network(net: Seq<char>, prefix: nat, ip: Seq<char>) -> bool {
    match (v4_number(net), v4_number(ip)) {
        (Some(n), Some(i)) => same_network(n, i, prefix, 32),
        _ => match (v6_number(net), v6_number(ip)) {
            (Some(n), Some(i)) => same_network(n, i, prefix, 128),
            _ => false,
        },
    }
}

/// Where a character first stands in a text.
pub open spec fn position_from(text: Seq<char>, c: char, i: int) -> Option<int>
    decreases text.len() - i,
{
    if i >= text.len() {
        None
    } else if text[i] == c {
        Some(i)
    } else {
        position_from(text, c, i + 1)
    }
}

/// Whether an entry of an allowlist, a network or an address, covers an address.
pub open spec fn covers(entry: Seq<char>, ip: Seq<char>) -> bool {
    match position_from(entry, '/', 0) {
        Some(i) => match byte_text(trimmed_text(entry.skip(i + 1))) {
            Some(prefix) => in_network(trimmed_text(entry.take(i)), prefix as nat, ip),
            None => false,
        },
        None => same_address(entry, ip),
    }
}

/// Whether some entry of an allowlist covers an address.
pub open spec fn list_covers(entries: Seq<Seq<char>>, ip: Seq<char>) -> bool {
    exists|i: int|
        0 <= i < entries.len() && covers(trimmed_text(#[trigger] entries[i]), trimmed_text(ip))
}

fn read_octet(text: &str) -> (r: Option<u32>)
    ensures
        match r {
            Some(n) => octet(text@) == Some(n as nat) && n <= 255,
            None => octet(text@) is None,
        },
{
    let chars = to_chars(text);
    let n = chars.len();
    if n == 0 || n > 3 || (n > 1 && chars[0] == '0') {
        return None;
    }
    let mut value: u32 = 0;
    let mut i: usize = 0;
    proof {
        assert(text@.take(0) =~= Seq::empty());
    }
    while i < n
        invariant
            chars@ == text@,
            n == chars.len(),
            n <= 3,
            i <= n,
            forall|j: int| 0 <= j < i ==> crate::parse::is_digit(#[trigger] text@[j]),
            value == crate::parse::digits_number(text@.take(i as int)),
            i == 0 ==> value == 0,
            i == 1 ==> value <= 9,
            i == 2 ==> value <= 99,
            i == 3 ==> value <= 999,
        decreases n - i,
    {
        let c = chars[i];
        if c < '0' || c > '9' {
            proof {
                assert(!crate::parse::is_digit(text@[i as int]));
            }
            return None;
        }
        proof {
            assert(text@.take(i + 1).drop_last() =~= text@.take(i as int));
        }
        value = value * 10 + (c as u32 - 48);
        i = i + 1;
    }
    proof {
        assert(text@.take(i as int) =~= text@);
    }
    if value <= 255 {
        Some(value)
    } else {
        None
    }
}

/// The four numbers of an IPv4 address.
fn read_v4(text: &str) -> (r: Option<(u32, u32, u32, u32)>)
    ensures
        match r {
            Some(o) => v4_octets(text@) == Some(
                seq![o.0 as nat, o.1 as nat, o.2 as nat, o.3 as nat],
            ) && o.0 <= 255 && o.1 <= 255 && o.2 <= 255 && o.3 <= 255,
            None => v4_octets(text@) is None,
        },
{
    let pieces = split(text, '.');
    proof {
        assert(texts(pieces@).len() == pieces@.len());
    }
    if pieces.len() != 4 {
        return None;
    }
    let a = read_octet(pieces[0].as_str());
    let b = read_octet(pieces[1].as_str());
    let c = read_octet(pieces[2].as_str());
    let d = read_octet(pieces[3].as_str());
    proof {
        assert(texts(pieces@)[0] == pieces@[0]@);
        assert(texts(pieces@)[1] == pieces@[1]@);
        assert(texts(pieces@)[2] == pieces@[2]@);
        assert(texts(pieces@)[3] == pieces@[3]@);
    }
    match (a, b, c, d) {
        (Some(a), Some(b), Some(c), Some(d)) => Some((a, b, c, d)),
        _ => None,
    }
}

/// Reads an IPv4 address.
pub fn parse_v4(text: &str) -> (r: Option<u128>)
    ensures
        match r {
            Some(n) => v4_number(text@) == Some(n as nat) && n < 0x1_0000_0000,
            None => v4_number(text@) is None,
        },
{
    match read_v4(text) {
        Some((a, b, c, d)) => {
            let n: u128 = ((a as u128 * 256 + b as u128) * 256 + c as u128) * 256 + d as u128;
            Some(n)
        },
        None => None,
    }
}

fn read_group(text: &str) -> (r: Option<u32>)
    ensures
        match r {
            Some(n) => v6_group(text@) == Some(n as nat) && n <= 0xffff,
            None => v6_group(text@) is None,
        },
{
    let chars = to_chars(text);
    let n = chars.len();
    if n == 0 || n > 4 {
        return None;
    }
    let mut value: u32 = 0;
    let mut i: usize = 0;
    proof {
        assert(text@.take(0) =~= Seq::empty());
    }
    while i < n
        invariant
            chars@ == text@,
            n == chars.len(),
            n <= 4,
            i <= n,
            forall|j: int| 0 <= j < i ==> hex_value(#[trigger] text@[j]) is Some,
            value == hex_number(text@.take(i as int)),
            i == 0 ==> value == 0,
            i == 1 ==> value <= 0xf,
            i == 2 ==> value <= 0xff,
            i == 3 ==> value <= 0xfff,
            i == 4 ==> value <= 0xffff,
        decreases n - i,
    {
        let c = chars[i];
        let d: u32 = if '0' <= c && c <= '9' {
            c as u32 - 48
        } else if 'a' <= c && c <= 'f' {
            c as u32 - 87
        } else if 'A' <= c && c <= 'F' {
            c as u32 - 55
        } else {
            proof {
                assert(hex_value(text@[i as int]) is None);
            }
            return None;
        };
        proof {
            assert(text@.take(i + 1).drop_last() =~= text@.take(i as int));
            assert(hex_value(c) == Some(d as nat));
        }
        value = value * 16 + d;
        i = i + 1;
    }
    proof {
        assert(text@.take(i as int) =~= text@);
    }
    Some(value)
}

/// The groups as plain numbers.
spec fn numbers(groups: Seq<u32>) -> Seq<nat> {
    groups.map_values(|g: u32| g as nat)
}

spec fn small(groups: Seq<u32>) -> bool {
    forall|i: int| 0 <= i < groups.len() ==> #[trigger] groups[i] <= 0xffff
}

fn read_groups(text: &str, v4_tail: bool) -> (r: Option<Vec<u32>>)
    ensures
        match r {
            Some(g) => v6_groups(text@, v4_tail) == Some(numbers(g@)) && small(g@),
            None => v6_groups(text@, v4_tail) is None,
        },
{
    let mut out: Vec<u32> = Vec::new();
    proof {
        assert(numbers(out@) =~= Seq::empty());
    }
    if text.is_empty() {
        return Some(out);
    }
    let pieces = split(text, ':');
    let ghost all = texts(pieces@);
    let last = pieces.len() - 1;
    let mut i: usize = 0;
    while i < last
        invariant
            all == texts(pieces@),
            all == split_at_each(text@, ':'),
            text@.len() > 0,
            last == pieces.len() - 1,
            i <= last,
            small(out@),
            plain_groups(all, i as int) == Some(numbers(out@)),
        decreases last - i,
    {
        let ghost before = out@;
        proof {
            assert(all[i as int] == pieces@[i as int]@);
        }
        match read_group(pieces[i].as_str()) {
            Some(g) => {
                out.push(g);
                proof {
                    assert(numbers(out@) =~= numbers(before).push(g as nat));
                }
            },
            None => {
                proof {
                    assert(plain_groups(all, i + 1) is None);
                    lemma_plain_none(all, i + 1, last as int);
                }
                return None;
            },
        }
        i = i + 1;
    }
    let ghost front = out@;
    proof {
        assert(all.last() == pieces@[last as int]@);
        assert(all.len() == pieces@.len());
    }
    match read_group(pieces[last].as_str()) {
        Some(g) => {
            out.push(g);
            proof {
                assert(numbers(out@) =~= numbers(front).push(g as nat));
            }
            Some(out)
        },
        None => match read_v4(pieces[last].as_str()) {
            Some((a, b, c, d)) => if v4_tail {
                out.push(a * 256 + b);
                out.push(c * 256 + d);
                proof {
                    assert(numbers(out@) =~= numbers(front).push((a * 256 + b) as nat).push(
                        (c * 256 + d) as nat,
                    ));
                }
                Some(out)
            } else {
                None
            },
            None => None,
        },
    }
}

/// A piece that is no group spoils every longer list.
proof fn lemma_plain_none(pieces: Seq<Seq<char>>, n: int, m: int)
    requires
        plain_groups(pieces, n) is None,
        n <= m,
    ensures
        plain_groups(pieces, m) is None,
    decreases m - n,
{
    if n < m {
        lemma_plain_none(pieces, n, m - 1);
    }
}

fn find_double_colon(chars: &Vec<char>) -> (r: Option<usize>)
    ensures
        match r {
            Some(i) => double_colon_from(chars@, 0) == Some(i as int) && double_colon_at(
                chars@,
                i as int,
            ),
            None => double_colon_from(chars@, 0) is None,
        },
{
    let mut i: usize = 0;
    while chars.len() > 0 && i < chars.len() - 1
        invariant
            i <= chars.len(),
            double_colon_from(chars@, 0) == double_colon_from(chars@, i as int),
        decreases chars.len() - i,
    {
        if chars[i] == ':' && chars[i + 1] == ':' {
            return Some(i);
        }
        i = i + 1;
    }
    None
}

/// The number that groups write, none of them larger than 16 bits.
fn number_of(groups: &Vec<u32>) -> (n: u128)
    requires
        groups.len() == 8,
        small(groups@),
    ensures
        n == groups_number(numbers(groups@)),
{
    let ghost all = numbers(groups@);
    let mut n: u128 = 0;
    let mut i: usize = 0;
    proof {
        assert(all.take(0) =~= Seq::empty());
        lemma2_to64();
    }
    while i < 8
        invariant
            groups.len() == 8,
            small(groups@),
            all == numbers(groups@),
            i <= 8,
            n == groups_number(all.take(i as int)),
            i == 0 ==> n == 0,
            i == 1 ==> n < 0x1_0000,
            i == 2 ==> n < 0x1_0000_0000,
            i == 3 ==> n < 0x1_0000_0000_0000,
            i == 4 ==> n < 0x1_0000_0000_0000_0000,
            i == 5 ==> n < 0x1_0000_0000_0000_0000_0000,
            i == 6 ==> n < 0x1_0000_0000_0000_0000_0000_0000,
            i == 7 ==> n < 0x1_0000_0000_0000_0000_0000_0000_0000,
        decreases 8 - i,
    {
        proof {
            assert(all.take(i + 1).drop_last() =~= all.take(i as int));
            assert(all[i as int] == groups@[i as int]);
        }
        n = n * 65536 + groups[i] as u128;
        i = i + 1;
    }
    proof {
        assert(all.take(8) =~= all);
    }
    n
}

/// Reads an IPv6 address.
pub fn parse_v6(text: &str) -> (r: Option<u128>)
    ensures
        match r {
            Some(n) => v6_number(text@) == Some(n as nat),
            None => v6_number(text@) is None,
        },
{
    let chars = to_chars(text);
    match find_double_colon(&chars) {
        None => match read_groups(text, true) {
            Some(g) => {
                proof {
                    assert(numbers(g@).len() == g@.len());
                }
                if g.len() == 8 {
                    Some(number_of(&g))
                } else {
                    None
                }
            },
            None => None,
        },
        Some(i) => {
            let before = slice_text(&chars, 0, i);
            let after = slice_text(&chars, i + 2, chars.len());
            proof {
                assert(before@ =~= text@.take(i as int));
                assert(after@ =~= text@.skip(i + 2));
            }
            let head = read_groups(before.as_str(), false);
            let tail = read_groups(after.as_str(), true);
            match (head, tail) {
                (Some(head), Some(tail)) => {
                    let ghost first = head@;
                    let h = head.len();
                    let t = tail.len();
                    proof {
                        assert(numbers(head@).len() == h);
                        assert(numbers(tail@).len() == t);
                    }
                    if h > 7 || t > 7 - h {
                        return None;
                    }
                    let mut groups = head;
                    while groups.len() < 8 - t
                        invariant
                            h + t <= 7,
                            h <= groups.len() <= 8 - t,
                            first.len() == h,
                            small(groups@),
                            groups@ =~= first + Seq::new((groups.len() - h) as nat, |k: int| 0u32),
                        decreases 8 - groups.len(),
                    {
                        groups.push(0);
                    }
                    let ghost mid = groups@;
                    let mut k: usize = 0;
                    while k < t
                        invariant
                            h + t <= 7,
                            k <= t,
                            t == tail.len(),
                            small(tail@),
                            small(groups@),
                            groups.len() == 8 - t + k,
                            groups@ =~= mid + tail@.take(k as int),
                        decreases t - k,
                    {
                        groups.push(tail[k]);
                        k = k + 1;
                    }
                    proof {
                        let zeros = Seq::new((8 - h - t) as nat, |k: int| 0nat);
                        assert(numbers(groups@) =~= numbers(first) + zeros + numbers(tail@));
                    }
                    Some(number_of(&groups))
                },
                _ => None,
            }
        },
    }
}

/// Whether two addresses of `width` bits agree in their first `prefix` bits.
fn agree(a: u128, b: u128, prefix: u8, width: u8) -> (r: bool)
    requires
        width == 32 || width == 128,
        width == 32 ==> a < 0x1_0000_0000 && b < 0x1_0000_0000,
    ensures
        r == same_network(a as nat, b as nat, prefix as nat, width as nat),
{
    if prefix > width {
        return false;
    }
    proof {
        lemma_widths();
    }
    if prefix == 0 {
        proof {
            let w = pow2(width as nat);
            assert(a as nat / w == 0) by (nonlinear_arith)
                requires
                    (a as nat) < w,
            ;
            assert(b as nat / w == 0) by (nonlinear_arith)
                requires
                    (b as nat) < w,
            ;
        }
        return true;
    }
    let mut unit: u128 = 1;
    let mut left: u8 = width - prefix;
    let ghost total = (width - prefix) as nat;
    proof {
        assert(pow2(0) == 1) by {
            lemma2_to64();
        }
    }
    while left > 0
        invariant
            left <= total < 128,
            unit == pow2((total - left) as nat),
        decreases left,
    {
        proof {
            lemma_pow2_unfold((total - left + 1) as nat);
            lemma_pow2_bound((total - left + 1) as nat);
        }
        unit = unit * 2;
        left = left - 1;
    }
    proof {
        lemma_pow2_pos(total);
    }
    a / unit == b / unit
}

proof fn lemma_widths()
    ensures
        pow2(32) == 0x1_0000_0000,
        pow2(128) == 0x1_0000_0000_0000_0000_0000_0000_0000_0000,
{
    lemma2_to64();
    vstd::arithmetic::power2::lemma_pow2_adds(64, 64);
}

proof fn lemma_pow2_bound(n: nat)
    requires
        n <= 127,
    ensures
        pow2(n) <= 0x8000_0000_0000_0000_0000_0000_0000_0000,
{
    lemma_widths();
    lemma_pow2_unfold(128);
    if n < 127 {
        vstd::arithmetic::power2::lemma_pow2_strictly_increases(n, 127);
    }
}

/// Whether two texts write the same address.
pub fn exact_match(a: &str, b: &str) -> (r: bool)
    ensures
        r == same_address(a@, b@),
{
    if let (Some(x), Some(y)) = (parse_v4(a), parse_v4(b)) {
        if x == y {
            return true;
        }
    }
    match (parse_v6(a), parse_v6(b)) {
        (Some(x), Some(y)) => x == y,
        _ => false,
    }
}

/// Whether an address lies in a network.
pub fn cidr_contains(net: &str, prefix: u8, ip: &str) -> (r: bool)
    ensures
        r == in_network(net@, prefix as nat, ip@),
{
    if let (Some(n), Some(i)) = (parse_v4(net), parse_v4(ip)) {
        return agree(n, i, prefix, 32);
    }
    match (parse_v6(net), parse_v6(ip)) {
        (Some(n), Some(i)) => agree(n, i, prefix, 128),
        _ => false,
    }
}

fn find_slash(chars: &Vec<char>) -> (r: Option<usize>)
    ensures
        match r {
            Some(i) => position_from(chars@, '/', 0) == Some(i as int) && i < chars.len(),
            None => position_from(chars@, '/', 0) is None,
        },
{
    let mut i: usize = 0;
    while i < chars.len()
        invariant
            i <= chars.len(),
            position_from(chars@, '/', 0) == position_from(chars@, '/', i as int),
        decreases chars.len() - i,
    {
        if chars[i] == '/' {
            return Some(i);
        }
        i = i + 1;
    }
    None
}

/// Whether an entry of an allowlist covers an address.
pub fn entry_matches(entry: &str, ip: &str) -> (r: bool)
    ensures
        r == covers(entry@, ip@),
{
    let chars = to_chars(entry);
    match find_slash(&chars) {
        Some(i) => {
            let net = slice_text(&chars, 0, i);
            let rest = slice_text(&chars, i + 1, chars.len());
            proof {
                assert(net@ =~= entry@.take(i as int));
                assert(rest@ =~= entry@.skip(i + 1));
            }
            let bits = trim(rest.as_str());
            let base = trim(net.as_str());
            match parse_u8(bits.as_str()) {
                Some(prefix) => cidr_contains(base.as_str(), prefix, ip),
                None => false,
            }
        },
        None => exact_match(entry, ip),
    }
}

/// Whether some entry of an allowlist covers an address. What is no address or network covers
/// nothing, and an empty list covers nothing.
pub fn ip_allowed(entries: &Vec<String>, ip: &str) -> (r: bool)
    ensures
        r == list_covers(texts(entries@), ip@),
{
    let bare = trim(ip);
    let mut i: usize = 0;
    while i < entries.len()
        invariant
            bare@ == trimmed_text(ip@),
            i <= entries.len(),
            forall|j: int|
                0 <= j < i ==> !covers(
                    trimmed_text(#[trigger] texts(entries@)[j]),
                    trimmed_text(ip@),
                ),
        decreases entries.len() - i,
    {
        let entry = trim(entries[i].as_str());
        proof {
            assert(texts(entries@)[i as int] == entries@[i as int]@);
        }
        if entry_matches(entry.as_str(), bare.as_str()) {
            return true;
        }
        i = i + 1;
    }
    false
}

proof fn lemma_v4_bound(text: Seq<char>)
    ensures
        v4_number(text) matches Some(n) ==> n < pow2(32),
{
    lemma_widths();
    if v4_octets(text) is Some {
        let o = v4_octets(text)->0;
        assert(o[0] <= 255 && o[1] <= 255 && o[2] <= 255 && o[3] <= 255);
    }
}

spec fn short_groups(groups: Seq<nat>) -> bool {
    forall|i: int| 0 <= i < groups.len() ==> #[trigger] groups[i] <= 0xffff
}

proof fn lemma_hex_bound(text: Seq<char>)
    requires
        text.len() <= 4,
        all_hex(text),
    ensures
        text.len() == 0 ==> hex_number(text) == 0,
        text.len() == 1 ==> hex_number(text) <= 0xf,
        text.len() == 2 ==> hex_number(text) <= 0xff,
        text.len() == 3 ==> hex_number(text) <= 0xfff,
        hex_number(text) <= 0xffff,
    decreases text.len(),
{
    if text.len() > 0 {
        let init = text.drop_last();
        assert forall|i: int| 0 <= i < init.len() implies hex_value(#[trigger] init[i]) is Some by {
            assert(hex_value(text[i]) is Some);
        }
        lemma_hex_bound(init);
        assert(hex_value(text[text.len() - 1]) is Some);
        assert(hex_value(text.last())->0 <= 15);
    }
}

proof fn lemma_plain_short(pieces: Seq<Seq<char>>, n: int)
    ensures
        plain_groups(pieces, n) matches Some(g) ==> short_groups(g),
    decreases n,
{
    if n > 0 {
        lemma_plain_short(pieces, n - 1);
        if v6_group(pieces[n - 1]) is Some {
            lemma_hex_bound(pieces[n - 1]);
        }
    }
}

proof fn lemma_groups_short(text: Seq<char>, v4_tail: bool)
    ensures
        v6_groups(text, v4_tail) matches Some(g) ==> short_groups(g),
{
    if text.len() > 0 {
        let pieces = split_at_each(text, ':');
        let last = pieces.last();
        lemma_plain_short(pieces, pieces.len() - 1);
        if v6_group(last) is Some {
            lemma_hex_bound(last);
        }
        if v4_octets(last) is Some {
            let o = v4_octets(last)->0;
            assert(o[0] <= 255 && o[1] <= 255 && o[2] <= 255 && o[3] <= 255);
        }
    }
}

proof fn lemma_groups_bound(groups: Seq<nat>)
    requires
        short_groups(groups),
    ensures
        groups_number(groups) < pow2(16 * groups.len()),
    decreases groups.len(),
{
    lemma2_to64();
    if groups.len() > 0 {
        let init = groups.drop_last();
        assert forall|i: int| 0 <= i < init.len() implies #[trigger] init[i] <= 0xffff by {
            assert(groups[i] <= 0xffff);
        }
        lemma_groups_bound(init);
        vstd::arithmetic::power2::lemma_pow2_adds(16 * init.len(), 16);
        assert(groups[groups.len() - 1] <= 0xffff);
        let before = pow2(16 * init.len());
        let n = groups_number(init);
        assert(16 * init.len() + 16 == 16 * groups.len());
        assert(n * 65536 + 65535 < before * 65536) by (nonlinear_arith)
            requires
                n < before,
        ;
    }
}

proof fn lemma_v6_bound(text: Seq<char>)
    ensures
        v6_number(text) matches Some(n) ==> n < pow2(128),
{
    match double_colon_from(text, 0) {
        None => lemma_groups_short(text, true),
        Some(i) => {
            lemma_groups_short(text.take(i), false);
            lemma_groups_short(text.skip(i + 2), true);
        },
    }
    if v6_address(text) is Some {
        lemma_groups_bound(v6_address(text)->0);
    }
}

/// A network of prefix 0 holds every address of its family.
pub proof fn whole_family(net: Seq<char>, ip: Seq<char>)
    requires
        (v4_number(net) is Some && v4_number(ip) is Some) || (v6_number(net) is Some && v6_number(
            ip,
        ) is Some),
    ensures
        in_network(net, 0, ip),
{
    lemma_v4_bound(net);
    lemma_v4_bound(ip);
    lemma_v6_bound(net);
    lemma_v6_bound(ip);
    if v4_number(net) is Some && v4_number(ip) is Some {
        vstd::arithmetic::div_mod::lemma_basic_div(v4_number(net)->0 as int, pow2(32) as int);
        vstd::arithmetic::div_mod::lemma_basic_div(v4_number(ip)->0 as int, pow2(32) as int);
    } else {
        vstd::arithmetic::div_mod::lemma_basic_div(v6_number(net)->0 as int, pow2(128) as int);
        vstd::arithmetic::div_mod::lemma_basic_div(v6_number(ip)->0 as int, pow2(128) as int);
    }
}

/// A bare IPv4 address means the network of prefix 32 and a bare IPv6 address that of prefix 128.
pub proof fn bare_address_is_full_prefix(entry: Seq<char>, ip: Seq<char>)
    ensures
        v4_number(entry) is Some && v4_number(ip) is Some ==> (in_network(entry, 32, ip)
            <==> v4_number(entry) == v4_number(ip)),
        v4_number(entry) is None && v6_number(entry) is Some ==> (in_network(entry, 128, ip)
            <==> v6_number(entry) == v6_number(ip)),
{
    lemma2_to64();
    assert(pow2(0) == 1);
    if let (Some(a), Some(b)) = (v4_number(entry), v4_number(ip)) {
        assert(a / 1 == a && b / 1 == b);
    }
    if let (Some(a), Some(b)) = (v6_number(entry), v6_number(ip)) {
        assert(a / 1 == a && b / 1 == b);
    }
}

/// A network holds whatever one of the same address with a longer prefix holds.
pub proof fn shorter_prefix_holds_more(net: Seq<char>, longer: nat, shorter: nat, ip: Seq<char>)
    requires
        shorter <= longer,
        in_network(net, longer, ip),
    ensures
        in_network(net, shorter, ip),
{
    let (a, b, width) = match (v4_number(net), v4_number(ip)) {
        (Some(n), Some(i)) => (n, i, 32nat),
        _ => (v6_number(net)->0, v6_number(ip)->0, 128nat),
    };
    let fine = pow2((width - longer) as nat) as int;
    let step = pow2((longer - shorter) as nat) as int;
    lemma_pow2_pos((width - longer) as nat);
    lemma_pow2_pos((longer - shorter) as nat);
    vstd::arithmetic::power2::lemma_pow2_adds((width - longer) as nat, (longer - shorter) as nat);
    vstd::arithmetic::div_mod::lemma_div_denominator(a as int, fine, step);
    vstd::arithmetic::div_mod::lemma_div_denominator(b as int, fine, step);
    assert((width - longer) as nat + (longer - shorter) as nat == (width - shorter) as nat);
}

/// An empty list covers nothing.
pub proof fn empty_list_covers_nothing(ip: Seq<char>)
    ensures
        !list_covers(Seq::empty(), ip),
{
}

/// One more entry never takes an address off a list.
pub proof fn entries_only_add(entries: Seq<Seq<char>>, entry: Seq<char>, ip: Seq<char>)
    requires
        list_covers(entries, ip),
    ensures
        list_covers(entries.push(entry), ip),
{
    let i = choose|i: int|
        0 <= i < entries.len() && covers(trimmed_text(#[trigger] entries[i]), trimmed_text(ip));
    assert(entries.push(entry)[i] == entries[i]);
}

} // verus!

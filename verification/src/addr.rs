//! Internet addresses and their textual forms.
//!
//! An IPv4 address is written as four decimal octets separated by dots, each
//! without leading zeros. An IPv6 address is written as eight groups of one to
//! four hexadecimal digits separated by colons; one run of zero groups may be
//! abbreviated to `::`, and the last two groups may be written as an IPv4
//! address.

use vstd::prelude::*;
use crate::text::{
    all_digits,
    decimal_text,
    decimal_value,
    is_digit,
    lemma_decimal_text_shape,
    lemma_decimal_text_unique,
    lemma_join_four,
    lemma_join_splits,
    lemma_split_joins,
    parse_decimal,
    pieces_view,
    push_decimal,
    split,
    split_chars,
    string_of,
};

verus! {

/// An IPv4 address, held as its 32-bit value in network order.
#[derive(Clone, Copy, Debug, PartialEq, Eq, Structural)]
pub struct Ipv4Addr {
    pub bits: u32,
}

/// An IPv6 address, held as its 128-bit value in network order.
#[derive(Clone, Copy, Debug, PartialEq, Eq, Structural)]
pub struct Ipv6Addr {
    pub bits: u128,
}

/// An address of either family.
#[derive(Clone, Copy, Debug, PartialEq, Eq, Structural)]
pub enum IpAddr {
    V4(Ipv4Addr),
    V6(Ipv6Addr),
}

/// The octet written by `s`: one to three decimal digits, no leading zero,
/// at most 255.
pub open spec fn octet_of(s: Seq<char>) -> Option<u8> {
    if 1 <= s.len() <= 3 && all_digits(s) && (s.len() == 1 || s[0] != '0') && decimal_value(s)
        <= 255 {
        Some(decimal_value(s) as u8)
    } else {
        None
    }
}

/// The 32-bit value whose octets, most significant first, are `a`, `b`, `c`, `d`.
pub open spec fn ipv4_bits(a: u8, b: u8, c: u8, d: u8) -> u32 {
    (a * 0x100_0000 + b * 0x1_0000 + c * 0x100 + d) as u32
}

/// The IPv4 address written by `s`, if `s` is one.
pub open spec fn ipv4_of(s: Seq<char>) -> Option<Ipv4Addr> {
    let p = split(s, '.');
    if p.len() == 4 && octet_of(p[0]) is Some && octet_of(p[1]) is Some && octet_of(p[2]) is Some
        && octet_of(p[3]) is Some {
        Some(
            Ipv4Addr {
                bits: ipv4_bits(
                    octet_of(p[0])->0,
                    octet_of(p[1])->0,
                    octet_of(p[2])->0,
                    octet_of(p[3])->0,
                ),
            },
        )
    } else {
        None
    }
}

/// The value of a hexadecimal digit of either case.
pub open spec fn hex_digit_of(c: char) -> Option<u16> {
    if '0' <= c && c <= '9' {
        Some((c as u32 - '0' as u32) as u16)
    } else if 'a' <= c && c <= 'f' {
        Some((c as u32 - 'a' as u32 + 10) as u16)
    } else if 'A' <= c && c <= 'F' {
        Some((c as u32 - 'A' as u32 + 10) as u16)
    } else {
        None
    }
}

/// Whether every character of `s` is a hexadecimal digit.
pub open spec fn all_hex(s: Seq<char>) -> bool {
    forall|i: int| 0 <= i < s.len() ==> hex_digit_of(#[trigger] s[i]) is Some
}

/// The number that the hexadecimal digits of `s` write, most significant first.
pub open spec fn hex_value(s: Seq<char>) -> nat
    decreases s.len(),
{
    if s.len() == 0 {
        0
    } else {
        hex_value(s.drop_last()) * 16 + hex_digit_of(s.last())->0 as nat
    }
}

/// The 16-bit group written by `s`: one to four hexadecimal digits.
pub open spec fn group_of(s: Seq<char>) -> Option<u16> {
    if 1 <= s.len() <= 4 && all_hex(s) {
        Some(hex_value(s) as u16)
    } else {
        None
    }
}

/// Whether every piece is a hexadecimal group.
pub open spec fn all_groups(p: Seq<Seq<char>>) -> bool {
    forall|i: int| 0 <= i < p.len() ==> group_of(#[trigger] p[i]) is Some
}

/// The groups written by the pieces, if each of them is a hexadecimal group.
pub open spec fn hex_groups(p: Seq<Seq<char>>) -> Option<Seq<u16>> {
    if all_groups(p) {
        Some(Seq::new(p.len(), |i: int| group_of(p[i])->0))
    } else {
        None
    }
}

/// The two groups that an IPv4 address fills at the end of an IPv6 address.
pub open spec fn v4_groups(a: Ipv4Addr) -> Seq<u16> {
    seq![(a.bits / 0x1_0000) as u16, (a.bits % 0x1_0000) as u16]
}

/// The groups written by a colon-separated run. The empty text writes no
/// group. Where `v4_tail` is set the last piece may be an IPv4 address, which
/// stands for two groups.
pub open spec fn groups_of(s: Seq<char>, v4_tail: bool) -> Option<Seq<u16>> {
    if s.len() == 0 {
        Some(Seq::<u16>::empty())
    } else {
        let p = split(s, ':');
        if v4_tail && ipv4_of(p.last()) is Some {
            match hex_groups(p.drop_last()) {
                Some(g) => Some(g + v4_groups(ipv4_of(p.last())->0)),
                None => None,
            }
        } else {
            hex_groups(p)
        }
    }
}

/// The position of the first `::` at or after `from`.
pub open spec fn first_gap(s: Seq<char>, from: int) -> Option<int>
    decreases s.len() - from,
{
    if from < 0 || from + 1 >= s.len() {
        None
    } else if s[from] == ':' && s[from + 1] == ':' {
        Some(from)
    } else {
        first_gap(s, from + 1)
    }
}

/// `n` zero groups.
pub open spec fn zero_groups(n: int) -> Seq<u16> {
    Seq::new(n as nat, |i: int| 0u16)
}

/// The eight groups of the IPv6 address written by `s`, if `s` is one.
pub open spec fn ipv6_groups_of(s: Seq<char>) -> Option<Seq<u16>> {
    match first_gap(s, 0) {
        None => match groups_of(s, true) {
            Some(g) => if g.len() == 8 {
                Some(g)
            } else {
                None
            },
            None => None,
        },
        Some(k) => match (groups_of(s.take(k), false), groups_of(s.skip(k + 2), true)) {
            (Some(h), Some(t)) => if h.len() + t.len() <= 7 {
                Some(h + zero_groups(8 - h.len() - t.len()) + t)
            } else {
                None
            },
            _ => None,
        },
    }
}

/// The 128-bit value whose groups, most significant first, are `g[0]` to `g[7]`.
pub open spec fn ipv6_bits(g: Seq<u16>) -> u128
    recommends
        g.len() == 8,
{
    (g[0] * 0x1_0000_0000_0000_0000_0000_0000_0000 + g[1] * 0x1_0000_0000_0000_0000_0000_0000
        + g[2] * 0x1_0000_0000_0000_0000_0000 + g[3] * 0x1_0000_0000_0000_0000 + g[4]
        * 0x1_0000_0000_0000 + g[5] * 0x1_0000_0000 + g[6] * 0x1_0000 + g[7]) as u128
}

/// The IPv6 address written by `s`, if `s` is one.
pub open spec fn ipv6_of(s: Seq<char>) -> Option<Ipv6Addr> {
    match ipv6_groups_of(s) {
        Some(g) => Some(Ipv6Addr { bits: ipv6_bits(g) }),
        None => None,
    }
}

/// The address written by `s`: an IPv4 address if `s` is one, else an IPv6
/// address if `s` is one.
pub open spec fn ip_of(s: Seq<char>) -> Option<IpAddr> {
    match ipv4_of(s) {
        Some(a) => Some(IpAddr::V4(a)),
        None => match ipv6_of(s) {
            Some(a) => Some(IpAddr::V6(a)),
            None => None,
        },
    }
}

fn parse_octet(s: &Vec<char>) -> (r: Option<u8>)
    ensures
        r == octet_of(s@),
{
    if s.len() < 1 || s.len() > 3 {
        return None;
    }
    if s.len() > 1 && s[0] == '0' {
        return None;
    }
    match parse_decimal(s, 255) {
        Some(v) => Some(v as u8),
        None => None,
    }
}

/// Reads `s` as an IPv4 address.
pub fn parse_ipv4(s: &Vec<char>) -> (r: Option<Ipv4Addr>)
    ensures
        r == ipv4_of(s@),
{
    let p = split_chars(s, '.');
    assert(p@.len() == split(s@, '.').len());
    if p.len() != 4 {
        return None;
    }
    assert(forall|i: int| 0 <= i < 4 ==> p@[i]@ == #[trigger] split(s@, '.')[i]);
    let a = parse_octet(&p[0]);
    let b = parse_octet(&p[1]);
    let c = parse_octet(&p[2]);
    let d = parse_octet(&p[3]);
    match (a, b, c, d) {
        (Some(a), Some(b), Some(c), Some(d)) => {
            let bits: u32 = (a as u32) * 0x100_0000 + (b as u32) * 0x1_0000 + (c as u32) * 0x100
                + (d as u32);
            Some(Ipv4Addr { bits })
        },
        _ => None,
    }
}

fn hex_digit(c: char) -> (r: Option<u16>)
    ensures
        r == hex_digit_of(c),
{
    if c >= '0' && c <= '9' {
        Some((c as u32 - '0' as u32) as u16)
    } else if c >= 'a' && c <= 'f' {
        Some((c as u32 - 'a' as u32 + 10) as u16)
    } else if c >= 'A' && c <= 'F' {
        Some((c as u32 - 'A' as u32 + 10) as u16)
    } else {
        None
    }
}

fn parse_group(s: &Vec<char>) -> (r: Option<u16>)
    ensures
        r == group_of(s@),
{
    if s.len() < 1 || s.len() > 4 {
        return None;
    }
    let mut acc: u32 = 0;
    let mut i: usize = 0;
    while i < s.len()
        invariant
            i <= s.len() <= 4,
            all_hex(s@.take(i as int)),
            acc == hex_value(s@.take(i as int)),
            i == 0 ==> acc == 0,
            i <= 1 ==> acc < 0x10,
            i <= 2 ==> acc < 0x100,
            i <= 3 ==> acc < 0x1000,
            acc < 0x1_0000,
        decreases s.len() - i,
    {
        let c = s[i];
        proof {
            assert(s@.take(i + 1).drop_last() =~= s@.take(i as int));
            assert(s@.take(i + 1).last() == c);
        }
        match hex_digit(c) {
            None => {
                assert(!all_hex(s@)) by {
                    assert(hex_digit_of(s@[i as int]) is None);
                }
                return None;
            },
            Some(d) => {
                acc = acc * 16 + d as u32;
                assert(all_hex(s@.take(i + 1))) by {
                    assert forall|j: int| 0 <= j < i + 1 implies hex_digit_of(
                        #[trigger] s@.take(i + 1)[j],
                    ) is Some by {
                        if j < i {
                            assert(s@.take(i + 1)[j] == s@.take(i as int)[j]);
                        }
                    }
                }
            },
        }
        i = i + 1;
    }
    assert(s@.take(i as int) =~= s@);
    Some(acc as u16)
}

/// Reads the first `n` pieces as hexadecimal groups.
fn parse_hex_groups(p: &Vec<Vec<char>>, n: usize) -> (r: Option<Vec<u16>>)
    requires
        n <= p.len(),
    ensures
        r matches Some(g) ==> hex_groups(pieces_view(p@).take(n as int)) == Some(g@),
        r is None ==> hex_groups(pieces_view(p@).take(n as int)) is None,
{
    let ghost pieces = pieces_view(p@).take(n as int);
    let mut out: Vec<u16> = Vec::new();
    let mut i: usize = 0;
    while i < n
        invariant
            i <= n <= p.len(),
            pieces == pieces_view(p@).take(n as int),
            out.len() == i,
            forall|j: int| 0 <= j < i ==> group_of(#[trigger] pieces[j]) == Some(out@[j]),
        decreases n - i,
    {
        match parse_group(&p[i]) {
            None => {
                assert(group_of(pieces[i as int]) is None);
                return None;
            },
            Some(g) => {
                out.push(g);
            },
        }
        i = i + 1;
    }
    assert(all_groups(pieces));
    assert(out@ =~= hex_groups(pieces)->0);
    Some(out)
}

/// The characters of `s` from position `from` up to, but without, `to`.
fn sub_chars(s: &Vec<char>, from: usize, to: usize) -> (out: Vec<char>)
    requires
        from <= to <= s.len(),
    ensures
        out@ == s@.subrange(from as int, to as int),
{
    let mut out: Vec<char> = Vec::new();
    let mut i: usize = from;
    while i < to
        invariant
            from <= i <= to <= s.len(),
            out@ == s@.subrange(from as int, i as int),
        decreases to - i,
    {
        out.push(s[i]);
        assert(s@.subrange(from as int, i + 1) =~= s@.subrange(from as int, i as int).push(
            s@[i as int],
        ));
        i = i + 1;
    }
    out
}

fn parse_groups(s: &Vec<char>, v4_tail: bool) -> (r: Option<Vec<u16>>)
    ensures
        r matches Some(g) ==> groups_of(s@, v4_tail) == Some(g@),
        r is None ==> groups_of(s@, v4_tail) is None,
{
    if s.len() == 0 {
        return Some(Vec::new());
    }
    let p = split_chars(s, ':');
    proof {
        lemma_split_joins(s@, ':');
    }
    let n = p.len();
    let ghost pieces = pieces_view(p@);
    assert(pieces.take(n as int) =~= pieces);
    assert(pieces.take(n - 1) =~= pieces.drop_last());
    assert(pieces.last() == p@[n - 1]@);
    if v4_tail {
        match parse_ipv4(&p[n - 1]) {
            Some(a) => {
                match parse_hex_groups(&p, n - 1) {
                    Some(mut g) => {
                        let ghost head = g@;
                        g.push((a.bits / 0x1_0000) as u16);
                        g.push((a.bits % 0x1_0000) as u16);
                        assert(g@ =~= head + v4_groups(a));
                        return Some(g);
                    },
                    None => {
                        return None;
                    },
                }
            },
            None => {},
        }
    }
    parse_hex_groups(&p, n)
}

fn find_gap(s: &Vec<char>) -> (r: Option<usize>)
    ensures
        r matches Some(k) ==> first_gap(s@, 0) == Some(k as int) && k + 2 <= s.len(),
        r is None ==> first_gap(s@, 0) is None,
{
    if s.len() < 2 {
        return None;
    }
    let last: usize = s.len() - 1;
    let mut i: usize = 0;
    while i < last
        invariant
            i <= last,
            last + 1 == s.len(),
            first_gap(s@, 0) == first_gap(s@, i as int),
        decreases last - i,
    {
        if s[i] == ':' && s[i + 1] == ':' {
            return Some(i);
        }
        i = i + 1;
    }
    None
}

fn pack_groups(g: &Vec<u16>) -> (bits: u128)
    requires
        g.len() == 8,
    ensures
        bits == ipv6_bits(g@),
{
    (g[0] as u128) * 0x1_0000_0000_0000_0000_0000_0000_0000 + (g[1] as u128)
        * 0x1_0000_0000_0000_0000_0000_0000 + (g[2] as u128) * 0x1_0000_0000_0000_0000_0000 + (
    g[3] as u128) * 0x1_0000_0000_0000_0000 + (g[4] as u128) * 0x1_0000_0000_0000 + (g[5] as u128)
        * 0x1_0000_0000 + (g[6] as u128) * 0x1_0000 + (g[7] as u128)
}

/// Reads `s` as an IPv6 address.
pub fn parse_ipv6(s: &Vec<char>) -> (r: Option<Ipv6Addr>)
    ensures
        r == ipv6_of(s@),
{
    match find_gap(s) {
        None => {
            match parse_groups(s, true) {
                Some(g) => {
                    if g.len() == 8 {
                        Some(Ipv6Addr { bits: pack_groups(&g) })
                    } else {
                        None
                    }
                },
                None => None,
            }
        },
        Some(k) => {
            let head_text = sub_chars(s, 0, k);
            let tail_text = sub_chars(s, k + 2, s.len());
            assert(head_text@ =~= s@.take(k as int));
            assert(tail_text@ =~= s@.skip(k + 2));
            let head = parse_groups(&head_text, false);
            let tail = parse_groups(&tail_text, true);
            match (head, tail) {
                (Some(mut h), Some(t)) => {
                    if h.len() > 7 || t.len() > 7 - h.len() {
                        return None;
                    }
                    let ghost h0 = h@;
                    let fill: usize = 8 - h.len() - t.len();
                    let mut i: usize = 0;
                    while i < fill
                        invariant
                            i <= fill,
                            h@ == h0 + zero_groups(i as int),
                        decreases fill - i,
                    {
                        h.push(0u16);
                        assert(h@ =~= h0 + zero_groups(i + 1));
                        i = i + 1;
                    }
                    let mut j: usize = 0;
                    while j < t.len()
                        invariant
                            j <= t.len(),
                            h@ == h0 + zero_groups(fill as int) + t@.take(j as int),
                        decreases t.len() - j,
                    {
                        h.push(t[j]);
                        assert(t@.take(j + 1) =~= t@.take(j as int).push(t@[j as int]));
                        assert(h@ =~= h0 + zero_groups(fill as int) + t@.take(j + 1));
                        j = j + 1;
                    }
                    assert(t@.take(j as int) =~= t@);
                    Some(Ipv6Addr { bits: pack_groups(&h) })
                },
                _ => None,
            }
        },
    }
}

/// Reads `s` as an address of either family.
pub fn parse_ip(s: &Vec<char>) -> (r: Option<IpAddr>)
    ensures
        r == ip_of(s@),
{
    match parse_ipv4(s) {
        Some(a) => Some(IpAddr::V4(a)),
        None => match parse_ipv6(s) {
            Some(a) => Some(IpAddr::V6(a)),
            None => None,
        },
    }
}

/// The four octets of a 32-bit address value, most significant first.
pub open spec fn octets_of(bits: u32) -> Seq<u8> {
    seq![
        (bits / 0x100_0000) as u8,
        ((bits / 0x1_0000) % 0x100) as u8,
        ((bits / 0x100) % 0x100) as u8,
        (bits % 0x100) as u8,
    ]
}

/// The octets of the value that four octets make are those octets, and the
/// octets of a value make that value.
pub proof fn lemma_octets(a: u8, b: u8, c: u8, d: u8, bits: u32)
    ensures
        octets_of(ipv4_bits(a, b, c, d)) == seq![a, b, c, d],
        ipv4_bits(octets_of(bits)[0], octets_of(bits)[1], octets_of(bits)[2], octets_of(bits)[3])
            == bits,
{
    let v = ipv4_bits(a, b, c, d);
    assert(((a * 0x100_0000 + b * 0x1_0000 + c * 0x100 + d) as u32) / 0x100_0000 == a)
        by (bit_vector);
    assert((((a * 0x100_0000 + b * 0x1_0000 + c * 0x100 + d) as u32) / 0x1_0000) % 0x100 == b)
        by (bit_vector);
    assert((((a * 0x100_0000 + b * 0x1_0000 + c * 0x100 + d) as u32) / 0x100) % 0x100 == c)
        by (bit_vector);
    assert(((a * 0x100_0000 + b * 0x1_0000 + c * 0x100 + d) as u32) % 0x100 == d)
        by (bit_vector);
    assert(octets_of(v) =~= seq![a, b, c, d]);
    assert(bits == (bits / 0x100_0000) * 0x100_0000 + ((bits / 0x1_0000) % 0x100) * 0x1_0000 + ((
    bits / 0x100) % 0x100) * 0x100 + (bits % 0x100)) by (bit_vector);
    assert(bits / 0x100_0000 < 0x100) by (bit_vector);
}

impl Ipv4Addr {
    /// The address with the octets `a`, `b`, `c`, `d`, most significant
    /// first.
    pub fn new(a: u8, b: u8, c: u8, d: u8) -> (r: Ipv4Addr)
        ensures
            r.bits == ipv4_bits(a, b, c, d),
    {
        Ipv4Addr {
            bits: (a as u32) * 0x100_0000 + (b as u32) * 0x1_0000 + (c as u32) * 0x100 + (d as u32),
        }
    }

    /// The four octets of the address, most significant first.
    pub fn octets(&self) -> (o: [u8; 4])
        ensures
            o@ == octets_of(self.bits),
    {
        let bits = self.bits;
        let o: [u8; 4] = [
            (bits / 0x100_0000) as u8,
            ((bits / 0x1_0000) % 0x100) as u8,
            ((bits / 0x100) % 0x100) as u8,
            (bits % 0x100) as u8,
        ];
        assert(o@ =~= octets_of(self.bits));
        o
    }
}

impl Ipv6Addr {
    /// The address with the given eight groups, most significant first.
    pub fn new(segments: [u16; 8]) -> (r: Ipv6Addr)
        ensures
            r.bits == ipv6_bits(segments@),
    {
        Ipv6Addr {
            bits: (segments[0] as u128) * 0x1_0000_0000_0000_0000_0000_0000_0000 + (
            segments[1] as u128) * 0x1_0000_0000_0000_0000_0000_0000 + (segments[2] as u128)
                * 0x1_0000_0000_0000_0000_0000 + (segments[3] as u128) * 0x1_0000_0000_0000_0000
                + (segments[4] as u128) * 0x1_0000_0000_0000 + (segments[5] as u128)
                * 0x1_0000_0000 + (segments[6] as u128) * 0x1_0000 + (segments[7] as u128),
        }
    }
}

impl IpAddr {
    /// Reads an address of either family.
    pub fn parse(text: &str) -> (r: Option<IpAddr>)
        ensures
            r == ip_of(text@),
    {
        let chars = crate::text::chars_of(text);
        parse_ip(&chars)
    }
}

/// The usual text of an IPv4 address: its four octets in decimal, separated
/// by dots.
pub open spec fn ipv4_text(a: Ipv4Addr) -> Seq<char> {
    let o = octets_of(a.bits);
    decimal_text(o[0] as nat) + seq!['.'] + decimal_text(o[1] as nat) + seq!['.'] + decimal_text(
        o[2] as nat,
    ) + seq!['.'] + decimal_text(o[3] as nat)
}

impl Ipv4Addr {
    /// Writes the address in its usual text.
    pub fn to_text(&self) -> (s: String)
        ensures
            s@ == ipv4_text(*self),
    {
        let o = self.octets();
        let mut out: Vec<char> = Vec::new();
        push_decimal(&mut out, o[0] as u32);
        out.push('.');
        push_decimal(&mut out, o[1] as u32);
        out.push('.');
        push_decimal(&mut out, o[2] as u32);
        out.push('.');
        push_decimal(&mut out, o[3] as u32);
        assert(out@ =~= ipv4_text(*self));
        string_of(&out)
    }
}

/// The decimal digits of an octet read back as the octet, and hold no
/// character that is not a digit.
pub proof fn lemma_octet_text(o: u8)
    ensures
        octet_of(decimal_text(o as nat)) == Some(o),
        forall|c: char| !is_digit(c) ==> !(#[trigger] decimal_text(o as nat).contains(c)),
{
    let t = decimal_text(o as nat);
    lemma_decimal_text_shape(o as nat);
    assert forall|c: char| !is_digit(c) implies !(#[trigger] t.contains(c)) by {
        if t.contains(c) {
            let k = choose|k: int| 0 <= k < t.len() && t[k] == c;
            assert(is_digit(t[k]));
        }
    }
}

/// The usual text of an IPv4 address reads back as that address.
pub proof fn lemma_ipv4_round_trip(a: Ipv4Addr)
    ensures
        ipv4_of(ipv4_text(a)) == Some(a),
        ip_of(ipv4_text(a)) == Some(IpAddr::V4(a)),
{
    let o = octets_of(a.bits);
    let p = seq![
        decimal_text(o[0] as nat),
        decimal_text(o[1] as nat),
        decimal_text(o[2] as nat),
        decimal_text(o[3] as nat),
    ];
    assert(crate::text::free_of(p, '.')) by {
        lemma_octet_text(o[0]);
        lemma_octet_text(o[1]);
        lemma_octet_text(o[2]);
        lemma_octet_text(o[3]);
    }
    assert(split(ipv4_text(a), '.') == p) by {
        lemma_join_four(p[0], p[1], p[2], p[3], '.');
        lemma_join_splits(p, '.');
    }
    assert(octet_of(p[0]) == Some(o[0])) by {
        lemma_octet_text(o[0]);
    }
    assert(octet_of(p[1]) == Some(o[1])) by {
        lemma_octet_text(o[1]);
    }
    assert(octet_of(p[2]) == Some(o[2])) by {
        lemma_octet_text(o[2]);
    }
    assert(octet_of(p[3]) == Some(o[3])) by {
        lemma_octet_text(o[3]);
    }
    assert(ipv4_bits(o[0], o[1], o[2], o[3]) == a.bits) by {
        lemma_octets(0, 0, 0, 0, a.bits);
    }
}

/// An IPv4 address is written in one way only: a text that reads as an
/// address is the usual text of that address.
pub proof fn lemma_ipv4_text_unique(s: Seq<char>)
    requires
        ipv4_of(s) is Some,
    ensures
        s == ipv4_text(ipv4_of(s)->0),
{
    let p = split(s, '.');
    let a = ipv4_of(s)->0;
    let o = octets_of(a.bits);
    assert(s == p[0] + seq!['.'] + p[1] + seq!['.'] + p[2] + seq!['.'] + p[3]) by {
        lemma_split_joins(s, '.');
        assert(p =~= seq![p[0], p[1], p[2], p[3]]);
        lemma_join_four(p[0], p[1], p[2], p[3], '.');
    }
    let v0 = octet_of(p[0])->0;
    let v1 = octet_of(p[1])->0;
    let v2 = octet_of(p[2])->0;
    let v3 = octet_of(p[3])->0;
    assert(a.bits == ipv4_bits(v0, v1, v2, v3));
    assert(o[0] == v0 && o[1] == v1 && o[2] == v2 && o[3] == v3) by {
        lemma_octets(v0, v1, v2, v3, 0);
    }
    assert(decimal_text(o[0] as nat) == p[0]) by {
        lemma_decimal_text_unique(p[0]);
    }
    assert(decimal_text(o[1] as nat) == p[1]) by {
        lemma_decimal_text_unique(p[1]);
    }
    assert(decimal_text(o[2] as nat) == p[2]) by {
        lemma_decimal_text_unique(p[2]);
    }
    assert(decimal_text(o[3] as nat) == p[3]) by {
        lemma_decimal_text_unique(p[3]);
    }
}

} // verus!

//! Address ranges in CIDR notation.

use vstd::prelude::*;
use crate::addr::{
    ip_of,
    ipv4_text,
    lemma_ipv4_round_trip,
    lemma_octet_text,
    octets_of,
    parse_ip,
    IpAddr,
    Ipv4Addr,
};
use crate::text::{
    chars_of,
    decimal_text,
    free_of,
    is_digit,
    join,
    lemma_decimal_text_shape,
    lemma_join_splits,
    number_of,
    parse_unsigned,
    split,
    split_chars,
    unsigned_of,
};

verus! {

/// Why a text is not a CIDR range.
#[derive(Clone, Copy, Debug, PartialEq, Eq, Structural)]
pub enum CidrError {
    /// The text does not consist of exactly two parts separated by `/`.
    MalformedCidr,
    /// The part before the `/` is not an address.
    InvalidAddress,
    /// The part after the `/` is not a number, or exceeds the width of the
    /// address family.
    InvalidPrefixLength,
}

/// A network: an address and the number of leading bits that all its members
/// share. For IPv4 the address is the network address, with the host bits
/// cleared; an IPv6 address is kept as it was written.
#[derive(Clone, Copy, Debug, PartialEq, Eq, Structural)]
pub struct IpNetwork {
    pub ip: IpAddr,
    pub prefix_len: u8,
}

/// The mask that keeps the first `prefix_len` bits of a 32-bit address.
pub open spec fn prefix_mask(prefix_len: u8) -> u32 {
    if prefix_len == 0 {
        0u32
    } else if prefix_len >= 32 {
        0xFFFF_FFFFu32
    } else {
        !(((1u32 << ((32 - prefix_len) as u32)) - 1) as u32)
    }
}

/// The network address of `bits` under a prefix of `prefix_len` bits.
pub open spec fn network_bits(bits: u32, prefix_len: u8) -> u32 {
    bits & prefix_mask(prefix_len)
}

/// The highest address of the network of `bits` under a prefix of
/// `prefix_len` bits.
pub open spec fn broadcast_bits(bits: u32, prefix_len: u8) -> u32 {
    network_bits(bits, prefix_len) | !prefix_mask(prefix_len)
}

/// The number of bits in an address of the family of `ip`.
pub open spec fn max_prefix(ip: IpAddr) -> u8 {
    match ip {
        IpAddr::V4(_) => 32u8,
        IpAddr::V6(_) => 128u8,
    }
}

/// The address that a network keeps for `ip`.
pub open spec fn network_address(ip: IpAddr, prefix_len: u8) -> IpAddr {
    match ip {
        IpAddr::V4(a) => IpAddr::V4(Ipv4Addr { bits: network_bits(a.bits, prefix_len) }),
        IpAddr::V6(a) => IpAddr::V6(a),
    }
}

/// The prefix length written by `s`: decimal digits, with an optional `+`
/// before them, that write a number up to 255.
pub open spec fn prefix_of(s: Seq<char>) -> Option<u8> {
    match unsigned_of(s, 255) {
        Some(n) => Some(n as u8),
        None => None,
    }
}

/// The network written by `s` in CIDR notation, or the reason why `s` is none.
pub open spec fn cidr_of(s: Seq<char>) -> Result<IpNetwork, CidrError> {
    let p = split(s, '/');
    if p.len() != 2 {
        Err(CidrError::MalformedCidr)
    } else {
        match ip_of(p[0]) {
            None => Err(CidrError::InvalidAddress),
            Some(ip) => match prefix_of(p[1]) {
                None => Err(CidrError::InvalidPrefixLength),
                Some(n) => if n > max_prefix(ip) {
                    Err(CidrError::InvalidPrefixLength)
                } else {
                    Ok(IpNetwork { ip: network_address(ip, n), prefix_len: n })
                },
            },
        }
    }
}

/// Computes the mask that keeps the first `prefix_len` bits.
pub fn mask_for(prefix_len: u8) -> (mask: u32)
    ensures
        mask == prefix_mask(prefix_len),
{
    if prefix_len == 0 {
        0u32
    } else if prefix_len >= 32 {
        u32::MAX
    } else {
        let shift: u32 = (32 - prefix_len) as u32;
        assert((1u32 << shift) >= 1) by (bit_vector)
            requires
                shift < 32,
        ;
        !((1u32 << shift) - 1)
    }
}

fn parse_prefix(s: &Vec<char>) -> (r: Option<u8>)
    ensures
        r == prefix_of(s@),
{
    match parse_unsigned(s, 255) {
        Some(v) => Some(v as u8),
        None => None,
    }
}

impl IpNetwork {
    /// Whether the prefix fits the address family and, for IPv4, the host
    /// bits of the address are cleared.
    pub open spec fn wf(&self) -> bool {
        &&& self.prefix_len <= max_prefix(self.ip)
        &&& self.ip == network_address(self.ip, self.prefix_len)
    }

    /// Reads a network in CIDR notation, `<address>/<prefix-length>`.
    pub fn from_cidr(cidr: &str) -> (r: Result<IpNetwork, CidrError>)
        ensures
            r == cidr_of(cidr@),
            r matches Ok(net) ==> net.wf(),
    {
        let chars = chars_of(cidr);
        let parts = split_chars(&chars, '/');
        assert(parts@.len() == split(cidr@, '/').len());
        if parts.len() != 2 {
            return Err(CidrError::MalformedCidr);
        }
        assert(forall|i: int| 0 <= i < 2 ==> parts@[i]@ == #[trigger] split(cidr@, '/')[i]);
        let ip = match parse_ip(&parts[0]) {
            Some(ip) => ip,
            None => {
                return Err(CidrError::InvalidAddress);
            },
        };
        let prefix_len = match parse_prefix(&parts[1]) {
            Some(n) => n,
            None => {
                return Err(CidrError::InvalidPrefixLength);
            },
        };
        match ip {
            IpAddr::V4(a) => {
                if prefix_len > 32 {
                    return Err(CidrError::InvalidPrefixLength);
                }
                let mask = mask_for(prefix_len);
                let bits = a.bits & mask;
                proof {
                    lemma_network_idempotent(a.bits, prefix_len);
                }
                Ok(IpNetwork { ip: IpAddr::V4(Ipv4Addr { bits }), prefix_len })
            },
            IpAddr::V6(a) => {
                if prefix_len > 128 {
                    return Err(CidrError::InvalidPrefixLength);
                }
                Ok(IpNetwork { ip: IpAddr::V6(a), prefix_len })
            },
        }
    }

    /// The lowest and the highest address of an IPv4 network. Ranges over
    /// IPv6 are not supported.
    pub fn range(&self) -> (r: Option<(u32, u32)>)
        ensures
            r == match self.ip {
                IpAddr::V4(a) => Some(
                    (network_bits(a.bits, self.prefix_len), broadcast_bits(a.bits, self.prefix_len)),
                ),
                IpAddr::V6(_) => None,
            },
    {
        match self.ip {
            IpAddr::V4(a) => {
                let mask = mask_for(self.prefix_len);
                let low = a.bits & mask;
                Some((low, low | !mask))
            },
            IpAddr::V6(_) => None,
        }
    }

    /// Whether `addr` is an IPv4 address inside this IPv4 network. An IPv6
    /// network matches no address.
    pub fn matches_single(&self, addr: IpAddr) -> (r: bool)
        ensures
            r == match (self.ip, addr) {
                (IpAddr::V4(n), IpAddr::V4(a)) => network_bits(n.bits, self.prefix_len) <= a.bits
                    <= broadcast_bits(n.bits, self.prefix_len),
                _ => false,
            },
    {
        match (self.range(), addr) {
            (Some((low, high)), IpAddr::V4(a)) => low <= a.bits && a.bits <= high,
            _ => false,
        }
    }
}

/// Clearing the host bits twice is the same as clearing them once.
pub proof fn lemma_network_idempotent(bits: u32, prefix_len: u8)
    ensures
        network_bits(network_bits(bits, prefix_len), prefix_len) == network_bits(bits, prefix_len),
{
    let m = prefix_mask(prefix_len);
    assert((bits & m) & m == bits & m) by (bit_vector);
}

/// A prefix of no bits keeps nothing of the address, and a prefix of all 32
/// bits keeps all of it.
pub proof fn lemma_network_extremes(bits: u32)
    ensures
        network_bits(bits, 0) == 0,
        network_bits(bits, 32) == bits,
{
    assert(bits & 0u32 == 0) by (bit_vector);
    assert(bits & 0xFFFF_FFFFu32 == bits) by (bit_vector);
}

/// Every address lies between the lowest and the highest address of its own
/// network, and an address is in a network exactly if the two have the same
/// network address.
pub proof fn lemma_network_range(bits: u32, other: u32, prefix_len: u8)
    ensures
        network_bits(bits, prefix_len) <= bits <= broadcast_bits(bits, prefix_len),
        (network_bits(bits, prefix_len) <= other <= broadcast_bits(bits, prefix_len)) <==> (
        network_bits(other, prefix_len) == network_bits(bits, prefix_len)),
{
    let m = prefix_mask(prefix_len);
    if prefix_len == 0 {
        assert(bits & 0u32 == 0) by (bit_vector);
        assert(other & 0u32 == 0) by (bit_vector);
        assert(0u32 | !0u32 == 0xFFFF_FFFFu32) by (bit_vector);
    } else if prefix_len >= 32 {
        assert(bits & 0xFFFF_FFFFu32 == bits) by (bit_vector);
        assert(other & 0xFFFF_FFFFu32 == other) by (bit_vector);
        assert(bits | !0xFFFF_FFFFu32 == bits) by (bit_vector);
    } else {
        let k: u32 = (32 - prefix_len) as u32;
        assert(m == !(((1u32 << k) - 1) as u32));
        assert({
            let m = !(((1u32 << k) - 1) as u32);
            &&& bits & m <= bits
            &&& bits <= (bits & m) | !m
            &&& ((bits & m) <= other && other <= ((bits & m) | !m)) <==> (other & m == bits & m)
        }) by (bit_vector)
            requires
                0 < k < 32,
        ;
    }
}

/// The CIDR text of an IPv4 address and a prefix length.
pub open spec fn ipv4_cidr_text(a: Ipv4Addr, prefix_len: u8) -> Seq<char> {
    ipv4_text(a) + seq!['/'] + decimal_text(prefix_len as nat)
}

/// Reading the CIDR text of an IPv4 address gives the network address of
/// that address with the same prefix length, if the prefix length is at
/// most 32, and is refused for its prefix length if not.
pub proof fn lemma_cidr_of_ipv4_text(a: Ipv4Addr, prefix_len: u8)
    ensures
        prefix_len <= 32 ==> cidr_of(ipv4_cidr_text(a, prefix_len)) == Ok::<IpNetwork, CidrError>(
            IpNetwork {
                ip: IpAddr::V4(Ipv4Addr { bits: network_bits(a.bits, prefix_len) }),
                prefix_len,
            },
        ),
        prefix_len > 32 ==> cidr_of(ipv4_cidr_text(a, prefix_len)) == Err::<IpNetwork, CidrError>(
            CidrError::InvalidPrefixLength,
        ),
{
    let o = octets_of(a.bits);
    let head = ipv4_text(a);
    let tail = decimal_text(prefix_len as nat);
    let p = seq![head, tail];
    assert(!tail.contains('/') && tail.len() >= 1 && tail[0] != '+' && number_of(tail) == Some(
        prefix_len as nat,
    )) by {
        lemma_octet_text(prefix_len);
        lemma_decimal_text_shape(prefix_len as nat);
        assert(is_digit(tail[0]));
    }
    assert(!head.contains('/')) by {
        lemma_octet_text(o[0]);
        lemma_octet_text(o[1]);
        lemma_octet_text(o[2]);
        lemma_octet_text(o[3]);
        if head.contains('/') {
            let k = choose|k: int| 0 <= k < head.len() && head[k] == '/';
            let d0 = decimal_text(o[0] as nat);
            let d1 = decimal_text(o[1] as nat);
            let d2 = decimal_text(o[2] as nat);
            let d3 = decimal_text(o[3] as nat);
            let n0 = d0.len() as int;
            let n1 = n0 + 1 + d1.len();
            let n2 = n1 + 1 + d2.len();
            if k < n0 {
                assert(d0[k] == '/');
                assert(d0.contains('/'));
            } else if k == n0 {
            } else if k < n1 {
                assert(d1[k - n0 - 1] == '/');
                assert(d1.contains('/'));
            } else if k == n1 {
            } else if k < n2 {
                assert(d2[k - n1 - 1] == '/');
                assert(d2.contains('/'));
            } else if k == n2 {
            } else {
                assert(d3[k - n2 - 1] == '/');
                assert(d3.contains('/'));
            }
        }
    }
    assert(split(ipv4_cidr_text(a, prefix_len), '/') == p) by {
        assert(free_of(p, '/'));
        assert(p.drop_last() =~= seq![head]);
        assert(join(p, '/') == join(p.drop_last(), '/') + seq!['/'] + p.last());
        assert(join(seq![head], '/') == head);
        lemma_join_splits(p, '/');
    }
    lemma_ipv4_round_trip(a);
    assert(prefix_of(tail) == Some(prefix_len));
}

} // verus!

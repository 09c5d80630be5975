//! IPv4 networks in CIDR notation, on top of the `ipnet` crate, and the text
//! forms of addresses and networks.

use vstd::arithmetic::power2::pow2;
use vstd::prelude::*;
use vstd::string::*;

use crate::net::addr::{ip_bytes, Ipv4Addr};
use crate::text::{
    chars_of, char_lists, decimal, decimal_string, numeral, parse_numeral, pieces, push_char,
    split_at_char,
};

verus! {

/// An IPv4 network: an address and the length of its network prefix.
#[derive(Clone, Copy, Debug, PartialEq, Eq, Structural)]
pub struct Ipv4Net {
    addr: Ipv4Addr,
    prefix_len: u8,
}

/// How many addresses share a prefix of `prefix_len` bits.
pub open spec fn block_size(prefix_len: u8) -> int {
    pow2((32 - prefix_len) as nat) as int
}

/// The first address of the block around `addr`.
pub open spec fn block_start(addr: u32, prefix_len: u8) -> int {
    addr - addr as int % block_size(prefix_len)
}

/// `ipnet::Ipv4Net::network`: the address with its host bits cleared.
#[verifier::external_body]
fn ipnet_network(addr: u32, prefix_len: u8) -> (r: u32)
    requires
        prefix_len <= 32,
    ensures
        r == block_start(addr, prefix_len),
{
    u32::from(ipnet::Ipv4Net::new_assert(addr.into(), prefix_len).network())
}

/// `ipnet::Ipv4Net::broadcast`: the address with its host bits set.
#[verifier::external_body]
fn ipnet_broadcast(addr: u32, prefix_len: u8) -> (r: u32)
    requires
        prefix_len <= 32,
    ensures
        r == block_start(addr, prefix_len) + block_size(prefix_len) - 1,
{
    u32::from(ipnet::Ipv4Net::new_assert(addr.into(), prefix_len).broadcast())
}

/// `ipnet::Ipv4Net::netmask`: `prefix_len` ones followed by zeros.
#[verifier::external_body]
fn ipnet_netmask(addr: u32, prefix_len: u8) -> (r: u32)
    requires
        prefix_len <= 32,
    ensures
        r == 0x1_0000_0000 - block_size(prefix_len),
{
    u32::from(ipnet::Ipv4Net::new_assert(addr.into(), prefix_len).netmask())
}

/// `ipnet::Ipv4Net::contains` of an address: whether it lies between the
/// first and the last address of the network.
#[verifier::external_body]
fn ipnet_contains(addr: u32, prefix_len: u8, ip: u32) -> (r: bool)
    requires
        prefix_len <= 32,
    ensures
        r == (block_start(addr, prefix_len) <= ip < block_start(addr, prefix_len) + block_size(
            prefix_len,
        )),
{
    let host = ipnet::Ipv4Net::new_assert(ip.into(), 32).addr();
    ipnet::Ipv4Net::new_assert(addr.into(), prefix_len).contains(&host)
}

/// `ipnet::Ipv4Net::subnets`: the blocks of `new_len` bits in the block around
/// an address, in order. There are no more of them than memory can hold.
#[verifier::external_body]
fn ipnet_subnets(addr: u32, prefix_len: u8, new_len: u8) -> (r: Vec<u32>)
    requires
        0 < prefix_len <= new_len <= 32,
        4 * pow2((new_len - prefix_len) as nat) <= isize::MAX,
    ensures
        r@.len() == pow2((new_len - prefix_len) as nat),
        forall|k: int|
            0 <= k < r@.len() ==> #[trigger] r@[k] == block_start(addr, prefix_len) + k
                * block_size(new_len),
{
    let block = ipnet::Ipv4Net::new_assert(addr.into(), prefix_len);
    let subnets = block.subnets(new_len).expect("a longer prefix");
    subnets.map(|n| u32::from(n.network())).collect()
}

/// The /24 blocks of a 16-bit block, in order.
pub fn subnets24(base: u32) -> (r: Vec<Ipv4Net>)
    requires
        base as int % 0x1_0000 == 0,
    ensures
        r@.len() == 256,
        forall|k: int| 0 <= k < 256 ==> #[trigger] r@[k] == net_at((base + 256 * k) as u32, 24),
{
    proof {
        vstd::arithmetic::power2::lemma2_to64();
    }
    let bases = ipnet_subnets(base, 16, 24);
    assert(block_size(16) == 0x1_0000 && block_size(24) == 256);
    assert forall|k: int| 0 <= k < 256 implies #[trigger] bases@[k] == base + 256 * k by {
        let size = block_size(24);
        assert(bases@[k] == base + k * size);
        assert(k * size == 256 * k) by (nonlinear_arith)
            requires
                size == 256,
        ;
    }
    let mut out: Vec<Ipv4Net> = Vec::new();
    let mut i: usize = 0;
    while i < 256
        invariant
            i <= 256,
            bases@.len() == 256,
            forall|k: int| 0 <= k < 256 ==> #[trigger] bases@[k] == base + 256 * k,
            out@.len() == i,
            forall|k: int|
                0 <= k < i ==> #[trigger] out@[k] == net_at((base + 256 * k) as u32, 24),
        decreases 256 - i,
    {
        assert(bases@[i as int] == base + 256 * i);
        out.push(Ipv4Net::of(Ipv4Addr { bits: bases[i] }, 24));
        i = i + 1;
    }
    out
}

/// `<ipnet::Ipv4Net as FromStr>::from_str`: four numerals of up to three
/// digits below 256, joined by dots, a slash, and a prefix length of up to two
/// digits, at most 32; anything else is an error.
#[verifier::external_body]
fn ipnet_parse(s: &str) -> (r: Option<(u32, u8)>)
    ensures
        r == cidr_value(s@),
{
    let net: Option<ipnet::Ipv4Net> = s.parse().ok();
    net.map(|n| (u32::from(n.addr()), n.prefix_len()))
}

/// The value of four dotted numerals below 256.
pub open spec fn dotted_value(parts: Seq<Seq<char>>) -> Option<u32> {
    if parts.len() != 4 {
        None
    } else {
        match (
            numeral(parts[0], 3, 256),
            numeral(parts[1], 3, 256),
            numeral(parts[2], 3, 256),
            numeral(parts[3], 3, 256),
        ) {
            (Some(a), Some(b), Some(c), Some(d)) => Some(
                (a * 0x100_0000 + b * 0x1_0000 + c * 0x100 + d) as u32,
            ),
            _ => None,
        }
    }
}

/// The network that a text in CIDR notation names.
pub open spec fn cidr_value(s: Seq<char>) -> Option<(u32, u8)> {
    let halves = pieces(s, '/');
    if halves.len() != 2 {
        None
    } else {
        match (dotted_value(pieces(halves[0], '.')), numeral(halves[1], 2, 33)) {
            (Some(bits), Some(p)) => Some((bits, p as u8)),
            _ => None,
        }
    }
}

/// The network of an address and a prefix length.
pub closed spec fn net_at(bits: u32, prefix_len: u8) -> Ipv4Net {
    Ipv4Net { addr: Ipv4Addr { bits }, prefix_len }
}

/// A network is known by its address and its prefix length.
pub proof fn lemma_net_at(bits: u32, prefix_len: u8, n: Ipv4Net)
    ensures
        net_at(bits, prefix_len).base().bits == bits,
        net_at(bits, prefix_len).prefix() == prefix_len,
        n == net_at(n.base().bits, n.prefix()),
{
}

/// The network that a text in CIDR notation names.
pub open spec fn net_value(s: Seq<char>) -> Option<Ipv4Net> {
    match cidr_value(s) {
        Some((bits, prefix_len)) => Some(net_at(bits, prefix_len)),
        None => None,
    }
}

impl Ipv4Net {
    #[verifier::type_invariant]
    spec fn valid(self) -> bool {
        self.prefix_len <= 32
    }

    /// The address that the network was named by.
    pub closed spec fn base(&self) -> Ipv4Addr {
        self.addr
    }

    /// The length of the network prefix.
    pub closed spec fn prefix(&self) -> u8 {
        self.prefix_len
    }

    /// The first address.
    pub open spec fn first(&self) -> int {
        block_start(self.base().bits, self.prefix())
    }

    /// The last address.
    pub open spec fn last(&self) -> int {
        self.first() + block_size(self.prefix()) - 1
    }

    /// Whether `ip` belongs to the network.
    pub open spec fn holds(&self, ip: Ipv4Addr) -> bool {
        self.first() <= ip.bits <= self.last()
    }

    /// The network that `addr` and `prefix_len` name; `None` past 32 bits.
    pub fn new(addr: Ipv4Addr, prefix_len: u8) -> (r: Option<Ipv4Net>)
        ensures
            r is Some <==> prefix_len <= 32,
            r matches Some(n) ==> n.base() == addr && n.prefix() == prefix_len,
    {
        if prefix_len <= 32 {
            Some(Ipv4Net { addr, prefix_len })
        } else {
            None
        }
    }

    /// The network that `addr` and `prefix_len` name.
    pub fn of(addr: Ipv4Addr, prefix_len: u8) -> (r: Ipv4Net)
        requires
            prefix_len <= 32,
        ensures
            r == net_at(addr.bits, prefix_len),
            r.base() == addr,
            r.prefix() == prefix_len,
    {
        Ipv4Net { addr, prefix_len }
    }

    /// Reads CIDR notation.
    pub fn parse(s: &str) -> (r: Option<Ipv4Net>)
        ensures
            r is Some <==> cidr_value(s@) is Some,
            r matches Some(n) ==> cidr_value(s@) == Some((n.base().bits, n.prefix())),
            r == net_value(s@),
    {
        match ipnet_parse(s) {
            Some((bits, prefix_len)) => Some(Ipv4Net { addr: Ipv4Addr { bits }, prefix_len }),
            None => None,
        }
    }

    /// The address that the network was named by.
    pub fn addr(&self) -> (r: Ipv4Addr)
        ensures
            r == self.base(),
    {
        self.addr
    }

    /// The length of the network prefix.
    pub fn prefix_len(&self) -> (r: u8)
        ensures
            r == self.prefix(),
            r <= 32,
    {
        proof {
            use_type_invariant(self);
        }
        self.prefix_len
    }

    /// The network address (host bits cleared).
    pub fn network(&self) -> (r: Ipv4Addr)
        ensures
            r.bits == self.first(),
    {
        proof {
            use_type_invariant(self);
        }
        Ipv4Addr { bits: ipnet_network(self.addr.bits, self.prefix_len) }
    }

    /// The directed broadcast address (host bits set).
    pub fn broadcast(&self) -> (r: Ipv4Addr)
        ensures
            r.bits == self.last(),
    {
        proof {
            use_type_invariant(self);
        }
        Ipv4Addr { bits: ipnet_broadcast(self.addr.bits, self.prefix_len) }
    }

    /// The network mask.
    pub fn netmask(&self) -> (r: Ipv4Addr)
        ensures
            r.bits == 0x1_0000_0000 - block_size(self.prefix()),
    {
        proof {
            use_type_invariant(self);
        }
        Ipv4Addr { bits: ipnet_netmask(self.addr.bits, self.prefix_len) }
    }

    /// Whether `ip` belongs to the network.
    pub fn contains(&self, ip: Ipv4Addr) -> (r: bool)
        ensures
            r == self.holds(ip),
    {
        proof {
            use_type_invariant(self);
        }
        ipnet_contains(self.addr.bits, self.prefix_len, ip.bits)
    }

    /// CIDR notation.
    pub fn to_text(&self) -> (s: String)
        ensures
            s@ == net_text(*self),
    {
        let mut s = self.addr.to_text();
        push_char(&mut s, '/');
        s.append(decimal_string(self.prefix_len as u64).as_str());
        assert(s@ =~= net_text(*self));
        s
    }
}

/// A network block starts at a multiple of its size, no lower than zero and
/// no higher than the address.
pub proof fn lemma_block(addr: u32, prefix_len: u8)
    requires
        prefix_len <= 32,
    ensures
        block_size(prefix_len) > 0,
        0 <= block_start(addr, prefix_len) <= addr,
        addr < block_start(addr, prefix_len) + block_size(prefix_len),
        block_start(addr, prefix_len) % block_size(prefix_len) == 0,
{
    let n = block_size(prefix_len);
    let a = addr as int;
    vstd::arithmetic::power2::lemma_pow2_pos((32 - prefix_len) as nat);
    vstd::arithmetic::div_mod::lemma_fundamental_div_mod(a, n);
    vstd::arithmetic::div_mod::lemma_mod_bound(a, n);
    vstd::arithmetic::div_mod::lemma_mod_decreases(addr as nat, n as nat);
    assert(a - a % n == n * (a / n));
    vstd::arithmetic::div_mod::lemma_mod_multiples_basic(a / n, n);
    assert(n * (a / n) == (a / n) * n) by (nonlinear_arith);
}

/// The dotted text of an address.
pub open spec fn ip_text(ip: Ipv4Addr) -> Seq<char> {
    let b = ip_bytes(ip);
    decimal(b[0] as nat) + seq!['.'] + decimal(b[1] as nat) + seq!['.'] + decimal(b[2] as nat)
        + seq!['.'] + decimal(b[3] as nat)
}

/// The CIDR notation of a network.
pub open spec fn net_text(n: Ipv4Net) -> Seq<char> {
    ip_text(n.base()) + seq!['/'] + decimal(n.prefix() as nat)
}

/// The value of an octet without leading zeros.
pub open spec fn octet_value(t: Seq<char>) -> Option<nat> {
    if t.len() > 1 && t[0] == '0' {
        None
    } else {
        numeral(t, 3, 256)
    }
}

/// The address that a dotted text names: four octets without leading zeros.
pub open spec fn ip_value(s: Seq<char>) -> Option<Ipv4Addr> {
    let parts = pieces(s, '.');
    if parts.len() != 4 {
        None
    } else {
        match (
            octet_value(parts[0]),
            octet_value(parts[1]),
            octet_value(parts[2]),
            octet_value(parts[3]),
        ) {
            (Some(a), Some(b), Some(c), Some(d)) => Some(
                Ipv4Addr { bits: (a * 0x100_0000 + b * 0x1_0000 + c * 0x100 + d) as u32 },
            ),
            _ => None,
        }
    }
}

fn parse_octet(t: &Vec<char>) -> (r: Option<u8>)
    ensures
        r is Some <==> octet_value(t@) is Some,
        r matches Some(v) ==> octet_value(t@) == Some(v as nat),
{
    if t.len() > 1 && t[0] == '0' {
        return None;
    }
    match parse_numeral(t.as_slice(), 3, 256) {
        Some(v) => Some(v as u8),
        None => None,
    }
}

impl Ipv4Addr {
    /// Reads dotted notation.
    pub fn parse(s: &str) -> (r: Option<Ipv4Addr>)
        ensures
            r == ip_value(s@),
    {
        let chars = chars_of(s);
        let parts = split_at_char(chars.as_slice(), '.');
        if parts.len() != 4 {
            assert(char_lists(parts@).len() == parts@.len());
            return None;
        }
        assert(char_lists(parts@)[0] == parts@[0]@);
        assert(char_lists(parts@)[1] == parts@[1]@);
        assert(char_lists(parts@)[2] == parts@[2]@);
        assert(char_lists(parts@)[3] == parts@[3]@);
        match (
            parse_octet(&parts[0]),
            parse_octet(&parts[1]),
            parse_octet(&parts[2]),
            parse_octet(&parts[3]),
        ) {
            (Some(a), Some(b), Some(c), Some(d)) => Some(Ipv4Addr::new(a, b, c, d)),
            _ => None,
        }
    }

    /// Dotted notation.
    pub fn to_text(&self) -> (s: String)
        ensures
            s@ == ip_text(*self),
    {
        let o = self.octets();
        let mut s = decimal_string(o[0] as u64);
        push_char(&mut s, '.');
        s.append(decimal_string(o[1] as u64).as_str());
        push_char(&mut s, '.');
        s.append(decimal_string(o[2] as u64).as_str());
        push_char(&mut s, '.');
        s.append(decimal_string(o[3] as u64).as_str());
        assert(s@ =~= ip_text(*self));
        s
    }
}

/// An address that is written in dotted notation is read back.
pub proof fn address_is_read_back(ip: Ipv4Addr)
    ensures
        ip_value(ip_text(ip)) == Some(ip),
{
    let b = ip_bytes(ip);
    let (a0, a1, a2, a3) = (b[0] as nat, b[1] as nat, b[2] as nat, b[3] as nat);
    crate::text::decimal_is_read_back(a0);
    crate::text::decimal_is_read_back(a1);
    crate::text::decimal_is_read_back(a2);
    crate::text::decimal_is_read_back(a3);
    let (t0, t1, t2, t3) = (decimal(a0), decimal(a1), decimal(a2), decimal(a3));
    let s1 = t0 + seq!['.'] + t1;
    let s2 = s1 + seq!['.'] + t2;
    crate::text::last_piece_is_split_off(Seq::empty(), '.', t0);
    crate::text::last_piece_is_split_off(t0, '.', t1);
    crate::text::last_piece_is_split_off(s1, '.', t2);
    crate::text::last_piece_is_split_off(s2, '.', t3);
    let s = s2 + seq!['.'] + t3;
    assert(s =~= ip_text(ip));
    let parts = pieces(s, '.');
    assert(parts =~= seq![t0, t1, t2, t3]);
    assert(octet_value(t0) == Some(a0));
    assert(octet_value(t1) == Some(a1));
    assert(octet_value(t2) == Some(a2));
    assert(octet_value(t3) == Some(a3));
    crate::net::wire::lemma_u32_round_trip(ip.bits);
}

/// A network holds exactly the addresses that share its prefix: those that
/// agree with its own address in all but the host bits.
pub proof fn network_holds_its_prefix(n: Ipv4Net, ip: Ipv4Addr)
    requires
        n.prefix() <= 32,
    ensures
        n.holds(ip) <==> ip.bits as int / pow2((32 - n.prefix()) as nat) as int
            == n.base().bits as int / pow2((32 - n.prefix()) as nat) as int,
        n.holds(n.base()),
        n.prefix() == 32 ==> (n.holds(ip) <==> ip == n.base()),
        n.prefix() == 0 ==> n.holds(ip),
{
    let k = pow2((32 - n.prefix()) as nat) as int;
    let a = n.base().bits as int;
    let i = ip.bits as int;
    lemma_block(n.base().bits, n.prefix());
    vstd::arithmetic::div_mod::lemma_fundamental_div_mod(a, k);
    vstd::arithmetic::div_mod::lemma_fundamental_div_mod(i, k);
    vstd::arithmetic::div_mod::lemma_mod_bound(a, k);
    vstd::arithmetic::div_mod::lemma_mod_bound(i, k);
    let q = a / k;
    let r = i / k;
    assert(n.first() == k * q);
    if r < q {
        assert(k * r + k <= k * q) by (nonlinear_arith)
            requires
                r < q,
                k > 0,
        ;
    }
    if r > q {
        assert(k * q + k <= k * r) by (nonlinear_arith)
            requires
                r > q,
                k > 0,
        ;
    }
    vstd::arithmetic::power2::lemma2_to64();
}

} // verus!

//! Big-endian integers in byte buffers, and the internet checksum.

use vstd::prelude::*;

use crate::net::addr::{Ipv4Addr, MacAddr};

verus! {

/// The big-endian 16-bit word at `off`.
pub open spec fn be16(s: Seq<u8>, off: int) -> int {
    s[off] * 256 + s[off + 1]
}

/// The big-endian 32-bit word at `off`.
pub open spec fn be32(s: Seq<u8>, off: int) -> int {
    be16(s, off) * 0x1_0000 + be16(s, off + 2)
}

/// The 16-bit word at `off`, as a machine integer.
pub open spec fn word_at(s: Seq<u8>, off: int) -> u16 {
    be16(s, off) as u16
}

/// The IPv4 address at `off`.
pub open spec fn ip_at(s: Seq<u8>, off: int) -> Ipv4Addr {
    Ipv4Addr { bits: be32(s, off) as u32 }
}

/// The hardware address at `off`.
pub open spec fn mac_of(s: Seq<u8>, off: int) -> MacAddr {
    MacAddr([s[off], s[off + 1], s[off + 2], s[off + 3], s[off + 4], s[off + 5]])
}

/// The bytes of a hardware address stand where it was read.
pub proof fn lemma_mac_of(s: Seq<u8>, off: int, m: MacAddr)
    requires
        0 <= off,
        off + 6 <= s.len(),
    ensures
        mac_of(s, off).0@ == s.subrange(off, off + 6),
        s.subrange(off, off + 6) == m.0@ ==> mac_of(s, off) == m,
{
    assert(mac_of(s, off).0@ =~= s.subrange(off, off + 6));
    if s.subrange(off, off + 6) == m.0@ {
        crate::net::addr::lemma_mac_ext(mac_of(s, off), m);
    }
}

/// A 16-bit value in network order.
pub open spec fn u16_bytes(v: u16) -> Seq<u8> {
    seq![(v / 256) as u8, (v % 256) as u8]
}

/// A 32-bit value in network order.
pub open spec fn u32_bytes(v: u32) -> Seq<u8> {
    let hi = v / 0x1_0000;
    let lo = v % 0x1_0000;
    seq![(hi / 256) as u8, (hi % 256) as u8, (lo / 256) as u8, (lo % 256) as u8]
}

/// Reading back a 32-bit value that was written in network order gives it.
pub proof fn lemma_u32_round_trip(v: u32)
    ensures
        be32(u32_bytes(v), 0) == v,
{
    let s = u32_bytes(v);
    assert(be16(s, 0) == v / 0x1_0000);
    assert(be16(s, 2) == v % 0x1_0000);
}

/// The bytes of a word that was read from a buffer are the buffer's bytes.
pub proof fn lemma_be32_bytes(s: Seq<u8>, off: int)
    requires
        0 <= off,
        off + 4 <= s.len(),
    ensures
        0 <= be32(s, off) <= 0xFFFF_FFFF,
        u32_bytes(be32(s, off) as u32) == s.subrange(off, off + 4),
{
    let v = be32(s, off) as u32;
    assert(v / 0x1_0000 == be16(s, off));
    assert(v % 0x1_0000 == be16(s, off + 2));
    assert(u32_bytes(v) =~= s.subrange(off, off + 4));
}

/// The 16-bit word at `off`.
pub(crate) fn u16_at(buf: &[u8], off: usize) -> (r: u16)
    requires
        off + 2 <= buf@.len(),
    ensures
        r == be16(buf@, off as int),
{
    buf[off] as u16 * 256 + buf[off + 1] as u16
}

/// The 32-bit word at `off`.
pub(crate) fn u32_at(buf: &[u8], off: usize) -> (r: u32)
    requires
        off + 4 <= buf@.len(),
    ensures
        r == be32(buf@, off as int),
{
    assert(buf.len() == buf@.len());
    u16_at(buf, off) as u32 * 0x1_0000 + u16_at(buf, off + 2) as u32
}

/// The hardware address at `off`.
pub(crate) fn mac_at(buf: &[u8], off: usize) -> (r: MacAddr)
    requires
        off + 6 <= buf@.len(),
    ensures
        r == mac_of(buf@, off as int),
{
    let m: [u8; 6] = [
        buf[off],
        buf[off + 1],
        buf[off + 2],
        buf[off + 3],
        buf[off + 4],
        buf[off + 5],
    ];
    MacAddr(m)
}

/// The IPv4 address at `off`.
pub(crate) fn ipv4_at(buf: &[u8], off: usize) -> (r: Ipv4Addr)
    requires
        off + 4 <= buf@.len(),
    ensures
        r.bits == be32(buf@, off as int),
{
    Ipv4Addr { bits: u32_at(buf, off) }
}

/// Appends a 16-bit value in network order.
pub(crate) fn push_u16(v: &mut Vec<u8>, x: u16)
    ensures
        final(v)@ == old(v)@ + u16_bytes(x),
{
    v.push((x / 256) as u8);
    v.push((x % 256) as u8);
    assert(v@ =~= old(v)@ + u16_bytes(x));
}

/// Appends a 32-bit value in network order.
pub(crate) fn push_u32(v: &mut Vec<u8>, x: u32)
    ensures
        final(v)@ == old(v)@ + u32_bytes(x),
{
    let hi: u32 = x / 0x1_0000;
    let lo: u32 = x % 0x1_0000;
    v.push((hi / 256) as u8);
    v.push((hi % 256) as u8);
    v.push((lo / 256) as u8);
    v.push((lo % 256) as u8);
    assert(v@ =~= old(v)@ + u32_bytes(x));
}

/// Appends a byte slice.
pub(crate) fn push_bytes(v: &mut Vec<u8>, s: &[u8])
    ensures
        final(v)@ == old(v)@ + s@,
{
    v.extend_from_slice(s);
    assert(v@ =~= old(v)@ + s@);
}

/// Appends the six bytes of a hardware address.
pub(crate) fn push_mac(v: &mut Vec<u8>, m: MacAddr)
    ensures
        final(v)@ == old(v)@ + m.0@,
{
    v.push(m.0[0]);
    v.push(m.0[1]);
    v.push(m.0[2]);
    v.push(m.0[3]);
    v.push(m.0[4]);
    v.push(m.0[5]);
    assert(v@ =~= old(v)@ + m.0@);
}

/// Overwrites the 16-bit word at `off`.
pub(crate) fn set_u16(v: &mut Vec<u8>, off: usize, x: u16)
    requires
        off + 2 <= old(v)@.len(),
    ensures
        final(v)@ == with_u16(old(v)@, off as int, x),
{
    assert(v.len() == v@.len());
    v[off] = (x / 256) as u8;
    v[off + 1] = (x % 256) as u8;
}

/// `s` with the 16-bit word at `off` replaced by `x`.
pub open spec fn with_u16(s: Seq<u8>, off: int, x: u16) -> Seq<u8> {
    s.update(off, (x / 256) as u8).update(off + 1, (x % 256) as u8)
}

/// `s` with the bytes from `off` on replaced by `b`.
pub open spec fn with_bytes(s: Seq<u8>, off: int, b: Seq<u8>) -> Seq<u8> {
    Seq::new(
        s.len(),
        |i: int|
            if off <= i < off + b.len() {
                b[i - off]
            } else {
                s[i]
            },
    )
}

/// Overwrites the address at `off`.
pub(crate) fn set_ip(v: &mut Vec<u8>, off: usize, ip: Ipv4Addr)
    requires
        off + 4 <= old(v)@.len(),
    ensures
        final(v)@ == with_bytes(old(v)@, off as int, u32_bytes(ip.bits)),
{
    assert(v.len() == v@.len());
    let o = ip.octets();
    v[off] = o[0];
    v[off + 1] = o[1];
    v[off + 2] = o[2];
    v[off + 3] = o[3];
    assert(v@ =~= with_bytes(old(v)@, off as int, u32_bytes(ip.bits)));
}

// ---------------------------------------------------------------------------
// Internet checksum
// ---------------------------------------------------------------------------

/// The weight of the byte at position `i` in a sum of big-endian words.
pub open spec fn byte_weight(i: int) -> int {
    if i % 2 == 0 {
        256
    } else {
        1
    }
}

/// The sum of the big-endian 16-bit words of `s`, an odd trailing byte padded
/// with zero.
pub open spec fn word_sum(s: Seq<u8>) -> int
    decreases s.len(),
{
    if s.len() == 0 {
        0
    } else {
        word_sum(s.drop_last()) + s.last() * byte_weight(s.len() - 1)
    }
}

/// One's-complement 16-bit representative of a sum: carries folded back in.
pub open spec fn folded(sum: int) -> int {
    if sum == 0 {
        0
    } else {
        (sum - 1) % 0xFFFF + 1
    }
}

/// The RFC 1071 checksum of `s`: the complement of the one's-complement sum
/// of its words.
pub open spec fn checksum(s: Seq<u8>) -> int {
    0xFFFF - folded(word_sum(s))
}

/// The checksum as it is written into a header.
pub open spec fn checksum_word(s: Seq<u8>) -> u16 {
    checksum(s) as u16
}

/// RFC 1071 internet checksum (one's-complement sum of 16-bit big-endian
/// words, odd trailing byte padded with zero), returned complemented and
/// ready to write into a header.
pub fn internet_checksum(data: &[u8]) -> (r: u16)
    ensures
        r == checksum(data@),
{
    let mut sum: u32 = 0;
    let mut i: usize = 0;
    assert(data@.take(0) =~= Seq::<u8>::empty());
    while i < data.len()
        invariant
            i <= data@.len(),
            sum <= 0xFFFF,
            word_sum(data@.take(i as int)) >= 0,
            sum as int % 0xFFFF == word_sum(data@.take(i as int)) % 0xFFFF,
            sum == 0 <==> word_sum(data@.take(i as int)) == 0,
        decreases data@.len() - i,
    {
        let w: u32 = if i % 2 == 0 {
            data[i] as u32 * 256
        } else {
            data[i] as u32
        };
        proof {
            let t = data@.take(i as int + 1);
            assert(t.drop_last() =~= data@.take(i as int));
            assert(t.last() == data@[i as int]);
            assert(w == t.last() * byte_weight(t.len() - 1));
        }
        sum = sum + w;
        if sum > 0xFFFF {
            sum = sum - 0xFFFF;
        }
        i = i + 1;
    }
    assert(data@.take(i as int) =~= data@);
    0xFFFF - sum as u16
}

pub proof fn lemma_word_sum_nonneg(s: Seq<u8>)
    ensures
        word_sum(s) >= 0,
    decreases s.len(),
{
    if s.len() > 0 {
        lemma_word_sum_nonneg(s.drop_last());
        let l = s.last() as int;
        let w = byte_weight(s.len() - 1);
        assert(l * w >= 0) by (nonlinear_arith)
            requires
                l >= 0,
                w >= 0,
        ;
    }
}

/// Overwriting one byte changes the sum by the weighted difference.
pub proof fn lemma_word_sum_update(s: Seq<u8>, k: int, b: u8)
    requires
        0 <= k < s.len(),
    ensures
        word_sum(s.update(k, b)) == word_sum(s) + (b - s[k]) * byte_weight(k),
    decreases s.len(),
{
    let u = s.update(k, b);
    if k == s.len() - 1 {
        assert(u.drop_last() =~= s.drop_last());
        let w = byte_weight(k);
        let x = s[k] as int;
        let y = b as int;
        assert(y * w == x * w + (y - x) * w) by (nonlinear_arith);
    } else {
        assert(u.drop_last() =~= s.drop_last().update(k, b));
        lemma_word_sum_update(s.drop_last(), k, b);
    }
}

/// The sum over a concatenation splits at an even position.
pub proof fn lemma_word_sum_concat(a: Seq<u8>, b: Seq<u8>)
    requires
        a.len() % 2 == 0,
    ensures
        word_sum(a + b) == word_sum(a) + word_sum(b),
    decreases b.len(),
{
    if b.len() == 0 {
        assert(a + b =~= a);
    } else {
        assert((a + b).drop_last() =~= a + b.drop_last());
        lemma_word_sum_concat(a, b.drop_last());
        assert((a.len() + b.len() - 1) % 2 == (b.len() - 1) % 2) by {
            assert(a.len() % 2 == 0);
        }
    }
}

/// Writing the 16-bit word at an even offset adds the difference of the words.
pub proof fn lemma_word_sum_set_u16(s: Seq<u8>, off: int, x: u16)
    requires
        0 <= off,
        off % 2 == 0,
        off + 2 <= s.len(),
    ensures
        word_sum(with_u16(s, off, x)) == word_sum(s) + x - be16(s, off),
{
    let t = s.update(off, (x / 256) as u8);
    lemma_word_sum_update(s, off, (x / 256) as u8);
    lemma_word_sum_update(t, off + 1, (x % 256) as u8);
    assert(byte_weight(off) == 256);
    assert(byte_weight(off + 1) == 1);
    assert(t[off + 1] == s[off + 1]);
}

/// A buffer whose checksum field held zero verifies, that is checksums to
/// zero, once its checksum is written into the field.
pub proof fn checksum_fill_verifies(s: Seq<u8>, off: int)
    requires
        0 <= off,
        off % 2 == 0,
        off + 2 <= s.len(),
        be16(s, off) == 0,
    ensures
        0 <= checksum(s) <= 0xFFFF,
        checksum(with_u16(s, off, checksum_word(s))) == 0,
{
    lemma_word_sum_nonneg(s);
    lemma_word_sum_set_u16(s, off, checksum(s) as u16);
}

/// As [`checksum_fill_verifies`], where a computed zero is sent as all ones.
pub proof fn checksum_fill_nonzero_verifies(s: Seq<u8>, off: int)
    requires
        0 <= off,
        off % 2 == 0,
        off + 2 <= s.len(),
        be16(s, off) == 0,
        checksum(s) == 0,
    ensures
        checksum(with_u16(s, off, 0xFFFF)) == 0,
{
    lemma_word_sum_nonneg(s);
    lemma_word_sum_set_u16(s, off, 0xFFFF);
}

} // verus!

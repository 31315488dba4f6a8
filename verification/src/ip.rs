//! IP addresses as plain machine words, and big-endian byte decoding.

use vstd::prelude::*;

verus! {

/// An IP address: 32 bits for v4, 128 bits for v6.
#[derive(Clone, Copy, PartialEq, Eq, Structural, Debug)]
pub enum Addr {
    V4(u32),
    V6(u128),
}

/// A UDP endpoint: an address and a port.
#[derive(Clone, Copy, PartialEq, Eq, Structural, Debug)]
pub struct Endpoint {
    pub addr: Addr,
    pub port: u16,
}

/// The prefix length the client's TUN interface is configured with: 24
/// for a v4 tunnel address, 64 for a v6 one.
pub fn tun_prefix_len(a: Addr) -> (r: u8)
    ensures
        match a {
            Addr::V4(_) => r == 24,
            Addr::V6(_) => r == 64,
        },
{
    match a {
        Addr::V4(_) => 24,
        Addr::V6(_) => 64,
    }
}

/// The value of a big-endian byte string.
pub open spec fn be_bytes_val(s: Seq<u8>) -> nat
    decreases s.len(),
{
    if s.len() == 0 {
        0
    } else {
        (be_bytes_val(s.drop_last()) * 256 + s.last()) as nat
    }
}

pub proof fn lemma_be_bytes_val_bound(s: Seq<u8>)
    ensures
        be_bytes_val(s) < pow256(s.len()),
    decreases s.len(),
{
    if s.len() == 0 {
    } else {
        lemma_be_bytes_val_bound(s.drop_last());
    }
}

pub open spec fn pow256(n: nat) -> nat
    decreases n,
{
    if n == 0 {
        1
    } else {
        256 * pow256((n - 1) as nat)
    }
}

/// Reads bytes `from..to` of `b` as one big-endian number.
pub fn be_val(b: &[u8], from: usize, to: usize) -> (r: u128)
    requires
        from <= to <= b@.len(),
        to - from <= 16,
    ensures
        r == be_bytes_val(b@.subrange(from as int, to as int)),
{
    let mut acc: u128 = 0;
    let mut i: usize = from;
    proof {
        assert(b@.subrange(from as int, from as int) =~= Seq::<u8>::empty());
    }
    while i < to
        invariant
            from <= i <= to <= b@.len(),
            to - from <= 16,
            acc == be_bytes_val(b@.subrange(from as int, i as int)),
        decreases to - i,
    {
        proof {
            lemma_be_bytes_val_bound(b@.subrange(from as int, i as int));
            let k = (i - from) as nat;
            assert(acc * 256 + 255 < pow256(k) * 256) by (nonlinear_arith)
                requires
                    acc < pow256(k),
            ;
            assert(pow256(k) * 256 == pow256((k + 1) as nat));
            lemma_pow256_le((k + 1) as nat, 16);
            lemma_pow256_16();
            assert(b@.subrange(from as int, (i + 1) as int).drop_last() =~= b@.subrange(
                from as int,
                i as int,
            ));
        }
        acc = acc * 256 + (b[i] as u128);
        i = i + 1;
    }
    acc
}

/// Bit `i` of a 32-bit address, counting from the most significant bit.
pub open spec fn v4_bit(x: u32, i: u32) -> bool
    recommends
        i < 32,
{
    (x >> ((31 - i) as u32)) & 1 == 1
}

/// Bit `i` of a 128-bit address, counting from the most significant bit.
pub open spec fn v6_bit(x: u128, i: u32) -> bool
    recommends
        i < 128,
{
    (x >> ((127 - i) as u128)) & 1 == 1
}

/// The first `p` bits of `a` equal those of `n`.
pub open spec fn v4_prefix_eq(a: u32, n: u32, p: u32) -> bool {
    forall|i: u32| i < p && i < 32 ==> (#[trigger] v4_bit(a, i) <==> v4_bit(n, i))
}

/// The first `p` bits of `a` equal those of `n`.
pub open spec fn v6_prefix_eq(a: u128, n: u128, p: u32) -> bool {
    forall|i: u32| i < p && i < 128 ==> (#[trigger] v6_bit(a, i) <==> v6_bit(n, i))
}

/// All bits of `d` at positions `k` and above (counting from the least
/// significant bit) are zero.
pub open spec fn v4_high_bits_zero(d: u32, k: u32) -> bool {
    forall|j: u32| k <= j < 32 ==> (#[trigger] (d >> j)) & 1 == 0
}

proof fn lemma_v4_shift_base(d: u32)
    by (bit_vector)
    ensures
        (d >> 31u32 == 0) <==> (d >> 31u32) & 1 == 0,
{
}

proof fn lemma_v4_shift_step(d: u32, k: u32)
    by (bit_vector)
    requires
        k < 31,
    ensures
        (d >> k == 0) <==> ((d >> ((k + 1) as u32) == 0) && (d >> k) & 1 == 0),
{
}

proof fn lemma_v4_shift_vs_bits(d: u32, k: u32)
    requires
        k <= 31,
    ensures
        (d >> k == 0) <==> v4_high_bits_zero(d, k),
    decreases 31 - k,
{
    if k == 31 {
        lemma_v4_shift_base(d);
    } else {
        lemma_v4_shift_vs_bits(d, (k + 1) as u32);
        lemma_v4_shift_step(d, k);
        if d >> k == 0 {
            assert forall|j: u32| k <= j < 32 implies (#[trigger] (d >> j)) & 1 == 0 by {
                if j != k {
                    assert(v4_high_bits_zero(d, (k + 1) as u32));
                }
            }
        }
        if v4_high_bits_zero(d, k) {
            assert forall|j: u32| k + 1 <= j < 32 implies (#[trigger] (d >> j)) & 1 == 0 by {
                assert(k <= j < 32);
            }
            assert((d >> k) & 1 == 0);
        }
    }
}

proof fn lemma_v4_bit_xor(a: u32, n: u32, j: u32)
    by (bit_vector)
    requires
        j <= 31,
    ensures
        (((a ^ n) >> j) & 1 == 0) <==> (((a >> j) & 1 == 1) <==> ((n >> j) & 1 == 1)),
{
}

/// Decides whether the first `p` bits of `a` equal those of `n`.
pub fn v4_in_prefix(a: u32, n: u32, p: u32) -> (r: bool)
    requires
        p <= 32,
    ensures
        r == v4_prefix_eq(a, n, p),
{
    if p == 0 {
        true
    } else {
        let r = (a ^ n) >> (32 - p) == 0;
        proof {
            let d = a ^ n;
            let k = (32 - p) as u32;
            lemma_v4_shift_vs_bits(d, k);
            if v4_high_bits_zero(d, k) {
                assert forall|i: u32| i < p && i < 32 implies (#[trigger] v4_bit(a, i) <==> v4_bit(
                    n,
                    i,
                )) by {
                    let j = (31 - i) as u32;
                    assert((d >> j) & 1 == 0);
                    lemma_v4_bit_xor(a, n, j);
                }
            }
            if v4_prefix_eq(a, n, p) {
                assert forall|j: u32| k <= j < 32 implies (#[trigger] (d >> j)) & 1 == 0 by {
                    let i = (31 - j) as u32;
                    assert(v4_bit(a, i) <==> v4_bit(n, i));
                    lemma_v4_bit_xor(a, n, j);
                }
            }
        }
        r
    }
}

/// All bits of `d` at positions `k` and above (counting from the least
/// significant bit) are zero.
pub open spec fn v6_high_bits_zero(d: u128, k: u32) -> bool {
    forall|j: u32| k <= j < 128 ==> (#[trigger] (d >> (j as u128))) & 1 == 0
}

proof fn lemma_v6_shift_base(d: u128)
    by (bit_vector)
    ensures
        (d >> 127u128 == 0) <==> (d >> 127u128) & 1 == 0,
{
}

proof fn lemma_v6_shift_step(d: u128, k: u32)
    by (bit_vector)
    requires
        k < 127,
    ensures
        (d >> (k as u128) == 0) <==> ((d >> (((k + 1) as u32) as u128) == 0) && (d >> (k as u128))
            & 1 == 0),
{
}

proof fn lemma_v6_shift_vs_bits(d: u128, k: u32)
    requires
        k <= 127,
    ensures
        (d >> (k as u128) == 0) <==> v6_high_bits_zero(d, k),
    decreases 127 - k,
{
    if k == 127 {
        lemma_v6_shift_base(d);
    } else {
        lemma_v6_shift_vs_bits(d, (k + 1) as u32);
        lemma_v6_shift_step(d, k);
        if d >> (k as u128) == 0 {
            assert forall|j: u32| k <= j < 128 implies (#[trigger] (d >> (j as u128))) & 1 == 0 by {
                if j != k {
                    assert(v6_high_bits_zero(d, (k + 1) as u32));
                }
            }
        }
        if v6_high_bits_zero(d, k) {
            assert forall|j: u32| k + 1 <= j < 128 implies (#[trigger] (d >> (j as u128))) & 1
                == 0 by {
                assert(k <= j < 128);
            }
            assert((d >> (k as u128)) & 1 == 0);
        }
    }
}

proof fn lemma_v6_bit_xor(a: u128, n: u128, j: u32)
    by (bit_vector)
    requires
        j <= 127,
    ensures
        (((a ^ n) >> (j as u128)) & 1 == 0) <==> (((a >> (j as u128)) & 1 == 1) <==> ((n >> (
        j as u128)) & 1 == 1)),
{
}

/// Decides whether the first `p` bits of `a` equal those of `n`.
pub fn v6_in_prefix(a: u128, n: u128, p: u32) -> (r: bool)
    requires
        p <= 128,
    ensures
        r == v6_prefix_eq(a, n, p),
{
    if p == 0 {
        true
    } else {
        let r = (a ^ n) >> ((128 - p) as u128) == 0;
        proof {
            let d = a ^ n;
            let k = (128 - p) as u32;
            lemma_v6_shift_vs_bits(d, k);
            if v6_high_bits_zero(d, k) {
                assert forall|i: u32| i < p && i < 128 implies (#[trigger] v6_bit(a, i)
                    <==> v6_bit(n, i)) by {
                    let j = (127 - i) as u32;
                    assert((d >> (j as u128)) & 1 == 0);
                    lemma_v6_bit_xor(a, n, j);
                }
            }
            if v6_prefix_eq(a, n, p) {
                assert forall|j: u32| k <= j < 128 implies (#[trigger] (d >> (j as u128))) & 1
                    == 0 by {
                    let i = (127 - j) as u32;
                    assert(v6_bit(a, i) <==> v6_bit(n, i));
                    lemma_v6_bit_xor(a, n, j);
                }
            }
        }
        r
    }
}

/// The destination address carried in an IP packet: the version nibble
/// selects the layout, v4 keeps the destination in bytes 16..20, v6 in
/// bytes 24..40. Anything else has no destination.
pub open spec fn spec_dest(p: Seq<u8>) -> Option<Addr> {
    if p.len() >= 20 && p[0] >> 4 == 4 {
        Some(Addr::V4(be_bytes_val(p.subrange(16, 20)) as u32))
    } else if p.len() >= 40 && p[0] >> 4 == 6 {
        Some(Addr::V6(be_bytes_val(p.subrange(24, 40)) as u128))
    } else {
        None
    }
}

/// Extracts the destination address of an IP packet, if it has one.
pub fn dest_addr(packet: &[u8]) -> (r: Option<Addr>)
    ensures
        r == spec_dest(packet@),
{
    if packet.len() >= 20 && packet[0] >> 4 == 4 {
        let v = be_val(packet, 16, 20);
        proof {
            lemma_be_bytes_val_bound(packet@.subrange(16, 20));
            reveal_with_fuel(pow256, 5);
        }
        Some(Addr::V4(v as u32))
    } else if packet.len() >= 40 && packet[0] >> 4 == 6 {
        let v = be_val(packet, 24, 40);
        Some(Addr::V6(v))
    } else {
        None
    }
}

pub proof fn lemma_pow256_16()
    ensures
        pow256(16) == 0x100000000000000000000000000000000,
{
    reveal_with_fuel(pow256, 17);
}

pub proof fn lemma_pow256_le(m: nat, n: nat)
    requires
        m <= n,
    ensures
        pow256(m) <= pow256(n),
    decreases n,
{
    if m < n {
        lemma_pow256_le(m, (n - 1) as nat);
    }
}

} // verus!

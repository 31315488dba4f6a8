//! Textual forms of the configuration values: decimal numbers, addresses
//! of both families, CIDR blocks, endpoints, and the splitting and
//! formatting they are built on.

use vstd::prelude::*;
use crate::cidr::Cidr;
use crate::ip::{Addr, Endpoint};

verus! {

/// An ASCII decimal digit.
pub open spec fn is_digit(c: u8) -> bool {
    48 <= c <= 57
}

pub open spec fn all_digits(s: Seq<u8>) -> bool {
    forall|i: int| 0 <= i < s.len() ==> is_digit(#[trigger] s[i])
}

/// The value of a decimal digit string.
pub open spec fn dec_val(s: Seq<u8>) -> nat
    decreases s.len(),
{
    if s.len() == 0 {
        0
    } else {
        (dec_val(s.drop_last()) * 10 + (s.last() - 48)) as nat
    }
}

pub open spec fn pow10(n: nat) -> nat
    decreases n,
{
    if n == 0 {
        1
    } else {
        10 * pow10((n - 1) as nat)
    }
}

/// A digit string's value is bounded by its length.
pub proof fn lemma_dec_val_bound(s: Seq<u8>)
    requires
        all_digits(s),
    ensures
        dec_val(s) < pow10(s.len()),
    decreases s.len(),
{
    if s.len() > 0 {
        assert(all_digits(s.drop_last()));
        lemma_dec_val_bound(s.drop_last());
    }
}

/// A digit string's value only grows as digits are appended.
pub proof fn lemma_dec_val_prefix(s: Seq<u8>, i: int)
    requires
        0 <= i <= s.len(),
        all_digits(s),
    ensures
        dec_val(s.take(i)) <= dec_val(s),
    decreases s.len(),
{
    if i < s.len() {
        assert(s.drop_last().take(i) =~= s.take(i));
        assert(all_digits(s.drop_last()));
        lemma_dec_val_prefix(s.drop_last(), i);
    } else {
        assert(s.take(i) =~= s);
    }
}

/// Parses a nonempty all-digit string as a `u32`.
pub fn parse_dec_u32(s: &[u8]) -> (r: Option<u32>)
    ensures
        match r {
            Some(v) => s@.len() > 0 && all_digits(s@) && dec_val(s@) == v,
            None => !(s@.len() > 0 && all_digits(s@) && dec_val(s@) <= u32::MAX),
        },
{
    if s.len() == 0 {
        return None;
    }
    let mut acc: u32 = 0;
    let mut i: usize = 0;
    proof {
        assert(s@.take(0) =~= Seq::<u8>::empty());
    }
    while i < s.len()
        invariant
            i <= s@.len(),
            all_digits(s@.take(i as int)),
            acc == dec_val(s@.take(i as int)),
        decreases s@.len() - i,
    {
        let c = s[i];
        if c < 48 || c > 57 {
            return None;
        }
        let d = (c - 48) as u32;
        proof {
            assert(s@.take((i + 1) as int).drop_last() =~= s@.take(i as int));
            assert(s@.take((i + 1) as int).last() == s@[i as int]);
        }
        if acc > (u32::MAX - d) / 10 {
            proof {
                let t = s@.take((i + 1) as int);
                assert(dec_val(t) == acc * 10 + d);
                assert(acc * 10 + d > u32::MAX) by (nonlinear_arith)
                    requires
                        acc > (u32::MAX - d) / 10,
                        d <= 9,
                ;
                if all_digits(s@) {
                    lemma_dec_val_prefix(s@, (i + 1) as int);
                }
            }
            return None;
        }
        proof {
            assert(acc * 10 + d <= u32::MAX) by (nonlinear_arith)
                requires
                    acc <= (u32::MAX - d) / 10,
                    d <= 9,
            ;
        }
        acc = acc * 10 + d;
        i = i + 1;
    }
    proof {
        assert(s@.take(s@.len() as int) =~= s@);
    }
    Some(acc)
}

/// The shortest decimal digit string for `n`.
pub open spec fn spec_dec_digits(n: nat) -> Seq<u8>
    decreases n,
{
    if n < 10 {
        seq![(48 + n) as u8]
    } else {
        spec_dec_digits(n / 10).push((48 + n % 10) as u8)
    }
}

/// Writes `n` in decimal.
pub fn fmt_u32_dec(n: u32) -> (r: Vec<u8>)
    ensures
        r@ == spec_dec_digits(n as nat),
    decreases n,
{
    if n < 10 {
        let mut v: Vec<u8> = Vec::new();
        v.push(48 + (n as u8));
        proof {
            assert(v@ =~= spec_dec_digits(n as nat));
        }
        v
    } else {
        let mut v = fmt_u32_dec(n / 10);
        v.push(48 + ((n % 10) as u8));
        v
    }
}

/// The first position of `sep` in `s`, or `-1`.
pub open spec fn find_first(s: Seq<u8>, sep: u8) -> int
    decreases s.len(),
{
    if s.len() == 0 {
        -1
    } else if s[0] == sep {
        0
    } else {
        let r = find_first(s.drop_first(), sep);
        if r == -1 {
            -1
        } else {
            r + 1
        }
    }
}

/// `s` split at every occurrence of `sep`: always at least one part, one
/// more part per separator, separators not kept.
pub open spec fn split_at_seps(s: Seq<u8>, sep: u8) -> Seq<Seq<u8>>
    decreases s.len(),
{
    if s.len() == 0 {
        seq![Seq::<u8>::empty()]
    } else if s[0] == sep {
        seq![Seq::<u8>::empty()] + split_at_seps(s.drop_first(), sep)
    } else {
        let r = split_at_seps(s.drop_first(), sep);
        seq![seq![s[0]] + r[0]] + r.drop_first()
    }
}

pub proof fn lemma_split_len(s: Seq<u8>, sep: u8)
    ensures
        split_at_seps(s, sep).len() >= 1,
    decreases s.len(),
{
    if s.len() > 0 {
        lemma_split_len(s.drop_first(), sep)
    }
}

/// A string without the separator splits into itself alone.
pub proof fn lemma_split_no_sep(s: Seq<u8>, sep: u8)
    requires
        forall|i: int| 0 <= i < s.len() ==> s[i] != sep,
    ensures
        split_at_seps(s, sep) == seq![s],
    decreases s.len(),
{
    if s.len() == 0 {
        assert(s =~= Seq::<u8>::empty());
        assert(split_at_seps(s, sep) =~= seq![s]);
    } else {
        assert(forall|i: int| 0 <= i < s.drop_first().len() ==> s.drop_first()[i] != sep);
        lemma_split_no_sep(s.drop_first(), sep);
        let r = split_at_seps(s.drop_first(), sep);
        assert(r == seq![s.drop_first()]);
        assert(seq![s[0]] + r[0] =~= s);
        assert(r.drop_first() =~= Seq::<Seq<u8>>::empty());
        assert(split_at_seps(s, sep) =~= seq![s]);
    }
}

/// Splitting `t ++ sep ++ u`, with no separator in `t`, yields `t` and
/// then the split of `u`.
pub proof fn lemma_split_prepend(t: Seq<u8>, u: Seq<u8>, sep: u8)
    requires
        forall|i: int| 0 <= i < t.len() ==> t[i] != sep,
    ensures
        split_at_seps(t + seq![sep] + u, sep) == seq![t] + split_at_seps(u, sep),
    decreases t.len(),
{
    let s = t + seq![sep] + u;
    if t.len() == 0 {
        assert(s[0] == sep);
        assert(s.drop_first() =~= u);
        assert(t =~= Seq::<u8>::empty());
        assert(split_at_seps(s, sep) =~= seq![t] + split_at_seps(u, sep));
    } else {
        assert(s[0] == t[0]);
        assert(s[0] != sep);
        assert(s.drop_first() =~= t.drop_first() + seq![sep] + u);
        assert(forall|i: int| 0 <= i < t.drop_first().len() ==> t.drop_first()[i] != sep);
        lemma_split_prepend(t.drop_first(), u, sep);
        let r = split_at_seps(s.drop_first(), sep);
        lemma_split_len(u, sep);
        assert(r == seq![t.drop_first()] + split_at_seps(u, sep));
        assert(r[0] == t.drop_first());
        assert(seq![s[0]] + r[0] =~= t);
        assert(r.drop_first() =~= split_at_seps(u, sep));
        assert(split_at_seps(s, sep) =~= seq![t] + split_at_seps(u, sep));
    }
}

/// Splits `b` at every occurrence of `sep`.
pub fn split_bytes(b: &[u8], sep: u8) -> (parts: Vec<Vec<u8>>)
    ensures
        parts@.map_values(|p: Vec<u8>| p@) == split_at_seps(b@, sep),
{
    let mut parts: Vec<Vec<u8>> = Vec::new();
    let mut cur: Vec<u8> = Vec::new();
    let mut st: usize = 0;
    let mut i: usize = 0;
    proof {
        assert(b@.skip(0) =~= b@);
    }
    while i < b.len()
        invariant
            st <= i <= b@.len(),
            cur@ == b@.subrange(st as int, i as int),
            forall|j: int| st <= j < i ==> b@[j] != sep,
            split_at_seps(b@, sep) == parts@.map_values(|p: Vec<u8>| p@) + split_at_seps(
                b@.skip(st as int),
                sep,
            ),
        decreases b@.len() - i,
    {
        let c = b[i];
        if c == sep {
            proof {
                let t = b@.subrange(st as int, i as int);
                let u = b@.skip((i + 1) as int);
                assert(b@.skip(st as int) =~= t + seq![sep] + u);
                lemma_split_prepend(t, u, sep);
                assert((parts@.push(cur)).map_values(|p: Vec<u8>| p@) =~= parts@.map_values(
                    |p: Vec<u8>| p@,
                ).push(cur@));
                assert(parts@.map_values(|p: Vec<u8>| p@).push(t) + split_at_seps(u, sep)
                    =~= parts@.map_values(|p: Vec<u8>| p@) + (seq![t] + split_at_seps(u, sep)));
            }
            parts.push(cur);
            cur = Vec::new();
            st = i + 1;
            proof {
                assert(cur@ =~= b@.subrange(st as int, st as int));
            }
        } else {
            cur.push(c);
            proof {
                assert(cur@ =~= b@.subrange(st as int, (i + 1) as int));
            }
        }
        i = i + 1;
    }
    proof {
        let t = b@.subrange(st as int, b@.len() as int);
        assert(b@.skip(st as int) =~= t);
        lemma_split_no_sep(t, sep);
        assert((parts@.push(cur)).map_values(|p: Vec<u8>| p@) =~= parts@.map_values(
            |p: Vec<u8>| p@,
        ).push(cur@));
        assert(parts@.map_values(|p: Vec<u8>| p@).push(t) =~= parts@.map_values(|p: Vec<u8>| p@)
            + seq![t]);
    }
    parts.push(cur);
    parts
}

/// A valid dotted-quad octet: one to three digits, value at most 255.
pub open spec fn octet_ok(s: Seq<u8>) -> bool {
    1 <= s.len() <= 3 && all_digits(s) && dec_val(s) <= 255
}

/// The 32-bit value of four octets.
pub open spec fn v4_of_octets(a: nat, b: nat, c: nat, d: nat) -> u32 {
    (a * 0x1000000 + b * 0x10000 + c * 0x100 + d) as u32
}

/// What a dotted-quad IPv4 literal denotes: four octets separated by
/// dots, each one to three digits and at most 255.
pub open spec fn spec_parse_ipv4(s: Seq<u8>) -> Option<u32> {
    let p = split_at_seps(s, 46);
    if p.len() == 4 && octet_ok(p[0]) && octet_ok(p[1]) && octet_ok(p[2]) && octet_ok(p[3]) {
        Some(v4_of_octets(dec_val(p[0]), dec_val(p[1]), dec_val(p[2]), dec_val(p[3])))
    } else {
        None
    }
}

/// Parses a dotted-quad IPv4 literal.
pub fn parse_ipv4(s: &[u8]) -> (r: Option<u32>)
    ensures
        r == spec_parse_ipv4(s@),
{
    let parts = split_bytes(s, 46);
    if parts.len() != 4 {
        return None;
    }
    let mut vals: [u32; 4] = [0, 0, 0, 0];
    let mut k: usize = 0;
    let ghost pv = split_at_seps(s@, 46);
    proof {
        let mapped = parts@.map_values(|p: Vec<u8>| p@);
        assert(forall|j: int| 0 <= j < parts@.len() ==> mapped[j] == #[trigger] parts@[j]@);
        assert(pv =~= mapped);
    }
    while k < 4
        invariant
            k <= 4,
            parts@.len() == 4,
            pv == split_at_seps(s@, 46),
            pv.len() == 4,
            forall|j: int| 0 <= j < 4 ==> pv[j] == #[trigger] parts@[j]@,
            forall|j: int| 0 <= j < k ==> octet_ok(#[trigger] pv[j]) && vals@[j] == dec_val(pv[j]),
        decreases 4 - k,
    {
        let part = &parts[k];
        proof {
            assert(pv[k as int] == parts@[k as int]@);
            assert(k == 0 || k == 1 || k == 2 || k == 3);
        }
        if part.len() < 1 || part.len() > 3 {
            return None;
        }
        match parse_dec_u32(part.as_slice()) {
            Some(v) => {
                if v > 255 {
                    return None;
                }
                vals[k] = v;
            },
            None => {
                proof {
                    if all_digits(pv[k as int]) {
                        lemma_dec_val_bound(pv[k as int]);
                        reveal_with_fuel(pow10, 4);
                    }
                }
                return None;
            },
        }
        k = k + 1;
    }
    proof {
        assert(octet_ok(pv[0]) && octet_ok(pv[1]) && octet_ok(pv[2]) && octet_ok(pv[3]));
    }
    Some(
        vals[0] * 0x1000000 + vals[1] * 0x10000 + vals[2] * 0x100 + vals[3],
    )
}

/// The dotted-quad text of an IPv4 address.
pub open spec fn spec_ipv4_text(a: u32) -> Seq<u8> {
    spec_dec_digits((a as nat) / 0x1000000) + seq![46u8] + spec_dec_digits(
        ((a as nat) / 0x10000) % 256,
    ) + seq![46u8] + spec_dec_digits(((a as nat) / 0x100) % 256) + seq![46u8] + spec_dec_digits(
        (a as nat) % 256,
    )
}

/// Appends `s` to `v`.
pub fn append_bytes(v: &mut Vec<u8>, s: &[u8])
    ensures
        final(v)@ == old(v)@ + s@,
{
    let mut i: usize = 0;
    proof {
        assert(old(v)@ + s@.take(0) =~= old(v)@);
    }
    while i < s.len()
        invariant
            i <= s@.len(),
            v@ == old(v)@ + s@.take(i as int),
        decreases s@.len() - i,
    {
        v.push(s[i]);
        proof {
            assert(old(v)@ + s@.take((i + 1) as int) =~= (old(v)@ + s@.take(i as int)).push(
                s@[i as int],
            ));
        }
        i = i + 1;
    }
    proof {
        assert(s@.take(s@.len() as int) =~= s@);
    }
}

/// An ASCII hexadecimal digit.
pub open spec fn is_hex(c: u8) -> bool {
    is_digit(c) || (97 <= c <= 102) || (65 <= c <= 70)
}

/// The value of one hexadecimal digit.
pub open spec fn hex_digit_val(c: u8) -> nat {
    if is_digit(c) {
        (c - 48) as nat
    } else if 97 <= c <= 102 {
        (c - 87) as nat
    } else if 65 <= c <= 70 {
        (c - 55) as nat
    } else {
        0
    }
}

/// The value of a hexadecimal digit string.
pub open spec fn hex_val(s: Seq<u8>) -> nat
    decreases s.len(),
{
    if s.len() == 0 {
        0
    } else {
        (hex_val(s.drop_last()) * 16 + hex_digit_val(s.last())) as nat
    }
}

/// A valid address group: one to four hexadecimal digits.
pub open spec fn hex_group_ok(s: Seq<u8>) -> bool {
    1 <= s.len() <= 4 && forall|i: int| 0 <= i < s.len() ==> is_hex(#[trigger] s[i])
}

pub open spec fn pow16(n: nat) -> nat
    decreases n,
{
    if n == 0 {
        1
    } else {
        16 * pow16((n - 1) as nat)
    }
}

pub proof fn lemma_hex_val_bound(s: Seq<u8>)
    ensures
        hex_val(s) < pow16(s.len()),
    decreases s.len(),
{
    if s.len() > 0 {
        lemma_hex_val_bound(s.drop_last());
        assert(hex_digit_val(s.last()) <= 15);
    }
}

/// Parses one address group as a 16-bit word.
pub fn parse_hex16(s: &[u8]) -> (r: Option<u16>)
    ensures
        match r {
            Some(v) => hex_group_ok(s@) && v == hex_val(s@),
            None => !hex_group_ok(s@),
        },
{
    if s.len() < 1 || s.len() > 4 {
        return None;
    }
    let mut acc: u16 = 0;
    let mut i: usize = 0;
    proof {
        assert(s@.take(0) =~= Seq::<u8>::empty());
    }
    while i < s.len()
        invariant
            i <= s@.len() <= 4,
            forall|j: int| 0 <= j < i ==> is_hex(#[trigger] s@[j]),
            acc == hex_val(s@.take(i as int)),
            acc < 65536,
        decreases s@.len() - i,
    {
        let c = s[i];
        let d: u16 = if 48 <= c && c <= 57 {
            (c - 48) as u16
        } else if 97 <= c && c <= 102 {
            (c - 87) as u16
        } else if 65 <= c && c <= 70 {
            (c - 55) as u16
        } else {
            return None;
        };
        proof {
            assert(s@.take((i + 1) as int).drop_last() =~= s@.take(i as int));
            assert(s@.take((i + 1) as int).last() == s@[i as int]);
            lemma_hex_val_bound(s@.take(i as int));
            assert(pow16(s@.take(i as int).len()) <= pow16(3)) by {
                lemma_pow16_le(s@.take(i as int).len(), 3);
            }
            assert(pow16(3) == 4096) by {
                reveal_with_fuel(pow16, 4);
            }
        }
        acc = acc * 16 + d;
        i = i + 1;
    }
    proof {
        assert(s@.take(s@.len() as int) =~= s@);
    }
    Some(acc)
}

pub proof fn lemma_pow16_le(m: nat, n: nat)
    requires
        m <= n,
    ensures
        pow16(m) <= pow16(n),
    decreases n,
{
    if m < n {
        lemma_pow16_le(m, (n - 1) as nat);
    }
}

/// The value of a big-endian sequence of 16-bit words.
pub open spec fn words_val(ws: Seq<u16>) -> nat
    decreases ws.len(),
{
    if ws.len() == 0 {
        0
    } else {
        (words_val(ws.drop_last()) * 65536 + ws.last()) as nat
    }
}

pub open spec fn pow65536(n: nat) -> nat
    decreases n,
{
    if n == 0 {
        1
    } else {
        65536 * pow65536((n - 1) as nat)
    }
}

pub proof fn lemma_words_val_bound(ws: Seq<u16>)
    ensures
        words_val(ws) < pow65536(ws.len()),
    decreases ws.len(),
{
    if ws.len() > 0 {
        lemma_words_val_bound(ws.drop_last());
    }
}

/// The first position where `::` starts in `s`, or `-1`.
pub open spec fn find_dc(s: Seq<u8>) -> int
    decreases s.len(),
{
    if s.len() < 2 {
        -1
    } else if s[0] == 58 && s[1] == 58 {
        0
    } else {
        let r = find_dc(s.drop_first());
        if r == -1 {
            -1
        } else {
            r + 1
        }
    }
}

proof fn lemma_find_dc_at(s: Seq<u8>, k: int)
    requires
        0 <= k,
        k + 1 < s.len(),
        s[k] == 58 && s[k + 1] == 58,
        forall|j: int| 0 <= j < k ==> !(#[trigger] s[j] == 58 && s[j + 1] == 58),
    ensures
        find_dc(s) == k,
    decreases s.len(),
{
    if k > 0 {
        lemma_find_dc_at(s.drop_first(), k - 1);
    }
}

proof fn lemma_find_dc_none(s: Seq<u8>)
    requires
        forall|j: int| 0 <= j && j + 1 < s.len() ==> !(#[trigger] s[j] == 58 && s[j + 1] == 58),
    ensures
        find_dc(s) == -1,
    decreases s.len(),
{
    if s.len() >= 2 {
        lemma_find_dc_none(s.drop_first());
    }
}

/// Finds the first `::` in `b`.
pub fn find_double_colon(b: &[u8]) -> (r: Option<usize>)
    ensures
        match r {
            Some(k) => find_dc(b@) == k && k + 2 <= b@.len(),
            None => find_dc(b@) == -1,
        },
{
    let n = b.len();
    if n < 2 {
        proof {
            lemma_find_dc_none(b@);
        }
        return None;
    }
    let mut i: usize = 0;
    while i < n - 1
        invariant
            2 <= n == b@.len(),
            i <= n - 1,
            forall|j: int| 0 <= j < i ==> !(#[trigger] b@[j] == 58 && b@[j + 1] == 58),
        decreases b@.len() - i,
    {
        if b[i] == 58 && b[i + 1] == 58 {
            proof {
                lemma_find_dc_at(b@, i as int);
            }
            return Some(i);
        }
        i = i + 1;
    }
    proof {
        lemma_find_dc_none(b@);
    }
    None
}

/// Copies bytes `from..to` of `b`.
pub fn slice_copy(b: &[u8], from: usize, to: usize) -> (r: Vec<u8>)
    requires
        from <= to <= b@.len(),
    ensures
        r@ == b@.subrange(from as int, to as int),
{
    let mut v: Vec<u8> = Vec::new();
    let mut i: usize = from;
    proof {
        assert(b@.subrange(from as int, from as int) =~= Seq::<u8>::empty());
    }
    while i < to
        invariant
            from <= i <= to <= b@.len(),
            v@ == b@.subrange(from as int, i as int),
        decreases to - i,
    {
        v.push(b[i]);
        proof {
            assert(b@.subrange(from as int, (i + 1) as int) =~= b@.subrange(
                from as int,
                i as int,
            ).push(b@[i as int]));
        }
        i = i + 1;
    }
    v
}

/// The 16-bit words a group list denotes.
pub open spec fn hex_words(ps: Seq<Seq<u8>>) -> Seq<u16> {
    ps.map_values(|p: Seq<u8>| (hex_val(p) as u16))
}

/// Every group is well formed.
pub open spec fn all_groups_ok(ps: Seq<Seq<u8>>) -> bool {
    forall|i: int| 0 <= i < ps.len() ==> hex_group_ok(#[trigger] ps[i])
}

/// The group lists on the two sides of a compressed address, or of the
/// whole address when it has no compression (then the right side is
/// empty and the left must have all eight groups).
pub open spec fn spec_v6_words(lg: Seq<Seq<u8>>, rg: Seq<Seq<u8>>) -> Seq<u16> {
    hex_words(lg) + Seq::new((8 - lg.len() - rg.len()) as nat, |i: int| 0u16) + hex_words(rg)
}

/// What an IPv6 address literal denotes: eight colon-separated groups of
/// one to four hexadecimal digits, or two runs of groups joined by one
/// `::` standing for the missing zero groups. The mixed trailing-IPv4
/// form is not recognized.
pub open spec fn spec_parse_ipv6(s: Seq<u8>) -> Option<u128> {
    let d = find_dc(s);
    if d == -1 {
        let p = split_at_seps(s, 58);
        if p.len() == 8 && all_groups_ok(p) {
            Some(words_val(spec_v6_words(p, Seq::empty())) as u128)
        } else {
            None
        }
    } else {
        let left = s.take(d);
        let right = s.skip(d + 2);
        if find_dc(right) != -1 || (right.len() > 0 && right[0] == 58) {
            None
        } else {
            let lg = if left.len() == 0 {
                Seq::<Seq<u8>>::empty()
            } else {
                split_at_seps(left, 58)
            };
            let rg = if right.len() == 0 {
                Seq::<Seq<u8>>::empty()
            } else {
                split_at_seps(right, 58)
            };
            if all_groups_ok(lg) && all_groups_ok(rg) && lg.len() + rg.len() <= 7 {
                Some(words_val(spec_v6_words(lg, rg)) as u128)
            } else {
                None
            }
        }
    }
}

/// Folds a full eight-word group vector into the address value.
fn fold_words(groups: &Vec<u16>) -> (r: u128)
    requires
        groups@.len() == 8,
    ensures
        r == words_val(groups@),
{
    let mut acc: u128 = 0;
    let mut k: usize = 0;
    proof {
        assert(groups@.take(0) =~= Seq::<u16>::empty());
    }
    while k < 8
        invariant
            k <= 8,
            groups@.len() == 8,
            acc == words_val(groups@.take(k as int)),
        decreases 8 - k,
    {
        proof {
            assert(groups@.take((k + 1) as int).drop_last() =~= groups@.take(k as int));
            assert(groups@.take((k + 1) as int).last() == groups@[k as int]);
            lemma_words_val_bound(groups@.take(k as int));
            lemma_pow65536_le(((k as int) as nat), 7);
            lemma_pow65536_8();
            assert(acc * 65536 + 65535 < pow65536((k + 1) as nat)) by (nonlinear_arith)
                requires
                    acc < pow65536(k as nat),
            ;
        }
        acc = acc * 65536 + (groups[k] as u128);
        k = k + 1;
    }
    proof {
        assert(groups@.take(8) =~= groups@);
    }
    acc
}

proof fn lemma_pow65536_le(m: nat, n: nat)
    requires
        m <= n,
    ensures
        pow65536(m) <= pow65536(n),
    decreases n,
{
    if m < n {
        lemma_pow65536_le(m, (n - 1) as nat);
    }
}

proof fn lemma_pow65536_8()
    ensures
        pow65536(8) == 0x100000000000000000000000000000000,
{
    reveal_with_fuel(pow65536, 9);
}

/// Parses an IPv6 address literal.
#[verifier::loop_isolation(false)]
pub fn parse_ipv6(s: &[u8]) -> (r: Option<u128>)
    ensures
        r == spec_parse_ipv6(s@),
{
    match find_double_colon(s) {
        None => {
            let parts = split_bytes(s, 58);
            let ghost pv = split_at_seps(s@, 58);
            proof {
                let mapped = parts@.map_values(|p: Vec<u8>| p@);
                assert(forall|j: int|
                    0 <= j < parts@.len() ==> mapped[j] == #[trigger] parts@[j]@);
                assert(pv =~= mapped);
            }
            if parts.len() != 8 {
                return None;
            }
            let mut groups: Vec<u16> = Vec::new();
            let mut k: usize = 0;
            while k < 8
                invariant
                    k <= 8,
                    parts@.len() == 8,
                    pv == split_at_seps(s@, 58),
                    pv.len() == 8,
                    forall|j: int| 0 <= j < 8 ==> pv[j] == #[trigger] parts@[j]@,
                    groups@.len() == k,
                    forall|j: int|
                        0 <= j < k ==> hex_group_ok(#[trigger] pv[j]) && groups@[j] == hex_val(
                            pv[j],
                        ),
                decreases 8 - k,
            {
                match parse_hex16(parts[k].as_slice()) {
                    Some(v) => {
                        proof {
                            lemma_hex_val_bound(pv[k as int]);
                            lemma_pow16_le(pv[k as int].len(), 4);
                            assert(pow16(4) == 65536) by {
                                reveal_with_fuel(pow16, 5);
                            }
                        }
                        groups.push(v);
                    },
                    None => {
                        proof {
                            assert(!hex_group_ok(pv[k as int]));
                            assert(!all_groups_ok(pv));
                        }
                        return None;
                    },
                }
                k = k + 1;
            }
            proof {
                assert(all_groups_ok(pv));
                assert(groups@ =~= spec_v6_words(pv, Seq::empty())) by {
                    assert(hex_words(Seq::<Seq<u8>>::empty()) =~= Seq::<u16>::empty());
                    assert forall|j: int| 0 <= j < 8 implies spec_v6_words(pv, Seq::empty())[j]
                        == groups@[j] by {
                        assert(hex_words(pv)[j] == (hex_val(pv[j]) as u16));
                        lemma_hex_val_bound(pv[j]);
                        lemma_pow16_le(pv[j].len(), 4);
                        assert(pow16(4) == 65536) by {
                            reveal_with_fuel(pow16, 5);
                        }
                    }
                }
            }
            Some(fold_words(&groups))
        },
        Some(d) => {
            let n = s.len();
            let right = slice_copy(s, d + 2, n);
            let ghost rgt = s@.skip(d + 2);
            proof {
                assert(right@ =~= rgt);
            }
            if right.len() > 0 && right[0] == 58 {
                return None;
            }
            match find_double_colon(right.as_slice()) {
                Some(_) => {
                    return None;
                },
                None => {},
            }
            let left = slice_copy(s, 0, d);
            let ghost lft = s@.take(d as int);
            proof {
                assert(left@ =~= lft);
            }
            let lparts: Vec<Vec<u8>> = if left.len() == 0 {
                Vec::new()
            } else {
                split_bytes(left.as_slice(), 58)
            };
            let rparts: Vec<Vec<u8>> = if right.len() == 0 {
                Vec::new()
            } else {
                split_bytes(right.as_slice(), 58)
            };
            let ghost lg = if lft.len() == 0 {
                Seq::<Seq<u8>>::empty()
            } else {
                split_at_seps(lft, 58)
            };
            let ghost rg = if rgt.len() == 0 {
                Seq::<Seq<u8>>::empty()
            } else {
                split_at_seps(rgt, 58)
            };
            proof {
                let lm = lparts@.map_values(|p: Vec<u8>| p@);
                assert(forall|j: int|
                    0 <= j < lparts@.len() ==> lm[j] == #[trigger] lparts@[j]@);
                assert(lg =~= lm);
                let rm = rparts@.map_values(|p: Vec<u8>| p@);
                assert(forall|j: int|
                    0 <= j < rparts@.len() ==> rm[j] == #[trigger] rparts@[j]@);
                assert(rg =~= rm);
            }
            let l = lparts.len();
            let rn = rparts.len();
            if l > 7 || rn > 7 || l + rn > 7 {
                return None;
            }
            let mut groups: Vec<u16> = Vec::new();
            let mut k: usize = 0;
            while k < l
                invariant
                    k <= l == lparts@.len(),
                    lg.len() == l,
                    forall|j: int| 0 <= j < l ==> lg[j] == #[trigger] lparts@[j]@,
                    groups@.len() == k,
                    forall|j: int|
                        0 <= j < k ==> hex_group_ok(#[trigger] lg[j]) && groups@[j] == hex_val(
                            lg[j],
                        ),
                decreases l - k,
            {
                match parse_hex16(lparts[k].as_slice()) {
                    Some(v) => {
                        groups.push(v);
                    },
                    None => {
                        proof {
                            assert(!hex_group_ok(lg[k as int]));
                            assert(!all_groups_ok(lg));
                        }
                        return None;
                    },
                }
                k = k + 1;
            }
            let zeros = 8 - l - rn;
            let mut z: usize = 0;
            while z < zeros
                invariant
                    z <= zeros,
                    groups@.len() == l + z,
                    lg.len() == l,
                    forall|j: int|
                        0 <= j < l ==> hex_group_ok(#[trigger] lg[j]) && groups@[j] == hex_val(
                            lg[j],
                        ),
                    forall|j: int| l <= j < l + z ==> groups@[j] == 0u16,
                decreases zeros - z,
            {
                groups.push(0);
                z = z + 1;
            }
            let mut k2: usize = 0;
            while k2 < rn
                invariant
                    k2 <= rn == rparts@.len(),
                    rg.len() == rn,
                    zeros == 8 - l - rn,
                    forall|j: int| 0 <= j < rn ==> rg[j] == #[trigger] rparts@[j]@,
                    groups@.len() == l + zeros + k2,
                    lg.len() == l,
                    forall|j: int|
                        0 <= j < l ==> hex_group_ok(#[trigger] lg[j]) && groups@[j] == hex_val(
                            lg[j],
                        ),
                    forall|j: int| l <= j < l + zeros ==> groups@[j] == 0u16,
                    forall|j: int|
                        0 <= j < k2 ==> hex_group_ok(#[trigger] rg[j]) && groups@[l + zeros + j]
                            == hex_val(rg[j]),
                decreases rn - k2,
            {
                match parse_hex16(rparts[k2].as_slice()) {
                    Some(v) => {
                        groups.push(v);
                    },
                    None => {
                        proof {
                            assert(!hex_group_ok(rg[k2 as int]));
                            assert(!all_groups_ok(rg));
                        }
                        return None;
                    },
                }
                k2 = k2 + 1;
            }
            proof {
                assert(all_groups_ok(lg));
                assert(all_groups_ok(rg));
                assert(groups@ =~= spec_v6_words(lg, rg)) by {
                    assert forall|j: int| 0 <= j < groups@.len() implies groups@[j]
                        == spec_v6_words(lg, rg)[j] by {
                        if j < l {
                            assert(hex_words(lg)[j] == (hex_val(lg[j]) as u16));
                            lemma_hex_val_bound(lg[j]);
                            lemma_pow16_le(lg[j].len(), 4);
                            assert(pow16(4) == 65536) by {
                                reveal_with_fuel(pow16, 5);
                            }
                        } else if j < l + zeros {
                        } else {
                            let i = j - l - zeros;
                            assert(hex_words(rg)[i] == (hex_val(rg[i]) as u16));
                            lemma_hex_val_bound(rg[i]);
                            lemma_pow16_le(rg[i].len(), 4);
                            assert(pow16(4) == 65536) by {
                                reveal_with_fuel(pow16, 5);
                            }
                        }
                    }
                }
            }
            Some(fold_words(&groups))
        },
    }
}

/// What an address literal denotes: a dotted quad, or an IPv6 literal.
pub open spec fn spec_parse_addr(s: Seq<u8>) -> Option<Addr> {
    match spec_parse_ipv4(s) {
        Some(a) => Some(Addr::V4(a)),
        None => match spec_parse_ipv6(s) {
            Some(a) => Some(Addr::V6(a)),
            None => None,
        },
    }
}

/// Parses an address literal of either family.
pub fn parse_addr(s: &[u8]) -> (r: Option<Addr>)
    ensures
        r == spec_parse_addr(s@),
{
    match parse_ipv4(s) {
        Some(a) => Some(Addr::V4(a)),
        None => match parse_ipv6(s) {
            Some(a) => Some(Addr::V6(a)),
            None => None,
        },
    }
}

/// A valid prefix-length field: nonempty digits up to `max`.
pub open spec fn prefix_field_ok(s: Seq<u8>, max: nat) -> bool {
    s.len() >= 1 && all_digits(s) && dec_val(s) <= max
}

/// What a `network/prefix` block literal denotes: a network address of
/// either family, a slash, and a prefix length that fits the family.
pub open spec fn spec_parse_cidr(s: Seq<u8>) -> Option<Cidr> {
    let p = split_at_seps(s, 47);
    if p.len() == 2 {
        match spec_parse_addr(p[0]) {
            Some(Addr::V4(a)) => if prefix_field_ok(p[1], 32) {
                Some(Cidr { net: Addr::V4(a), prefix: dec_val(p[1]) as u8 })
            } else {
                None
            },
            Some(Addr::V6(a)) => if prefix_field_ok(p[1], 128) {
                Some(Cidr { net: Addr::V6(a), prefix: dec_val(p[1]) as u8 })
            } else {
                None
            },
            None => None,
        }
    } else {
        None
    }
}

/// Parses a `network/prefix` block literal; the result is well formed.
pub fn parse_cidr(s: &[u8]) -> (r: Option<Cidr>)
    ensures
        r == spec_parse_cidr(s@),
        match r {
            Some(c) => c.wf(),
            None => true,
        },
{
    let parts = split_bytes(s, 47);
    let ghost pv = split_at_seps(s@, 47);
    proof {
        let mapped = parts@.map_values(|p: Vec<u8>| p@);
        assert(forall|j: int| 0 <= j < parts@.len() ==> mapped[j] == #[trigger] parts@[j]@);
        assert(pv =~= mapped);
    }
    if parts.len() != 2 {
        return None;
    }
    let net = match parse_addr(parts[0].as_slice()) {
        Some(a) => a,
        None => {
            return None;
        },
    };
    let max: u32 = match net {
        Addr::V4(_) => 32,
        Addr::V6(_) => 128,
    };
    match parse_dec_u32(parts[1].as_slice()) {
        Some(v) => {
            if v > max {
                None
            } else {
                Some(Cidr { net, prefix: v as u8 })
            }
        },
        None => None,
    }
}

/// A valid port field: nonempty digits below 65536.
pub open spec fn port_field_ok(s: Seq<u8>) -> bool {
    s.len() >= 1 && all_digits(s) && dec_val(s) <= 65535
}

/// What an endpoint literal denotes: `address:port` with a dotted-quad
/// address, or `[address]:port` with an IPv6 one.
pub open spec fn spec_parse_endpoint(s: Seq<u8>) -> Option<Endpoint> {
    if s.len() > 0 && s[0] == 91 {
        let j = find_first(s, 93);
        if j >= 1 {
            let inner = s.subrange(1, j);
            let rest = s.skip(j + 1);
            if rest.len() >= 2 && rest[0] == 58 && port_field_ok(rest.skip(1)) {
                match spec_parse_ipv6(inner) {
                    Some(a) => Some(
                        Endpoint { addr: Addr::V6(a), port: dec_val(rest.skip(1)) as u16 },
                    ),
                    None => None,
                }
            } else {
                None
            }
        } else {
            None
        }
    } else {
        let p = split_at_seps(s, 58);
        if p.len() == 2 && port_field_ok(p[1]) {
            match spec_parse_ipv4(p[0]) {
                Some(a) => Some(Endpoint { addr: Addr::V4(a), port: dec_val(p[1]) as u16 }),
                None => None,
            }
        } else {
            None
        }
    }
}

/// Finds the first occurrence of `sep` in `b`.
pub fn find_byte(b: &[u8], sep: u8) -> (r: Option<usize>)
    ensures
        match r {
            Some(k) => find_first(b@, sep) == k && k < b@.len(),
            None => find_first(b@, sep) == -1,
        },
{
    let mut i: usize = 0;
    while i < b.len()
        invariant
            i <= b@.len(),
            forall|j: int| 0 <= j < i ==> b@[j] != sep,
        decreases b@.len() - i,
    {
        if b[i] == sep {
            proof {
                lemma_find_first_at(b@, sep, i as int);
            }
            return Some(i);
        }
        i = i + 1;
    }
    proof {
        lemma_find_first_none(b@, sep);
    }
    None
}

proof fn lemma_find_first_at(s: Seq<u8>, sep: u8, k: int)
    requires
        0 <= k < s.len(),
        s[k] == sep,
        forall|j: int| 0 <= j < k ==> s[j] != sep,
    ensures
        find_first(s, sep) == k,
    decreases s.len(),
{
    if k > 0 {
        lemma_find_first_at(s.drop_first(), sep, k - 1);
    }
}

proof fn lemma_find_first_none(s: Seq<u8>, sep: u8)
    requires
        forall|j: int| 0 <= j < s.len() ==> s[j] != sep,
    ensures
        find_first(s, sep) == -1,
    decreases s.len(),
{
    if s.len() > 0 {
        lemma_find_first_none(s.drop_first(), sep);
    }
}

/// Parses an endpoint literal of either family.
#[verifier::loop_isolation(false)]
pub fn parse_endpoint(s: &[u8]) -> (r: Option<Endpoint>)
    ensures
        r == spec_parse_endpoint(s@),
{
    if s.len() > 0 && s[0] == 91 {
        let n = s.len();
        let j = match find_byte(s, 93) {
            Some(j) => j,
            None => {
                return None;
            },
        };
        if j < 1 {
            return None;
        }
        let inner = slice_copy(s, 1, j);
        let rest = slice_copy(s, j + 1, n);
        proof {
            assert(inner@ =~= s@.subrange(1, j as int));
            assert(rest@ =~= s@.skip(j + 1));
        }
        if rest.len() < 2 || rest[0] != 58 {
            return None;
        }
        let portb = slice_copy(rest.as_slice(), 1, rest.len());
        proof {
            assert(portb@ =~= rest@.skip(1));
        }
        let port = match parse_dec_u32(portb.as_slice()) {
            Some(v) => {
                if v > 65535 {
                    return None;
                }
                v
            },
            None => {
                return None;
            },
        };
        match parse_ipv6(inner.as_slice()) {
            Some(a) => Some(Endpoint { addr: Addr::V6(a), port: port as u16 }),
            None => None,
        }
    } else {
        let parts = split_bytes(s, 58);
        let ghost pv = split_at_seps(s@, 58);
        proof {
            let mapped = parts@.map_values(|p: Vec<u8>| p@);
            assert(forall|j: int| 0 <= j < parts@.len() ==> mapped[j] == #[trigger] parts@[j]@);
            assert(pv =~= mapped);
        }
        if parts.len() != 2 {
            return None;
        }
        let port = match parse_dec_u32(parts[1].as_slice()) {
            Some(v) => {
                if v > 65535 {
                    return None;
                }
                v
            },
            None => {
                return None;
            },
        };
        let addr = match parse_ipv4(parts[0].as_slice()) {
            Some(a) => a,
            None => {
                return None;
            },
        };
        Some(Endpoint { addr: Addr::V4(addr), port: port as u16 })
    }
}

/// `s` with every ASCII whitespace byte replaced by a space.
pub open spec fn ws_normal(s: Seq<u8>) -> Seq<u8>
    decreases s.len(),
{
    if s.len() == 0 {
        Seq::empty()
    } else {
        ws_normal(s.drop_last()).push(
            if crate::keys::is_ws(s.last()) {
                32u8
            } else {
                s.last()
            },
        )
    }
}

/// The nonempty elements, in order.
pub open spec fn nonempty_parts(ps: Seq<Seq<u8>>) -> Seq<Seq<u8>>
    decreases ps.len(),
{
    if ps.len() == 0 {
        Seq::empty()
    } else {
        let r = nonempty_parts(ps.drop_last());
        if ps.last().len() > 0 {
            r.push(ps.last())
        } else {
            r
        }
    }
}

/// The whitespace-separated words of `s`.
pub open spec fn spec_tokens(s: Seq<u8>) -> Seq<Seq<u8>> {
    nonempty_parts(split_at_seps(ws_normal(s), 32))
}

/// The first index of `w` among `ts`, or `-1`.
pub open spec fn token_index(ts: Seq<Seq<u8>>, w: Seq<u8>) -> int
    decreases ts.len(),
{
    if ts.len() == 0 {
        -1
    } else if ts.first() == w {
        0
    } else {
        let r = token_index(ts.drop_first(), w);
        if r == -1 {
            -1
        } else {
            r + 1
        }
    }
}

proof fn lemma_token_index_at(ts: Seq<Seq<u8>>, w: Seq<u8>, k: int)
    requires
        0 <= k < ts.len(),
        ts[k] == w,
        forall|j: int| 0 <= j < k ==> ts[j] != w,
    ensures
        token_index(ts, w) == k,
    decreases ts.len(),
{
    if k > 0 {
        lemma_token_index_at(ts.drop_first(), w, k - 1);
    }
}

proof fn lemma_token_index_none(ts: Seq<Seq<u8>>, w: Seq<u8>)
    requires
        forall|j: int| 0 <= j < ts.len() ==> ts[j] != w,
    ensures
        token_index(ts, w) == -1,
    decreases ts.len(),
{
    if ts.len() > 0 {
        lemma_token_index_none(ts.drop_first(), w);
    }
}

/// The word after `dev` in the textual description of a route, as `ip
/// route show default` prints it; `None` when no word follows a `dev`.
pub fn parse_route_dev(out: &[u8]) -> (r: Option<Vec<u8>>)
    ensures
        ({
            let ts = spec_tokens(out@);
            let f = token_index(ts, seq![100u8, 101u8, 118u8]);
            match r {
                Some(v) => f >= 0 && f + 1 < ts.len() && v@ == ts[f + 1],
                None => f == -1 || f + 1 >= ts.len(),
            }
        }),
{
    let ghost dev_word: Seq<u8> = seq![100u8, 101u8, 118u8];
    let mut norm: Vec<u8> = Vec::new();
    let mut i: usize = 0;
    proof {
        assert(ws_normal(out@.take(0)) =~= Seq::<u8>::empty());
    }
    while i < out.len()
        invariant
            i <= out@.len(),
            norm@ == ws_normal(out@.take(i as int)),
        decreases out@.len() - i,
    {
        let c = out[i];
        proof {
            assert(out@.take((i + 1) as int).drop_last() =~= out@.take(i as int));
            assert(out@.take((i + 1) as int).last() == out@[i as int]);
        }
        if c == 32 || c == 9 || c == 10 || c == 13 || c == 11 || c == 12 {
            norm.push(32);
        } else {
            norm.push(c);
        }
        i = i + 1;
    }
    proof {
        assert(out@.take(out@.len() as int) =~= out@);
    }
    let parts = split_bytes(norm.as_slice(), 32);
    let ghost pv = split_at_seps(ws_normal(out@), 32);
    proof {
        let mapped = parts@.map_values(|p: Vec<u8>| p@);
        assert(forall|j: int| 0 <= j < parts@.len() ==> mapped[j] == #[trigger] parts@[j]@);
        assert(pv =~= mapped);
    }
    let mut toks: Vec<Vec<u8>> = Vec::new();
    let ghost tv = spec_tokens(out@);
    let mut k: usize = 0;
    proof {
        assert(nonempty_parts(pv.take(0)) =~= Seq::<Seq<u8>>::empty());
    }
    while k < parts.len()
        invariant
            k <= parts@.len(),
            pv == split_at_seps(ws_normal(out@), 32),
            pv.len() == parts@.len(),
            forall|j: int| 0 <= j < parts@.len() ==> pv[j] == #[trigger] parts@[j]@,
            toks@.map_values(|p: Vec<u8>| p@) == nonempty_parts(pv.take(k as int)),
        decreases parts@.len() - k,
    {
        proof {
            assert(pv.take((k + 1) as int).drop_last() =~= pv.take(k as int));
            assert(pv.take((k + 1) as int).last() == pv[k as int]);
        }
        if parts[k].len() > 0 {
            let ghost before = toks@.map_values(|p: Vec<u8>| p@);
            let mut part: Vec<u8> = Vec::new();
            append_bytes(&mut part, parts[k].as_slice());
            toks.push(part);
            proof {
                assert(toks@.map_values(|p: Vec<u8>| p@) =~= before.push(pv[k as int]));
            }
        }
        k = k + 1;
    }
    proof {
        assert(pv.take(pv.len() as int) =~= pv);
        assert(toks@.map_values(|p: Vec<u8>| p@) == tv);
    }
    let mut f: usize = 0;
    let n = toks.len();
    while f < n
        invariant
            f <= n == toks@.len(),
            tv == spec_tokens(out@),
            toks@.map_values(|p: Vec<u8>| p@) == tv,
            forall|j: int| 0 <= j < f ==> tv[j] != seq![100u8, 101u8, 118u8],
        decreases n - f,
    {
        let mut dev: Vec<u8> = Vec::new();
        dev.push(100);
        dev.push(101);
        dev.push(118);
        proof {
            assert(dev@ =~= seq![100u8, 101u8, 118u8]);
            assert(toks@.map_values(|p: Vec<u8>| p@)[f as int] == toks@[f as int]@);
        }
        if crate::peers::bytes_eq(toks[f].as_slice(), dev.as_slice()) {
            proof {
                lemma_token_index_at(tv, seq![100u8, 101u8, 118u8], f as int);
            }
            if f + 1 < n {
                let mut outv: Vec<u8> = Vec::new();
                append_bytes(&mut outv, toks[f + 1].as_slice());
                proof {
                    assert(toks@.map_values(|p: Vec<u8>| p@)[(f + 1) as int] == toks@[(f
                        + 1) as int]@);
                }
                return Some(outv);
            } else {
                return None;
            }
        }
        f = f + 1;
    }
    proof {
        lemma_token_index_none(tv, seq![100u8, 101u8, 118u8]);
    }
    None
}

/// Writes an IPv4 address as dotted-quad text.
pub fn fmt_ipv4(a: u32) -> (r: Vec<u8>)
    ensures
        r@ == spec_ipv4_text(a),
{
    let mut v = fmt_u32_dec(a / 0x1000000);
    v.push(46);
    let o1 = fmt_u32_dec((a / 0x10000) % 256);
    append_bytes(&mut v, o1.as_slice());
    v.push(46);
    let o2 = fmt_u32_dec((a / 0x100) % 256);
    append_bytes(&mut v, o2.as_slice());
    v.push(46);
    let o3 = fmt_u32_dec(a % 256);
    append_bytes(&mut v, o3.as_slice());
    proof {
        assert(v@ =~= spec_ipv4_text(a));
    }
    v
}

} // verus!

//! Big-endian byte encoding: the REL and GCI formats store every multibyte
//! integer big-endian, and the ELF inputs accepted here are big-endian too.

use vstd::prelude::*;

verus! {

/// The two big-endian bytes of a `u16`.
#[verifier::opaque]
pub open spec fn be16(x: u16) -> Seq<u8> {
    seq![(x / 0x100) as u8, (x % 0x100) as u8]
}

/// The four big-endian bytes of a `u32`.
#[verifier::opaque]
pub open spec fn be32(x: u32) -> Seq<u8> {
    seq![
        (x / 0x1000000) as u8,
        ((x / 0x10000) % 0x100) as u8,
        ((x / 0x100) % 0x100) as u8,
        (x % 0x100) as u8,
    ]
}

/// The encodings have fixed lengths.
pub broadcast proof fn lemma_be16_len(x: u16)
    ensures
        (#[trigger] be16(x)).len() == 2,
{
    reveal(be16);
}

pub broadcast proof fn lemma_be32_len(x: u32)
    ensures
        (#[trigger] be32(x)).len() == 4,
{
    reveal(be32);
}

/// Reading back the two bytes of `be16` gives the value.
pub proof fn lemma_u16_at_be16(x: u16)
    ensures
        u16_at(be16(x), 0) == x,
{
    reveal(be16);
    vstd::arithmetic::div_mod::lemma_fundamental_div_mod(x as int, 0x100);
}

/// Reading back the four bytes of `be32` gives the value.
pub proof fn lemma_u32_at_be32(x: u32)
    ensures
        u32_at(be32(x), 0) == x,
{
    reveal(be32);
    let xi = x as int;
    vstd::arithmetic::div_mod::lemma_fundamental_div_mod(xi, 0x100);
    vstd::arithmetic::div_mod::lemma_fundamental_div_mod(xi / 0x100, 0x100);
    vstd::arithmetic::div_mod::lemma_fundamental_div_mod(xi / 0x10000, 0x100);
    vstd::arithmetic::div_mod::lemma_div_denominator(xi, 0x100, 0x100);
    vstd::arithmetic::div_mod::lemma_div_denominator(xi, 0x10000, 0x100);
}

/// The `u16` read big-endian at offset `i` of `b`.
pub open spec fn u16_at(b: Seq<u8>, i: int) -> u16
    recommends
        0 <= i,
        i + 2 <= b.len(),
{
    (b[i] as u16 * 0x100 + b[i + 1] as u16) as u16
}

/// The `u32` read big-endian at offset `i` of `b`.
pub open spec fn u32_at(b: Seq<u8>, i: int) -> u32
    recommends
        0 <= i,
        i + 4 <= b.len(),
{
    (b[i] as u32 * 0x1000000 + b[i + 1] as u32 * 0x10000 + b[i + 2] as u32 * 0x100 + b[i
        + 3] as u32) as u32
}

/// A sequence of `n` zero bytes.
pub open spec fn zeros(n: int) -> Seq<u8> {
    Seq::new(n as nat, |i: int| 0u8)
}

/// `n` rounded up to the next multiple of `a` (`a > 0`).
pub open spec fn round_up(n: int, a: int) -> int
    recommends
        a > 0,
{
    ((n + a - 1) / a) * a
}

/// `s` with the bytes of `r` written over positions `at .. at + r.len()`.
pub open spec fn splice(s: Seq<u8>, at: int, r: Seq<u8>) -> Seq<u8>
    recommends
        0 <= at,
        at + r.len() <= s.len(),
{
    s.subrange(0, at).add(r).add(s.subrange(at + r.len(), s.len() as int))
}

pub proof fn lemma_round_up(n: int, a: int)
    requires
        0 <= n,
        0 < a,
    ensures
        n <= round_up(n, a) < n + a,
        round_up(n, a) % a == 0,
        n % a == 0 ==> round_up(n, a) == n,
{
    let m = n + a - 1;
    let q = m / a;
    let r = m % a;
    vstd::arithmetic::div_mod::lemma_fundamental_div_mod(m, a);
    vstd::arithmetic::div_mod::lemma_mod_bound(m, a);
    assert(a * q == q * a) by (nonlinear_arith);
    assert(round_up(n, a) == m - r);
    vstd::arithmetic::div_mod::lemma_mod_multiples_basic(q, a);
    if n % a == 0 {
        vstd::arithmetic::div_mod::lemma_fundamental_div_mod(n, a);
        let qn = n / a;
        assert(n == a * qn);
        assert(m == qn * a + (a - 1)) by (nonlinear_arith)
            requires
                n == a * qn && m == n + a - 1,
        ;
        vstd::arithmetic::div_mod::lemma_fundamental_div_mod_converse(m, a, qn, a - 1);
        assert(round_up(n, a) == qn * a);
        assert(qn * a == a * qn) by (nonlinear_arith);
    }
}

/// Reads the big-endian `u16` at offset `i`.
pub fn read_u16_be(b: &[u8], i: usize) -> (r: u16)
    requires
        i + 2 <= b@.len(),
    ensures
        r == u16_at(b@, i as int),
{
    let hi: u16 = b[i] as u16;
    let lo: u16 = b[i + 1] as u16;
    hi * 0x100 + lo
}

/// Reads the big-endian `u32` at offset `i`.
pub fn read_u32_be(b: &[u8], i: usize) -> (r: u32)
    requires
        i + 4 <= b@.len(),
    ensures
        r == u32_at(b@, i as int),
{
    let b0: u32 = b[i] as u32;
    let b1: u32 = b[i + 1] as u32;
    let b2: u32 = b[i + 2] as u32;
    let b3: u32 = b[i + 3] as u32;
    b0 * 0x1000000 + b1 * 0x10000 + b2 * 0x100 + b3
}

/// Appends the two big-endian bytes of `x`.
pub fn push_u16_be(v: &mut Vec<u8>, x: u16)
    ensures
        final(v)@ == old(v)@ + be16(x),
{
    proof {
        reveal(be16);
    }
    v.push((x / 0x100) as u8);
    v.push((x % 0x100) as u8);
    assert(v@ =~= old(v)@ + be16(x));
}

/// Appends the four big-endian bytes of `x`.
pub fn push_u32_be(v: &mut Vec<u8>, x: u32)
    ensures
        final(v)@ == old(v)@ + be32(x),
{
    proof {
        reveal(be32);
    }
    v.push((x / 0x1000000) as u8);
    v.push(((x / 0x10000) % 0x100) as u8);
    v.push(((x / 0x100) % 0x100) as u8);
    v.push((x % 0x100) as u8);
    assert(v@ =~= old(v)@ + be32(x));
}

/// Overwrites the 4 bytes at `at` with the big-endian encoding of `x`.
pub fn set_u32_be(v: &mut Vec<u8>, at: usize, x: u32)
    requires
        at + 4 <= old(v)@.len(),
    ensures
        final(v)@ == splice(old(v)@, at as int, be32(x)),
{
    proof {
        reveal(be32);
        vstd::std_specs::vec::axiom_spec_len(v);
    }
    v.set(at, (x / 0x1000000) as u8);
    v.set(at + 1, ((x / 0x10000) % 0x100) as u8);
    v.set(at + 2, ((x / 0x100) % 0x100) as u8);
    v.set(at + 3, (x % 0x100) as u8);
    assert(v@ =~= splice(old(v)@, at as int, be32(x)));
}

/// Appends `n` zero bytes.
pub fn push_zeros(v: &mut Vec<u8>, n: usize)
    ensures
        final(v)@ == old(v)@ + zeros(n as int),
{
    let mut k: usize = 0;
    while k < n
        invariant
            k <= n,
            v@ == old(v)@ + zeros(k as int),
        decreases n - k,
    {
        v.push(0);
        assert(v@ =~= old(v)@ + zeros(k as int + 1));
        k = k + 1;
    }
}

/// Pads `v` with zero bytes to a multiple of `a`.
pub fn pad_to_multiple(v: &mut Vec<u8>, a: usize)
    requires
        0 < a,
        old(v)@.len() + a <= usize::MAX,
    ensures
        final(v)@ == old(v)@ + zeros(round_up(old(v)@.len() as int, a as int) - old(v)@.len()),
        final(v)@.len() == round_up(old(v)@.len() as int, a as int),
        final(v)@.len() as int % a as int == 0,
{
    proof {
        lemma_round_up(old(v)@.len() as int, a as int);
    }
    let r = v.len() % a;
    if r != 0 {
        let pad = a - r;
        proof {
            let n = old(v)@.len() as int;
            let q = a as int;
            assert(n == (n / q) * q + n % q) by (nonlinear_arith)
                requires
                    q > 0,
            ;
            assert(round_up(n, q) == n + (q - n % q)) by (nonlinear_arith)
                requires
                    q > 0,
                    n >= 0,
                    n % q != 0,
                    round_up(n, q) % q == 0,
                    n <= round_up(n, q) < n + q,
            ;
        }
        push_zeros(v, pad);
    }
}

/// Appends every byte of `data`.
pub fn push_bytes(v: &mut Vec<u8>, data: &Vec<u8>)
    ensures
        final(v)@ == old(v)@ + data@,
{
    let mut k: usize = 0;
    while k < data.len()
        invariant
            k <= data@.len(),
            v@ == old(v)@ + data@.take(k as int),
        decreases data@.len() - k,
    {
        v.push(data[k]);
        assert(v@ =~= old(v)@ + data@.take(k as int + 1));
        k = k + 1;
    }
    assert(v@ =~= old(v)@ + data@);
}

/// The low 32 bits of an integer (Euclidean remainder: always nonnegative).
pub open spec fn lo32(x: int) -> u32 {
    (x % 0x100000000) as u32
}

/// The low 32 bits of a `u64`.
pub fn lo32_u64(x: u64) -> (r: u32)
    ensures
        r == lo32(x as int),
{
    (x % 0x100000000) as u32
}

/// Adds two already-reduced values modulo 2^32.
pub proof fn lemma_lo32_add(x: int, y: int)
    requires
        x >= 0,
        y >= 0,
    ensures
        lo32(lo32(x) + lo32(y)) == lo32(x + y),
{
    vstd::arithmetic::div_mod::lemma_add_mod_noop(x, y, 0x100000000);
}

/// The in-place relocation delta, computed on reduced operands: adding the
/// modulus before subtracting keeps the intermediate nonnegative.
pub proof fn lemma_lo32_delta(d: int, a: int, p: int)
    requires
        d >= 0,
        0 <= a < 0x100000000,
        p >= 0,
    ensures
        lo32(lo32(d) + a + 0x100000000 - lo32(p)) == lo32(d + a - p),
{
    let m: int = 0x100000000;
    vstd::arithmetic::div_mod::lemma_mod_bound(d, m);
    vstd::arithmetic::div_mod::lemma_mod_bound(p, m);
    vstd::arithmetic::div_mod::lemma_small_mod(a as nat, m as nat);
    vstd::arithmetic::div_mod::lemma_mod_multiples_vanish(1, (d % m + a) - p % m, m);
    assert(m * 1 + ((d % m + a) - p % m) == d % m + a + m - p % m);
    vstd::arithmetic::div_mod::lemma_sub_mod_noop(d % m + a, p % m, m);
    vstd::arithmetic::div_mod::lemma_add_mod_noop(d, a, m);
    vstd::arithmetic::div_mod::lemma_small_mod((p % m) as nat, m as nat);
    vstd::arithmetic::div_mod::lemma_sub_mod_noop(d + a, p, m);
}

/// Writes `r` over `v` starting at `at` (the region must already exist).
pub fn splice_bytes(v: &mut Vec<u8>, at: usize, r: &Vec<u8>)
    requires
        at + r@.len() <= old(v)@.len(),
    ensures
        final(v)@ == splice(old(v)@, at as int, r@),
{
    proof {
        vstd::std_specs::vec::axiom_spec_len(v);
    }
    let mut k: usize = 0;
    while k < r.len()
        invariant
            k <= r@.len(),
            v@.len() <= usize::MAX,
            at + r@.len() <= v@.len(),
            v@.len() == old(v)@.len(),
            forall|j: int| 0 <= j < v@.len() && !(at <= j < at + k) ==> v@[j] == old(v)@[j],
            forall|j: int| at <= j < at + k ==> v@[j] == r@[j - at],
        decreases r@.len() - k,
    {
        v.set(at + k, r[k]);
        k = k + 1;
    }
    assert(v@ =~= splice(old(v)@, at as int, r@));
}

} // verus!

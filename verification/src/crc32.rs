//! The checksum engine: a 32-bit cyclic redundancy checksum over byte
//! sequences, using the reflected polynomial 0xEDB88320.
//!
//! `crc32_spec` is the mathematical definition: a table-driven,
//! byte-at-a-time fold. Two executable implementations are proved to
//! return exactly `crc32_spec`: `update_slow`, the byte-at-a-time
//! reference, and `update_fast_16`, a sixteen-byte-at-a-time unrolled
//! variant built on a matrix of sixteen derived lookup tables. Their
//! bit-for-bit agreement on every input follows from the two contracts.
use vstd::prelude::*;

verus! {

/// The generating transform: one bit step of the reflected CRC-32
/// polynomial division.
pub open spec fn crc_g(c: u32) -> u32 {
    if c & 1 == 1 {
        (c >> 1) ^ 0xEDB88320u32
    } else {
        c >> 1
    }
}

/// `crc_g` iterated `n` times.
pub open spec fn g_iter(n: nat, c: u32) -> u32
    decreases n,
{
    if n == 0 {
        c
    } else {
        crc_g(g_iter((n - 1) as nat, c))
    }
}

/// Entry `i` of the base lookup table: the byte `i` pushed through
/// eight bit steps.
pub open spec fn table0(i: u8) -> u32 {
    g_iter(8, i as u32)
}

/// One whole-byte step of the accumulator with no input byte: a table
/// lookup on the low byte combined with a byte shift.
pub open spec fn crc_step0(c: u32) -> u32 {
    table0((c & 0xFF) as u8) ^ (c >> 8)
}

/// One whole-byte step of the accumulator absorbing input byte `b`.
pub open spec fn crc_step(c: u32, b: u8) -> u32 {
    crc_step0(c ^ (b as u32))
}

/// `crc_step0` iterated `n` times.
pub open spec fn step0_iter(n: nat, c: u32) -> u32
    decreases n,
{
    if n == 0 {
        c
    } else {
        crc_step0(step0_iter((n - 1) as nat, c))
    }
}

/// Entry `i` of derived table `k`: the base table entry pushed through
/// `k` further whole-byte steps.
pub open spec fn crc_table(k: nat, i: u8) -> u32
    decreases k,
{
    if k == 0 {
        table0(i)
    } else {
        crc_step0(crc_table((k - 1) as nat, i))
    }
}

/// The accumulator after absorbing every byte of `s` in order,
/// starting from `c`.
pub open spec fn crc_fold(c: u32, s: Seq<u8>) -> u32
    decreases s.len(),
{
    if s.len() == 0 {
        c
    } else {
        crc_fold(crc_step(c, s[0]), s.drop_first())
    }
}

/// The checksum of `s` continuing from a previous checksum value:
/// complement in, fold, complement out.
pub open spec fn crc32_spec(prev: u32, s: Seq<u8>) -> u32 {
    !crc_fold(!prev, s)
}

/// The checksum over the empty sequence is the previous value
/// unchanged; in particular it is zero when started from zero.
pub proof fn lemma_crc32_empty(prev: u32)
    ensures
        crc32_spec(prev, Seq::<u8>::empty()) == prev,
{
    assert(!(!prev) == prev) by (bit_vector);
}

/// The one-bit transform distributes over exclusive or.
proof fn lemma_g_linear(a: u32, b: u32)
    ensures
        crc_g(a ^ b) == crc_g(a) ^ crc_g(b),
{
    assert(crc_g(a ^ b) == crc_g(a) ^ crc_g(b)) by (bit_vector);
}

/// The iterated one-bit transform distributes over exclusive or.
proof fn lemma_g_iter_linear(n: nat, a: u32, b: u32)
    ensures
        g_iter(n, a ^ b) == g_iter(n, a) ^ g_iter(n, b),
    decreases n,
{
    if n > 0 {
        lemma_g_iter_linear((n - 1) as nat, a, b);
        lemma_g_linear(g_iter((n - 1) as nat, a), g_iter((n - 1) as nat, b));
    }
}

/// The iterated one-bit transform sends zero to zero.
proof fn lemma_g_iter_zero(n: nat)
    ensures
        g_iter(n, 0) == 0,
    decreases n,
{
    if n > 0 {
        lemma_g_iter_zero((n - 1) as nat);
        assert(crc_g(0) == 0) by (bit_vector);
    }
}

/// The base table is a linear map over exclusive or, and sends zero
/// to zero.
proof fn lemma_table0_linear(i: u8, j: u8)
    ensures
        table0(i ^ j) == table0(i) ^ table0(j),
        table0(0) == 0,
{
    assert(((i ^ j) as u32) == (i as u32) ^ (j as u32)) by (bit_vector);
    lemma_g_iter_linear(8, i as u32, j as u32);
    lemma_g_iter_zero(8);
}

/// The whole-byte step distributes over exclusive or.
proof fn lemma_step0_linear(a: u32, b: u32)
    ensures
        crc_step0(a ^ b) == crc_step0(a) ^ crc_step0(b),
{
    let ia = (a & 0xFF) as u8;
    let ib = (b & 0xFF) as u8;
    assert((((a ^ b) & 0xFF) as u8) == ((a & 0xFF) as u8) ^ ((b & 0xFF) as u8)) by (bit_vector);
    assert((a ^ b) >> 8 == (a >> 8) ^ (b >> 8)) by (bit_vector);
    lemma_table0_linear(ia, ib);
    assert(crc_step0(a ^ b) == table0(ia ^ ib) ^ ((a >> 8) ^ (b >> 8)));
    let ta = table0(ia);
    let tb = table0(ib);
    let sa = a >> 8;
    let sb = b >> 8;
    assert((ta ^ tb) ^ (sa ^ sb) == (ta ^ sa) ^ (tb ^ sb)) by (bit_vector);
}

/// The iterated whole-byte step distributes over exclusive or.
proof fn lemma_iter_linear(n: nat, a: u32, b: u32)
    ensures
        step0_iter(n, a ^ b) == step0_iter(n, a) ^ step0_iter(n, b),
    decreases n,
{
    if n > 0 {
        lemma_iter_linear((n - 1) as nat, a, b);
        lemma_step0_linear(step0_iter((n - 1) as nat, a), step0_iter((n - 1) as nat, b));
    }
}

/// Applying the whole-byte step before `n` iterations is the same as
/// one more iteration.
proof fn lemma_iter_peel_inner(n: nat, c: u32)
    ensures
        step0_iter(n, crc_step0(c)) == step0_iter(n + 1, c),
    decreases n,
{
    if n == 0 {
        assert(step0_iter(1, c) == crc_step0(step0_iter(0, c)));
    } else {
        lemma_iter_peel_inner((n - 1) as nat, c);
        assert(step0_iter(n, crc_step0(c)) == crc_step0(step0_iter((n - 1) as nat, crc_step0(c))));
        assert(step0_iter(n + 1, c) == crc_step0(step0_iter(n, c)));
    }
}

/// Derived table `k` is the base table pushed through `k` iterations.
proof fn lemma_table_iter(k: nat, i: u8)
    ensures
        crc_table(k, i) == step0_iter(k, table0(i)),
    decreases k,
{
    if k > 0 {
        lemma_table_iter((k - 1) as nat, i);
    }
}

/// On a bare byte the whole-byte step is exactly a base-table lookup.
proof fn lemma_step0_low(b: u8)
    ensures
        crc_step0(b as u32) == table0(b),
{
    assert(((b as u32) & 0xFF) as u8 == b) by (bit_vector);
    assert((b as u32) >> 8 == 0) by (bit_vector);
    assert(table0(b) ^ 0 == table0(b)) by (bit_vector);
}

/// A byte absorbed and then iterated `n` more times lands on derived
/// table `n`.
proof fn lemma_iter_of_byte(n: nat, b: u8)
    ensures
        step0_iter(n + 1, b as u32) == crc_table(n, b),
{
    lemma_iter_peel_inner(n, b as u32);
    lemma_step0_low(b);
    assert(step0_iter(n, crc_step0(b as u32)) == step0_iter(n, table0(b)));
    lemma_table_iter(n, b);
}

/// Folding from an accumulator split by exclusive or: the second part
/// rides along through bare iterations.
proof fn lemma_fold_superpose(a: u32, b: u32, s: Seq<u8>)
    ensures
        crc_fold(a ^ b, s) == crc_fold(a, s) ^ step0_iter(s.len(), b),
    decreases s.len(),
{
    if s.len() == 0 {
    } else {
        let b0 = s[0];
        assert((a ^ b) ^ (b0 as u32) == (a ^ (b0 as u32)) ^ b) by (bit_vector);
        lemma_step0_linear(a ^ (b0 as u32), b);
        assert(crc_step(a ^ b, b0) == crc_step(a, b0) ^ crc_step0(b));
        lemma_fold_superpose(crc_step(a, b0), crc_step0(b), s.drop_first());
        lemma_iter_peel_inner((s.len() - 1) as nat, b);
    }
}

/// The fold of `s` from zero, written as an exclusive-or sum of one
/// derived-table term per byte.
pub open spec fn xorsum(s: Seq<u8>) -> u32
    decreases s.len(),
{
    if s.len() == 0 {
        0
    } else {
        crc_table((s.len() - 1) as nat, s[0]) ^ xorsum(s.drop_first())
    }
}

/// Folding from zero equals the exclusive-or sum of table terms.
proof fn lemma_fold_zero_xorsum(s: Seq<u8>)
    ensures
        crc_fold(0, s) == xorsum(s),
    decreases s.len(),
{
    if s.len() == 0 {
    } else {
        let b0 = s[0];
        let rest = s.drop_first();
        assert(0u32 ^ (b0 as u32) == b0 as u32) by (bit_vector);
        lemma_step0_low(b0);
        assert(crc_step(0, b0) == table0(b0));
        let t = table0(b0);
        assert(t == 0u32 ^ t) by (bit_vector);
        lemma_fold_superpose(0, t, rest);
        assert(crc_fold(t, rest) == crc_fold(0, rest) ^ step0_iter(rest.len(), t));
        lemma_fold_zero_xorsum(rest);
        lemma_table_iter((s.len() - 1) as nat, b0);
        assert(step0_iter(rest.len(), t) == crc_table((s.len() - 1) as nat, b0));
        let x = xorsum(rest);
        let ct = crc_table((s.len() - 1) as nat, b0);
        assert(x ^ ct == ct ^ x) by (bit_vector);
    }
}

/// Folding a concatenation is folding one part after the other.
proof fn lemma_fold_concat(c: u32, a: Seq<u8>, b: Seq<u8>)
    ensures
        crc_fold(c, a + b) == crc_fold(crc_fold(c, a), b),
    decreases a.len(),
{
    if a.len() == 0 {
        assert(a + b =~= b);
    } else {
        assert((a + b).drop_first() =~= a.drop_first() + b);
        assert((a + b)[0] == a[0]);
        lemma_fold_concat(crc_step(c, a[0]), a.drop_first(), b);
    }
}

/// Every derived table is a linear map over exclusive or.
proof fn lemma_table_linear(k: nat, i: u8, j: u8)
    ensures
        crc_table(k, i ^ j) == crc_table(k, i) ^ crc_table(k, j),
    decreases k,
{
    if k == 0 {
        lemma_table0_linear(i, j);
    } else {
        lemma_table_linear((k - 1) as nat, i, j);
        lemma_step0_linear(crc_table((k - 1) as nat, i), crc_table((k - 1) as nat, j));
    }
}

/// A byte shifted up by eight, absorbed and iterated, lands on a
/// derived table one step later than the bare byte.
proof fn lemma_iter_sh8(n: nat, b: u8)
    ensures
        step0_iter(n + 2, (b as u32) << 8) == crc_table(n, b),
{
    let p = (b as u32) << 8;
    assert(p & 0xFF == 0 && p >> 8 == b as u32) by (bit_vector)
        requires
            p == (b as u32) << 8,
    ;
    lemma_table0_linear(0, 0);
    assert(crc_step0(p) == table0(0) ^ (b as u32));
    assert(0u32 ^ (b as u32) == b as u32) by (bit_vector);
    lemma_iter_peel_inner(n + 1, p);
    lemma_iter_of_byte(n, b);
}

/// As `lemma_iter_sh8`, shifted up by sixteen.
proof fn lemma_iter_sh16(n: nat, b: u8)
    ensures
        step0_iter(n + 3, (b as u32) << 16) == crc_table(n, b),
{
    let p = (b as u32) << 16;
    assert(p & 0xFF == 0 && p >> 8 == (b as u32) << 8) by (bit_vector)
        requires
            p == (b as u32) << 16,
    ;
    lemma_table0_linear(0, 0);
    let q = (b as u32) << 8;
    assert(0u32 ^ q == q) by (bit_vector);
    assert(crc_step0(p) == q);
    lemma_iter_peel_inner(n + 2, p);
    lemma_iter_sh8(n, b);
}

/// As `lemma_iter_sh8`, shifted up by twenty-four.
proof fn lemma_iter_sh24(n: nat, b: u8)
    ensures
        step0_iter(n + 4, (b as u32) << 24) == crc_table(n, b),
{
    let p = (b as u32) << 24;
    assert(p & 0xFF == 0 && p >> 8 == (b as u32) << 16) by (bit_vector)
        requires
            p == (b as u32) << 24,
    ;
    lemma_table0_linear(0, 0);
    let q = (b as u32) << 16;
    assert(0u32 ^ q == q) by (bit_vector);
    assert(crc_step0(p) == q);
    lemma_iter_peel_inner(n + 3, p);
    lemma_iter_sh16(n, b);
}

/// Sixteen bare iterations of an accumulator, split into one derived
/// table term per accumulator byte.
proof fn lemma_iter16_bytes(c: u32)
    ensures
        step0_iter(16, c) == crc_table(15, (c & 0xFF) as u8) ^ crc_table(
            14,
            ((c >> 8) & 0xFF) as u8,
        ) ^ crc_table(13, ((c >> 16) & 0xFF) as u8) ^ crc_table(12, ((c >> 24) & 0xFF) as u8),
{
    let cb0 = (c & 0xFF) as u8;
    let cb1 = ((c >> 8) & 0xFF) as u8;
    let cb2 = ((c >> 16) & 0xFF) as u8;
    let cb3 = ((c >> 24) & 0xFF) as u8;
    let p0 = cb0 as u32;
    let p1 = (cb1 as u32) << 8;
    let p2 = (cb2 as u32) << 16;
    let p3 = (cb3 as u32) << 24;
    assert(c == ((p0 ^ p1) ^ p2) ^ p3) by (bit_vector)
        requires
            p0 == ((c & 0xFF) as u8) as u32,
            p1 == ((((c >> 8) & 0xFF) as u8) as u32) << 8,
            p2 == ((((c >> 16) & 0xFF) as u8) as u32) << 16,
            p3 == ((((c >> 24) & 0xFF) as u8) as u32) << 24,
    ;
    lemma_iter_linear(16, (p0 ^ p1) ^ p2, p3);
    lemma_iter_linear(16, p0 ^ p1, p2);
    lemma_iter_linear(16, p0, p1);
    lemma_iter_of_byte(15, cb0);
    lemma_iter_sh8(14, cb1);
    lemma_iter_sh16(13, cb2);
    lemma_iter_sh24(12, cb3);
}

/// The whole sixteen-byte block step: folding sixteen bytes equals
/// the exclusive-or of sixteen derived-table lookups, the last four
/// indexes mixed with the accumulator's bytes.
proof fn lemma_block16(c: u32, s: Seq<u8>)
    requires
        s.len() == 16,
    ensures
        crc_fold(c, s) == crc_table(0, s[15]) ^ crc_table(1, s[14]) ^ crc_table(2, s[13])
            ^ crc_table(3, s[12]) ^ crc_table(4, s[11]) ^ crc_table(5, s[10]) ^ crc_table(
            6,
            s[9],
        ) ^ crc_table(7, s[8]) ^ crc_table(8, s[7]) ^ crc_table(9, s[6]) ^ crc_table(10, s[5])
            ^ crc_table(11, s[4]) ^ crc_table(12, s[3] ^ (((c >> 24) & 0xFF) as u8)) ^ crc_table(
            13,
            s[2] ^ (((c >> 16) & 0xFF) as u8),
        ) ^ crc_table(14, s[1] ^ (((c >> 8) & 0xFF) as u8)) ^ crc_table(
            15,
            s[0] ^ ((c & 0xFF) as u8),
        ),
{
    assert(c == 0u32 ^ c) by (bit_vector);
    lemma_fold_superpose(0, c, s);
    lemma_fold_zero_xorsum(s);
    lemma_iter16_bytes(c);
    let s1 = s.drop_first();
    let s2 = s1.drop_first();
    let s3 = s2.drop_first();
    let s4 = s3.drop_first();
    let s5 = s4.drop_first();
    let s6 = s5.drop_first();
    let s7 = s6.drop_first();
    let s8 = s7.drop_first();
    let s9 = s8.drop_first();
    let s10 = s9.drop_first();
    let s11 = s10.drop_first();
    let s12 = s11.drop_first();
    let s13 = s12.drop_first();
    let s14 = s13.drop_first();
    let s15 = s14.drop_first();
    assert(s1[0] == s[1] && s2[0] == s[2] && s3[0] == s[3] && s4[0] == s[4] && s5[0] == s[5]
        && s6[0] == s[6] && s7[0] == s[7] && s8[0] == s[8] && s9[0] == s[9] && s10[0] == s[10]
        && s11[0] == s[11] && s12[0] == s[12] && s13[0] == s[13] && s14[0] == s[14] && s15[0]
        == s[15]);
    assert(s15.drop_first().len() == 0);
    let a0 = crc_table(15, s[0]);
    let a1 = crc_table(14, s[1]);
    let a2 = crc_table(13, s[2]);
    let a3 = crc_table(12, s[3]);
    let a4 = crc_table(11, s[4]);
    let a5 = crc_table(10, s[5]);
    let a6 = crc_table(9, s[6]);
    let a7 = crc_table(8, s[7]);
    let a8 = crc_table(7, s[8]);
    let a9 = crc_table(6, s[9]);
    let a10 = crc_table(5, s[10]);
    let a11 = crc_table(4, s[11]);
    let a12 = crc_table(3, s[12]);
    let a13 = crc_table(2, s[13]);
    let a14 = crc_table(1, s[14]);
    let a15 = crc_table(0, s[15]);
    let xs = xorsum(s);
    assert(xorsum(s) == crc_table(15, s[0]) ^ xorsum(s1));
    assert(xorsum(s1) == crc_table(14, s1[0]) ^ xorsum(s2));
    assert(xorsum(s2) == crc_table(13, s2[0]) ^ xorsum(s3));
    assert(xorsum(s3) == crc_table(12, s3[0]) ^ xorsum(s4));
    assert(xorsum(s4) == crc_table(11, s4[0]) ^ xorsum(s5));
    assert(xorsum(s5) == crc_table(10, s5[0]) ^ xorsum(s6));
    assert(xorsum(s6) == crc_table(9, s6[0]) ^ xorsum(s7));
    assert(xorsum(s7) == crc_table(8, s7[0]) ^ xorsum(s8));
    assert(xorsum(s8) == crc_table(7, s8[0]) ^ xorsum(s9));
    assert(xorsum(s9) == crc_table(6, s9[0]) ^ xorsum(s10));
    assert(xorsum(s10) == crc_table(5, s10[0]) ^ xorsum(s11));
    assert(xorsum(s11) == crc_table(4, s11[0]) ^ xorsum(s12));
    assert(xorsum(s12) == crc_table(3, s12[0]) ^ xorsum(s13));
    assert(xorsum(s13) == crc_table(2, s13[0]) ^ xorsum(s14));
    assert(xorsum(s14) == crc_table(1, s14[0]) ^ xorsum(s15));
    assert(xorsum(s15) == crc_table(0, s15[0]) ^ xorsum(s15.drop_first()));
    assert(xorsum(s15.drop_first()) == 0);
    assert(xs == a0 ^ (a1 ^ (a2 ^ (a3 ^ (a4 ^ (a5 ^ (a6 ^ (a7 ^ (a8 ^ (a9 ^ (a10 ^ (a11 ^ (a12 ^ (a13 ^ (a14 ^ (a15 ^ 0u32))))))))))))))));
    let cb0 = (c & 0xFF) as u8;
    let cb1 = ((c >> 8) & 0xFF) as u8;
    let cb2 = ((c >> 16) & 0xFF) as u8;
    let cb3 = ((c >> 24) & 0xFF) as u8;
    let i0 = crc_table(15, cb0);
    let i1 = crc_table(14, cb1);
    let i2 = crc_table(13, cb2);
    let i3 = crc_table(12, cb3);
    lemma_table_linear(15, s[0], cb0);
    lemma_table_linear(14, s[1], cb1);
    lemma_table_linear(13, s[2], cb2);
    lemma_table_linear(12, s[3], cb3);
    let m0 = crc_table(15, s[0] ^ cb0);
    let m1 = crc_table(14, s[1] ^ cb1);
    let m2 = crc_table(13, s[2] ^ cb2);
    let m3 = crc_table(12, s[3] ^ cb3);
    assert(crc_fold(c, s) == xs ^ (((i0 ^ i1) ^ i2) ^ i3));
    assert(xs ^ (((i0 ^ i1) ^ i2) ^ i3) == a15 ^ a14 ^ a13 ^ a12 ^ a11 ^ a10 ^ a9 ^ a8 ^ a7 ^ a6
        ^ a5 ^ a4 ^ m3 ^ m2 ^ m1 ^ m0) by (bit_vector)
        requires
            xs == a0 ^ (a1 ^ (a2 ^ (a3 ^ (a4 ^ (a5 ^ (a6 ^ (a7 ^ (a8 ^ (a9 ^ (a10 ^ (a11 ^ (a12 ^ (
            a13 ^ (a14 ^ (a15 ^ 0u32))))))))))))))),
            m0 == a0 ^ i0,
            m1 == a1 ^ i1,
            m2 == a2 ^ i2,
            m3 == a3 ^ i3,
    ;
}


/// The facts that connect one executable byte step to `crc_step`.
proof fn lemma_step_exec(c: u32, b: u8)
    ensures
        ((c & 0xFF) as u8) ^ b == ((c ^ (b as u32)) & 0xFF) as u8,
        (c ^ (b as u32)) >> 8 == c >> 8,
        c & 0xFF < 256,
{
    assert(((c & 0xFF) as u8) ^ b == ((c ^ (b as u32)) & 0xFF) as u8) by (bit_vector);
    assert((c ^ (b as u32)) >> 8 == c >> 8) by (bit_vector);
    assert(c & 0xFF < 256) by (bit_vector);
}

/// Folding a single byte is a single step.
proof fn lemma_fold_one(c: u32, b: u8)
    ensures
        crc_fold(c, seq![b]) == crc_step(c, b),
{
    let s = seq![b];
    assert(s.len() == 1 && s[0] == b);
    assert(s.drop_first() =~= Seq::<u8>::empty());
    assert(crc_fold(crc_step(c, b), s.drop_first()) == crc_step(c, b));
}

/// The base lookup table as a vector: entry `i` holds `table0(i)`.
pub open spec fn table0_wf(t: Seq<u32>) -> bool {
    t.len() == 256 && forall|j: int| 0 <= j < 256 ==> t[j] == table0(j as u8)
}

/// The matrix of sixteen derived tables: row `k`, entry `i` holds
/// `crc_table(k, i)`.
pub open spec fn tables_wf(t: Vec<Vec<u32>>) -> bool {
    &&& t@.len() == 16
    &&& forall|k: int| 0 <= k < 16 ==> #[trigger] t@[k]@.len() == 256
    &&& forall|k: int, j: int|
        0 <= k < 16 && 0 <= j < 256 ==> #[trigger] t@[k]@[j] == crc_table(k as nat, j as u8)
}

/// Builds the 256-entry base lookup table by running every byte
/// through eight bit steps.
fn build_table0() -> (t: Vec<u32>)
    ensures
        table0_wf(t@),
{
    let mut t: Vec<u32> = Vec::new();
    let mut i: usize = 0;
    while i < 256
        invariant
            i <= 256,
            t@.len() == i,
            forall|j: int| 0 <= j < i ==> t@[j] == table0(j as u8),
        decreases 256 - i,
    {
        let mut c: u32 = i as u32;
        let mut k: usize = 0;
        while k < 8
            invariant
                k <= 8,
                i < 256,
                c == g_iter(k as nat, i as u32),
            decreases 8 - k,
        {
            c = if c & 1 == 1 {
                (c >> 1) ^ 0xEDB88320
            } else {
                c >> 1
            };
            k += 1;
        }
        proof {
            assert(i < 256 ==> ((i as u8) as u32) == i as u32) by (bit_vector);
        }
        t.push(c);
        i += 1;
    }
    t
}

/// Builds the sixteen derived tables: row zero is the base table,
/// each further row pushes the previous row through one whole-byte
/// step.
fn build_tables() -> (t: Vec<Vec<u32>>)
    ensures
        tables_wf(t),
{
    let mut t: Vec<Vec<u32>> = Vec::new();
    t.push(build_table0());
    let mut k: usize = 1;
    while k < 16
        invariant
            1 <= k <= 16,
            t@.len() == k,
            table0_wf(t@[0]@),
            forall|x: int| 0 <= x < k ==> #[trigger] t@[x]@.len() == 256,
            forall|x: int, j: int|
                0 <= x < k && 0 <= j < 256 ==> #[trigger] t@[x]@[j] == crc_table(x as nat, j as u8),
        decreases 16 - k,
    {
        let mut row: Vec<u32> = Vec::new();
        let mut i: usize = 0;
        while i < 256
            invariant
                i <= 256,
                1 <= k < 16,
                row@.len() == i,
                t@.len() == k,
                table0_wf(t@[0]@),
                forall|x: int| 0 <= x < k ==> #[trigger] t@[x]@.len() == 256,
                forall|x: int, j: int|
                    0 <= x < k && 0 <= j < 256 ==> #[trigger] t@[x]@[j] == crc_table(
                        x as nat,
                        j as u8,
                    ),
                forall|j: int| 0 <= j < i ==> row@[j] == crc_table(k as nat, j as u8),
            decreases 256 - i,
        {
            let prev = t[k - 1][i];
            proof {
                assert(prev & 0xFF < 256) by (bit_vector);
                assert((((prev & 0xFF) as usize) as u8) == (prev & 0xFF) as u8) by (bit_vector);
            }
            let e = t[0][(prev & 0xFF) as usize] ^ (prev >> 8);
            proof {
                assert(e == crc_step0(crc_table((k - 1) as nat, i as u8)));
                assert(crc_table(k as nat, i as u8) == crc_step0(
                    crc_table((k - 1) as nat, i as u8),
                ));
            }
            row.push(e);
            i += 1;
        }
        t.push(row);
        k += 1;
    }
    t
}

/// Runs the byte-at-a-time accumulator over `buf[start..]`.
fn slow_rounds(t0: &Vec<u32>, crc0: u32, buf: &[u8], start: usize) -> (r: u32)
    requires
        table0_wf(t0@),
        start <= buf@.len(),
    ensures
        r == crc_fold(crc0, buf@.subrange(start as int, buf@.len() as int)),
{
    let mut crc = crc0;
    let mut pos = start;
    let len = buf.len();
    proof {
        assert(buf@.subrange(start as int, start as int) =~= Seq::<u8>::empty());
    }
    while pos < len
        invariant
            start <= pos <= len,
            len == buf@.len(),
            table0_wf(t0@),
            crc == crc_fold(crc0, buf@.subrange(start as int, pos as int)),
        decreases len - pos,
    {
        let b = *vstd::slice::slice_index_get(buf, pos);
        proof {
            lemma_step_exec(crc, b);
        }
        let idx: u8 = ((crc & 0xFF) as u8) ^ b;
        let next = t0[idx as usize] ^ (crc >> 8);
        proof {
            assert(((idx as usize) as int) < 256);
            assert(((idx as usize) as u8) == idx) by (bit_vector);
            assert(next == crc_step(crc, b));
            lemma_fold_concat(crc0, buf@.subrange(start as int, pos as int), seq![b]);
            lemma_fold_one(crc, b);
            assert(buf@.subrange(start as int, pos as int) + seq![b] =~= buf@.subrange(
                start as int,
                pos as int + 1,
            ));
        }
        crc = next;
        pos += 1;
    }
    crc
}

/// One sixteen-byte block step of the unrolled implementation.
fn block16(t: &Vec<Vec<u32>>, crc: u32, buf: &[u8], pos: usize) -> (r: u32)
    requires
        tables_wf(*t),
        pos + 16 <= buf@.len(),
    ensures
        r == crc_fold(crc, buf@.subrange(pos as int, pos as int + 16)),
{
    let blen = buf.len();
    let b0 = *vstd::slice::slice_index_get(buf, pos);
    let b1 = *vstd::slice::slice_index_get(buf, pos + 1);
    let b2 = *vstd::slice::slice_index_get(buf, pos + 2);
    let b3 = *vstd::slice::slice_index_get(buf, pos + 3);
    let b4 = *vstd::slice::slice_index_get(buf, pos + 4);
    let b5 = *vstd::slice::slice_index_get(buf, pos + 5);
    let b6 = *vstd::slice::slice_index_get(buf, pos + 6);
    let b7 = *vstd::slice::slice_index_get(buf, pos + 7);
    let b8 = *vstd::slice::slice_index_get(buf, pos + 8);
    let b9 = *vstd::slice::slice_index_get(buf, pos + 9);
    let b10 = *vstd::slice::slice_index_get(buf, pos + 10);
    let b11 = *vstd::slice::slice_index_get(buf, pos + 11);
    let b12 = *vstd::slice::slice_index_get(buf, pos + 12);
    let b13 = *vstd::slice::slice_index_get(buf, pos + 13);
    let b14 = *vstd::slice::slice_index_get(buf, pos + 14);
    let b15 = *vstd::slice::slice_index_get(buf, pos + 15);
    proof {
        assert(crc & 0xFF < 256 && (crc >> 8) & 0xFF < 256 && (crc >> 16) & 0xFF < 256 && (crc
            >> 24) & 0xFF < 256) by (bit_vector);
    }
    let i0: u8 = b0 ^ ((crc & 0xFF) as u8);
    let i1: u8 = b1 ^ (((crc >> 8) & 0xFF) as u8);
    let i2: u8 = b2 ^ (((crc >> 16) & 0xFF) as u8);
    let i3: u8 = b3 ^ (((crc >> 24) & 0xFF) as u8);
    let r = t[0][b15 as usize] ^ t[1][b14 as usize] ^ t[2][b13 as usize] ^ t[3][b12 as usize]
        ^ t[4][b11 as usize] ^ t[5][b10 as usize] ^ t[6][b9 as usize] ^ t[7][b8 as usize]
        ^ t[8][b7 as usize] ^ t[9][b6 as usize] ^ t[10][b5 as usize] ^ t[11][b4 as usize]
        ^ t[12][i3 as usize] ^ t[13][i2 as usize] ^ t[14][i1 as usize] ^ t[15][i0 as usize];
    proof {
        let s = buf@.subrange(pos as int, pos as int + 16);
        lemma_block16(crc, s);
    }
    r
}

/// The byte-at-a-time reference implementation.
///
/// Returns exactly `crc32_spec(prev, buf@)`; `prev` is zero for the
/// first call over a payload.
pub fn update_slow(prev: u32, buf: &[u8]) -> (r: u32)
    ensures
        r == crc32_spec(prev, buf@),
{
    let t0 = build_table0();
    let crc = slow_rounds(&t0, !prev, buf, 0);
    proof {
        assert(buf@.subrange(0, buf@.len() as int) =~= buf@);
    }
    !crc
}

/// The unrolled high-throughput implementation: sixty-four bytes per
/// outer round through sixteen derived tables, any remainder finished
/// byte at a time.
///
/// Returns exactly `crc32_spec(prev, buf@)`, and so agrees with
/// `update_slow` on every input.
pub fn update_fast_16(prev: u32, buf: &[u8]) -> (r: u32)
    ensures
        r == crc32_spec(prev, buf@),
{
    let t = build_tables();
    let mut crc: u32 = !prev;
    let mut pos: usize = 0;
    let len = buf.len();
    proof {
        assert(buf@.subrange(0, 0) =~= Seq::<u8>::empty());
    }
    while len - pos >= 64
        invariant
            pos <= len,
            len == buf@.len(),
            tables_wf(t),
            crc == crc_fold(!prev, buf@.subrange(0, pos as int)),
        decreases len - pos,
    {
        let ghost pos0 = pos;
        let mut u: usize = 0;
        while u < 4
            invariant
                u <= 4,
                pos == pos0 + 16 * u,
                pos + (64 - 16 * u) <= len,
                len == buf@.len(),
                tables_wf(t),
                crc == crc_fold(!prev, buf@.subrange(0, pos as int)),
            decreases 4 - u,
        {
            let next = block16(&t, crc, buf, pos);
            proof {
                lemma_fold_concat(
                    !prev,
                    buf@.subrange(0, pos as int),
                    buf@.subrange(pos as int, pos as int + 16),
                );
                assert(buf@.subrange(0, pos as int) + buf@.subrange(pos as int, pos as int + 16)
                    =~= buf@.subrange(0, pos as int + 16));
            }
            crc = next;
            pos += 16;
            u += 1;
        }
    }
    proof {
        assert forall|j: int| 0 <= j < 256 implies t@[0]@[j] == table0(j as u8) by {
            assert(t@[0]@[j] == crc_table(0, j as u8));
            assert(crc_table(0, j as u8) == table0(j as u8));
        }
    }
    let crc2 = slow_rounds(&t[0], crc, buf, pos);
    proof {
        lemma_fold_concat(
            !prev,
            buf@.subrange(0, pos as int),
            buf@.subrange(pos as int, len as int),
        );
        assert(buf@.subrange(0, pos as int) + buf@.subrange(pos as int, len as int) =~= buf@);
    }
    !crc2
}

} // verus!\n
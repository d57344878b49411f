//! The 16-bit one's complement Internet checksum over big-endian words.
use vstd::prelude::*;

verus! {

/// Sum of the big-endian 16-bit words of `s`; an odd trailing byte is the
/// high byte of a last word whose low byte is zero.
pub open spec fn word_sum(s: Seq<u8>) -> nat
    decreases s.len(),
{
    if s.len() == 0 {
        0
    } else if s.len() == 1 {
        s[0] as nat * 256
    } else {
        (s[0] as nat * 256 + s[1] as nat) + word_sum(s.subrange(2, s.len() as int))
    }
}

/// End-around-carry reduction of a natural number into 16 bits: the result
/// is congruent to `x` modulo 0xFFFF, is zero only for zero, and lies in
/// `1..=0xFFFF` otherwise.
pub open spec fn fold16(x: nat) -> nat {
    if x == 0 {
        0
    } else {
        ((x - 1) as nat % 0xFFFF) + 1
    }
}

/// The one's complement sum of the data.
pub open spec fn ones_sum(data: Seq<u8>) -> nat {
    fold16(word_sum(data))
}

/// The checksum: the one's complement of the one's complement sum.
pub open spec fn spec_checksum(data: Seq<u8>) -> u16 {
    (0xFFFF - ones_sum(data)) as u16
}

/// Whether `c` verifies `data`: the one's complement sum of the data and
/// `c` is all ones.
pub open spec fn spec_check(data: Seq<u8>, c: u16) -> bool {
    fold16(ones_sum(data) + c as nat) == 0xFFFF
}

/// Largest input length the 64-bit accumulator is proved to handle.
pub open spec fn max_len() -> nat {
    0x1_0000_0000_0000
}

proof fn lemma_word_sum_bound(s: Seq<u8>)
    ensures
        word_sum(s) <= 0xFFFF * s.len(),
    decreases s.len(),
{
    if s.len() >= 2 {
        lemma_word_sum_bound(s.subrange(2, s.len() as int));
    }
}

proof fn lemma_fold16_small(x: nat)
    requires
        x <= 0xFFFF,
    ensures
        fold16(x) == x,
{
}

pub(crate) proof fn lemma_fold16_range(x: nat)
    ensures
        fold16(x) <= 0xFFFF,
        x > 0 ==> fold16(x) >= 1,
{
}

proof fn lemma_fold_step(x: nat)
    requires
        x >= 0x10000,
    ensures
        x % 0x10000 + x / 0x10000 < x,
        fold16(x % 0x10000 + x / 0x10000) == fold16(x),
{
    let q = x / 0x10000;
    let r = x % 0x10000;
    assert(x == 0x10000 * q + r && 0 <= r < 0x10000) by (nonlinear_arith)
        requires
            q == x / 0x10000,
            r == x % 0x10000,
    ;
    assert(q >= 1) by (nonlinear_arith)
        requires
            x == 0x10000 * q + r,
            r < 0x10000,
            x >= 0x10000,
    ;
    let y = r + q;
    assert((x - 1) as nat == (y - 1) as nat + 0xFFFF * q) by (nonlinear_arith)
        requires
            x == 0x10000 * q + r,
            y == r + q,
            q >= 1,
    ;
    assert(((y - 1) as nat + 0xFFFF * q) % 0xFFFF == (y - 1) as nat % 0xFFFF) by {
        vstd::arithmetic::div_mod::lemma_mod_multiples_vanish(q as int, (y - 1) as int, 0xFFFF);
    }
}

/// Folds a 64-bit accumulator into 16 bits by repeated end-around carry.
fn fold(sum: u64) -> (res: u16)
    ensures
        res as nat == fold16(sum as nat),
{
    let mut s = sum;
    while (s >> 16u64) > 0
        invariant
            fold16(s as nat) == fold16(sum as nat),
        decreases s,
    {
        assert((s >> 16u64) == s / 0x10000 && (s & 0xFFFFu64) == s % 0x10000) by (bit_vector);
        proof {
            assert(s >= 0x10000) by (bit_vector)
                requires
                    (s >> 16u64) > 0,
            ;
            lemma_fold_step(s as nat);
        }
        s = (s & 0xFFFF) + (s >> 16);
    }
    assert((s >> 16u64) == 0 ==> s < 0x10000) by (bit_vector);
    proof {
        lemma_fold16_small(s as nat);
    }
    s as u16
}

/// The one's complement sum of the big-endian 16-bit words of `data`.
pub fn compute_sum(data: &[u8]) -> (res: u16)
    requires
        data@.len() <= max_len(),
    ensures
        res as nat == ones_sum(data@),
{
    let n = data.len();
    let mut sum: u64 = 0;
    let mut i: usize = 0;
    proof {
        lemma_word_sum_bound(data@);
        assert(data@.subrange(0, n as int) =~= data@);
    }
    while n - i >= 2
        invariant
            n == data@.len(),
            n <= max_len(),
            i <= n,
            i % 2 == 0,
            sum as nat + word_sum(data@.subrange(i as int, n as int)) == word_sum(data@),
            word_sum(data@) <= 0xFFFF * n,
        decreases n - i,
    {
        let ghost rest = data@.subrange(i as int, n as int);
        assert(rest.subrange(2, rest.len() as int) =~= data@.subrange(i + 2, n as int));
        let word: u64 = ((data[i] as u64) << 8u64) | (data[i + 1] as u64);
        let hi = data[i];
        let lo = data[i + 1];
        assert(((hi as u64) << 8u64) | (lo as u64) == hi as u64 * 256 + lo as u64) by (bit_vector);
        assert(rest[0] == hi && rest[1] == lo);
        sum = sum + word;
        i = i + 2;
    }
    if i < n {
        let ghost rest = data@.subrange(i as int, n as int);
        assert(rest.len() == 1);
        let last = data[i];
        assert(((last as u64) << 8u64) == last as u64 * 256) by (bit_vector);
        sum = sum + ((last as u64) << 8);
    } else {
        assert(data@.subrange(i as int, n as int).len() == 0);
    }
    fold(sum)
}

/// The Internet checksum of `data`: the complement of its one's complement sum.
pub fn checksum(data: &[u8]) -> (res: u16)
    requires
        data@.len() <= max_len(),
    ensures
        res == spec_checksum(data@),
{
    let s = compute_sum(data);
    proof {
        lemma_fold16_range(word_sum(data@));
    }
    assert(!s == 0xFFFFu16 - s) by (bit_vector);
    !s
}

/// Whether `checksum_val` is a valid checksum of `data`.
pub fn check(data: &[u8], checksum_val: u16) -> (res: bool)
    requires
        data@.len() <= max_len(),
    ensures
        res == spec_check(data@, checksum_val),
{
    let sum = compute_sum(data) as u64 + checksum_val as u64;
    let folded = fold(sum);
    folded == 0xFFFF
}

/// Law: the checksum of any data verifies that data.
pub proof fn lemma_checksum_verifies(data: Seq<u8>)
    ensures
        spec_check(data, spec_checksum(data)),
{
    lemma_fold16_range(word_sum(data));
    lemma_fold16_small(0xFFFF);
}

/// Law: `check` accepts exactly the computed checksum, and besides it only
/// `0xFFFF` when the one's complement sum is itself `0xFFFF` (one's
/// complement arithmetic has two representations of zero).
pub proof fn lemma_check_characterization(data: Seq<u8>, c: u16)
    ensures
        spec_check(data, c) <==> (c == spec_checksum(data) || (ones_sum(data) == 0xFFFF
            && c == 0xFFFF)),
{
    let s = ones_sum(data);
    lemma_fold16_range(word_sum(data));
    let t = s + c as nat;
    if spec_check(data, c) {
        assert(t > 0);
        if t <= 0xFFFF {
            lemma_fold16_small(t);
        } else {
            assert(t <= 0x1FFFE);
            let u: nat = (t - 1) as nat;
            let w: nat = (u - 0xFFFF) as nat;
            assert(u % 0xFFFF == w % 0xFFFF) by {
                vstd::arithmetic::div_mod::lemma_mod_sub_multiples_vanish(u as int, 0xFFFF);
            }
            assert(w < 0xFFFF);
            assert(w % 0xFFFF == w) by {
                vstd::arithmetic::div_mod::lemma_small_mod(w, 0xFFFF);
            }
        }
    } else {
        if c == spec_checksum(data) {
            lemma_checksum_verifies(data);
        }
        if s == 0xFFFF && c == 0xFFFF {
            assert(t == 0x1FFFE);
            assert((0x1FFFDnat) % 0xFFFF == 0xFFFE) by (nonlinear_arith);
        }
    }
}

/// Adding the complement of the folded sum to a sum yields all ones.
pub proof fn lemma_fold_plus_complement(x: nat)
    ensures
        fold16(x + (0xFFFF - fold16(x)) as nat) == 0xFFFF,
{
    lemma_fold16_range(x);
    let s = fold16(x);
    let t = x + (0xFFFF - s) as nat;
    if x == 0 {
        lemma_fold16_small(0xFFFF);
    } else {
        let q = (x - 1) as nat / 0xFFFF;
        let r = (x - 1) as nat % 0xFFFF;
        assert((x - 1) as nat == 0xFFFF * q + r) by (nonlinear_arith)
            requires
                q == (x - 1) as nat / 0xFFFF,
                r == (x - 1) as nat % 0xFFFF,
        ;
        assert(s == r + 1);
        assert((t - 1) as nat == 0xFFFF * q + 0xFFFE);
        assert(((t - 1) as nat) % 0xFFFF == 0xFFFE) by {
            vstd::arithmetic::div_mod::lemma_fundamental_div_mod_converse(
                (t - 1) as int,
                0xFFFF,
                q as int,
                0xFFFE,
            );
        }
    }
}

/// The weight of byte `i` in the word sum: high bytes count 256, low
/// bytes 1.
pub open spec fn byte_weight(i: int) -> int {
    if i % 2 == 0 {
        256
    } else {
        1
    }
}

proof fn lemma_word_sum_update(s: Seq<u8>, i: int, b: u8)
    requires
        0 <= i < s.len(),
    ensures
        word_sum(s.update(i, b)) == word_sum(s) + (b - s[i]) * byte_weight(i),
    decreases s.len(),
{
    let t = s.update(i, b);
    if s.len() >= 2 && i >= 2 {
        let rs = s.subrange(2, s.len() as int);
        let rt = t.subrange(2, t.len() as int);
        assert(rt =~= rs.update(i - 2, b));
        lemma_word_sum_update(rs, i - 2, b);
        assert(byte_weight(i - 2) == byte_weight(i));
    } else if s.len() >= 2 {
        assert(t.subrange(2, t.len() as int) =~= s.subrange(2, s.len() as int));
    }
}

proof fn lemma_fold16_all_ones(y: nat)
    ensures
        fold16(y) == 0xFFFF <==> (y > 0 && y % 0xFFFF == 0),
{
    if y > 0 {
        let q = (y - 1) as nat / 0xFFFF;
        let r = (y - 1) as nat % 0xFFFF;
        assert((y - 1) as nat == 0xFFFF * q + r && r < 0xFFFF) by (nonlinear_arith)
            requires
                q == (y - 1) as nat / 0xFFFF,
                r == (y - 1) as nat % 0xFFFF,
        ;
        if r == 0xFFFE {
            assert(y == 0xFFFF * (q + 1)) by (nonlinear_arith)
                requires
                    y > 0,
                    (y - 1) as nat == 0xFFFF * q + r,
                    r == 0xFFFE,
            ;
            vstd::arithmetic::div_mod::lemma_mod_multiples_basic((q + 1) as int, 0xFFFF);
        } else {
            assert(y == 0xFFFF * q + (r + 1)) by (nonlinear_arith)
                requires
                    y > 0,
                    (y - 1) as nat == 0xFFFF * q + r,
            ;
            vstd::arithmetic::div_mod::lemma_fundamental_div_mod_converse(y as int, 0xFFFF, q as int, (r + 1) as int);
        }
    }
}

proof fn lemma_fold16_mod(x: nat)
    ensures
        fold16(x) % 0xFFFF == x % 0xFFFF,
{
    if x > 0 {
        let q = (x - 1) as nat / 0xFFFF;
        let r = (x - 1) as nat % 0xFFFF;
        assert((x - 1) as nat == 0xFFFF * q + r && r < 0xFFFF) by (nonlinear_arith)
            requires
                q == (x - 1) as nat / 0xFFFF,
                r == (x - 1) as nat % 0xFFFF,
        ;
        assert(x == 0xFFFF * q + (r + 1));
        vstd::arithmetic::div_mod::lemma_mod_multiples_vanish(q as int, (r + 1) as int, 0xFFFF);
    }
}

/// Law: changing one bit of the data is always detected: the checksum of
/// the original data no longer verifies the changed data.
pub proof fn lemma_single_bit_change_detected(data: Seq<u8>, i: int, bit: nat)
    requires
        0 <= i < data.len(),
        bit < 8,
    ensures
        !spec_check(
            data.update(i, (data[i] ^ (1u8 << bit as u8)) as u8),
            spec_checksum(data),
        ),
{
    let b = data[i];
    let bv = bit as u8;
    let m = (1u8 << bv) as u8;
    let fb = (b ^ m) as u8;
    assert(fb == (data[i] ^ (1u8 << bit as u8)) as u8);
    let changed = data.update(i, fb);
    assert(1 <= m <= 128) by (bit_vector)
        requires
            bv < 8,
            m == (1u8 << bv) as u8,
    ;
    assert(fb == b + m || fb + m == b) by (bit_vector)
        requires
            bv < 8,
            m == (1u8 << bv) as u8,
            fb == (b ^ m) as u8,
    ;
    let p: int = m as int;
    assert(fb as int - b as int == p || fb as int - b as int == -p);
    lemma_word_sum_update(data, i, fb);
    let x = word_sum(data);
    let x2 = word_sum(changed);
    let d = (fb - b) * byte_weight(i);
    assert(x2 == x + d);
    assert(1 <= p <= 128);
    assert(1 <= (if d >= 0 { d } else { -d }) <= 32768) by (nonlinear_arith)
        requires
            d == (fb - b) * byte_weight(i),
            fb - b == p || fb - b == -p,
            1 <= p <= 128,
            byte_weight(i) == 256 || byte_weight(i) == 1,
    ;
    lemma_fold16_range(x);
    lemma_fold16_range(x2);
    let s = fold16(x);
    let s2 = fold16(x2);
    let c = 0xFFFF - s;
    let y = s2 + c;
    lemma_fold16_mod(x);
    lemma_fold16_mod(x2);
    lemma_fold16_all_ones(y as nat);
    if y > 0 && y % 0xFFFF == 0 {
        // then s2 ≡ s (mod 0xFFFF), hence x2 ≡ x, contradicting 1 <= |x2 - x| <= 32768
        assert((x2 - x) % 0xFFFF == 0) by (nonlinear_arith)
            requires
                y == s2 + 0xFFFF - s,
                y % 0xFFFF == 0,
                s % 0xFFFF == x % 0xFFFF,
                s2 % 0xFFFF == x2 % 0xFFFF,
        ;
        assert(false) by (nonlinear_arith)
            requires
                (x2 - x) % 0xFFFF == 0,
                x2 - x == d,
                1 <= (if d >= 0 { d } else { -d }) <= 32768,
        ;
    }
}

/// `c + 1` with wrap-around in 16 bits.
pub open spec fn wrapping_inc(c: u16) -> u16 {
    if c == 0xFFFF {
        0
    } else {
        (c + 1) as u16
    }
}

/// Law: incrementing a correct checksum (with wrap-around) always makes the
/// check fail.
pub proof fn lemma_off_by_one_rejected(data: Seq<u8>)
    ensures
        !spec_check(data, wrapping_inc(spec_checksum(data))),
{
    lemma_check_characterization(data, wrapping_inc(spec_checksum(data)));
    lemma_fold16_range(word_sum(data));
}

} // verus!

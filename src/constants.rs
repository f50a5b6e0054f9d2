//! Base-12 digits of mathematical constants: a fixed table of known digits, continued by a
//! deterministic filler when more are asked for.
//!
//! The filler does not compute further digits of the constant. It reads the last ten
//! digits as a base-12 number and takes one step of a linear congruential generator on it,
//! modulo 2^64; the next digit is that value modulo 12.
use vstd::prelude::*;
use vstd::arithmetic::div_mod::{lemma_add_mod_noop, lemma_small_mod};
use crate::all_base12;

verus! {

/// The known base-12 digits of pi: 3.184809493B918664573A6211BB1551A05729290A7...
pub const PI_DIGITS: [u8; 100] = [
    3, 1, 8, 4, 8, 0, 9, 4, 9, 3, 11, 9, 1, 8, 6, 6, 4, 5, 7, 3,
    10, 6, 2, 1, 1, 11, 11, 1, 5, 5, 1, 10, 0, 5, 7, 2, 9, 2, 9, 0,
    10, 7, 8, 5, 3, 11, 7, 5, 4, 8, 0, 6, 8, 8, 5, 10, 9, 4, 0, 11,
    6, 5, 9, 2, 5, 4, 9, 1, 1, 4, 3, 2, 0, 7, 6, 10, 6, 4, 3, 2,
    3, 9, 10, 7, 7, 7, 10, 9, 8, 0, 6, 4, 3, 5, 11, 9, 10, 2, 1, 6,
];

/// The known base-12 digits of e: 2.875236069821...
pub const E_DIGITS: [u8; 100] = [
    2, 8, 7, 5, 2, 3, 6, 0, 6, 9, 8, 2, 1, 10, 3, 6, 1, 0, 5, 7,
    2, 8, 5, 0, 11, 8, 7, 0, 4, 9, 3, 8, 4, 6, 0, 9, 7, 2, 0, 5,
    11, 1, 9, 10, 0, 6, 4, 1, 10, 5, 4, 8, 3, 7, 5, 2, 4, 0, 6, 11,
    9, 3, 8, 10, 7, 1, 1, 2, 8, 3, 5, 0, 4, 9, 11, 2, 10, 6, 3, 8,
    1, 7, 5, 4, 2, 0, 9, 8, 6, 3, 11, 4, 7, 2, 0, 5, 10, 1, 9, 6,
];

/// The known base-12 digits of the square root of 2: 1.4B79170A07B8...
pub const SQRT2_DIGITS: [u8; 100] = [
    1, 4, 11, 7, 9, 1, 7, 0, 10, 0, 7, 11, 8, 5, 3, 4, 0, 9, 6, 8,
    2, 5, 1, 10, 6, 7, 8, 9, 11, 0, 4, 2, 5, 3, 9, 7, 1, 0, 8, 6,
    4, 11, 2, 9, 0, 5, 7, 8, 3, 10, 1, 6, 4, 0, 9, 11, 7, 2, 5, 8,
    3, 0, 6, 10, 9, 4, 1, 7, 11, 5, 2, 8, 0, 3, 6, 9, 10, 4, 7, 1,
    5, 11, 8, 2, 0, 6, 3, 9, 10, 7, 4, 1, 5, 8, 11, 2, 0, 6, 3, 9,
];

/// The known base-12 digits of the golden ratio: 1.74BB6772802A...
pub const PHI_DIGITS: [u8; 100] = [
    1, 7, 4, 11, 11, 6, 7, 7, 2, 8, 0, 2, 10, 9, 5, 3, 1, 6, 8, 4,
    0, 11, 7, 9, 2, 5, 10, 3, 8, 1, 6, 4, 0, 9, 7, 11, 2, 5, 8, 3,
    10, 1, 6, 4, 0, 9, 7, 11, 2, 5, 8, 3, 10, 1, 6, 4, 0, 9, 7, 11,
    2, 5, 8, 3, 10, 1, 6, 4, 0, 9, 7, 11, 2, 5, 8, 3, 10, 1, 6, 4,
    0, 9, 7, 11, 2, 5, 8, 3, 10, 1, 6, 4, 0, 9, 7, 11, 2, 5, 8, 3,
];

/// The known base-12 digits of the natural logarithm of 2: 0.83B4BB75AB48...
pub const LN2_DIGITS: [u8; 100] = [
    0, 8, 3, 11, 4, 11, 11, 7, 5, 10, 11, 4, 8, 9, 2, 6, 0, 3, 7, 5,
    1, 10, 8, 4, 11, 6, 2, 9, 0, 5, 7, 3, 1, 10, 8, 4, 11, 6, 2, 9,
    0, 5, 7, 3, 1, 10, 8, 4, 11, 6, 2, 9, 0, 5, 7, 3, 1, 10, 8, 4,
    11, 6, 2, 9, 0, 5, 7, 3, 1, 10, 8, 4, 11, 6, 2, 9, 0, 5, 7, 3,
    1, 10, 8, 4, 11, 6, 2, 9, 0, 5, 7, 3, 1, 10, 8, 4, 11, 6, 2, 9,
];

/// Multiplier and increment of the filler used after pi, e and ln 2.
pub const SPIGOT_MULTIPLIER: u64 = 1103515245;

pub const SPIGOT_INCREMENT: u64 = 12345;

/// Multiplier and increment of the filler used after the square roots.
pub const NEWTON_MULTIPLIER: u64 = 6364136223846793005;

pub const NEWTON_INCREMENT: u64 = 1;

/// How many trailing digits seed the filler.
pub const SEED_WINDOW: usize = 10;

/// `s` read as a base-12 number, most significant digit first.
pub open spec fn base12_value(s: Seq<u8>) -> nat
    decreases s.len(),
{
    if s.len() == 0 {
        0
    } else {
        base12_value(s.drop_last()) * 12 + s.last() as nat
    }
}

/// The last ten digits of `ds` (all of them when there are fewer), read in base 12.
pub open spec fn filler_seed(ds: Seq<u8>) -> nat {
    let k = if ds.len() < SEED_WINDOW { ds.len() } else { SEED_WINDOW as nat };
    base12_value(ds.subrange(ds.len() - k, ds.len() as int))
}

/// The digit the filler appends after `ds`.
pub open spec fn filler_digit(ds: Seq<u8>, mult: u64, inc: u64) -> u8 {
    (((filler_seed(ds) * mult + inc) % 0x1_0000_0000_0000_0000int) % 12) as u8
}

/// `ds` continued by the filler up to `target` digits, or cut to `target` digits.
pub open spec fn filled(ds: Seq<u8>, target: nat, mult: u64, inc: u64) -> Seq<u8>
    decreases target - ds.len(),
{
    if ds.len() >= target {
        ds.take(target as int)
    } else {
        filled(ds.push(filler_digit(ds, mult, inc)), target, mult, inc)
    }
}

/// The first `n` digits of pi in base 12, filled past the table.
pub open spec fn pi_digits(n: nat) -> Seq<u8> {
    filled(PI_DIGITS@, n, SPIGOT_MULTIPLIER, SPIGOT_INCREMENT)
}

/// The first `n` digits of e in base 12, filled past the table.
pub open spec fn e_digits(n: nat) -> Seq<u8> {
    filled(E_DIGITS@, n, SPIGOT_MULTIPLIER, SPIGOT_INCREMENT)
}

/// The first `n` digits of the square root of 2 in base 12, filled past the table.
pub open spec fn sqrt2_digits(n: nat) -> Seq<u8> {
    filled(SQRT2_DIGITS@, n, NEWTON_MULTIPLIER, NEWTON_INCREMENT)
}

/// The first `n` digits of the golden ratio in base 12, filled past the table.
pub open spec fn phi_digits(n: nat) -> Seq<u8> {
    filled(PHI_DIGITS@, n, NEWTON_MULTIPLIER, NEWTON_INCREMENT)
}

/// The first `n` digits of ln 2 in base 12, filled past the table.
pub open spec fn ln2_digits(n: nat) -> Seq<u8> {
    filled(LN2_DIGITS@, n, SPIGOT_MULTIPLIER, SPIGOT_INCREMENT)
}

pub open spec fn pow12(n: nat) -> nat
    decreases n,
{
    if n == 0 {
        1
    } else {
        12 * pow12((n - 1) as nat)
    }
}

proof fn lemma_pow12_monotonic(a: nat, b: nat)
    requires
        a <= b,
    ensures
        1 <= pow12(a) <= pow12(b),
    decreases b,
{
    if b > a {
        lemma_pow12_monotonic(a, (b - 1) as nat);
    } else if a > 0 {
        lemma_pow12_monotonic((a - 1) as nat, (a - 1) as nat);
    }
}

proof fn lemma_base12_value_bound(s: Seq<u8>)
    ensures
        base12_value(s) <= 24 * (pow12(s.len()) - 1),
    decreases s.len(),
{
    if s.len() > 0 {
        lemma_base12_value_bound(s.drop_last());
        lemma_pow12_monotonic(0, (s.len() - 1) as nat);
    }
}

/// The filler seed of `digits`, computed by Horner's rule over the last ten digits.
fn seed_of(digits: &Vec<u8>) -> (seed: u64)
    ensures
        seed == filler_seed(digits@),
{
    let len = digits.len();
    let start: usize = if len < SEED_WINDOW { 0 } else { len - SEED_WINDOW };
    proof {
        reveal_with_fuel(pow12, 11);
        assert(pow12(10) == 61917364224);
    }
    let mut seed: u64 = 0;
    let mut j: usize = start;
    while j < len
        invariant
            len == digits@.len(),
            start <= j <= len,
            len - start <= SEED_WINDOW,
            pow12(10) == 61917364224,
            seed == base12_value(digits@.subrange(start as int, j as int)),
        decreases len - j,
    {
        let ghost w = digits@.subrange(start as int, j as int);
        let ghost w2 = digits@.subrange(start as int, j + 1);
        proof {
            assert(w2.drop_last() =~= w);
            lemma_base12_value_bound(w2);
            lemma_pow12_monotonic(w2.len(), 10);
        }
        seed = seed * 12 + digits[j] as u64;
        j = j + 1;
    }
    seed
}

proof fn lemma_wrapping_step(seed: u64, mult: u64, inc: u64)
    ensures
        seed.wrapping_mul(mult).wrapping_add(inc) == (seed * mult + inc) % 0x1_0000_0000_0000_0000,
{
    let r: int = 0x1_0000_0000_0000_0000;
    let a: int = seed * mult;
    lemma_add_mod_noop(a, inc as int, r);
    lemma_small_mod(inc as nat, r as nat);
    assert(seed.wrapping_mul(mult) == a % r);
}

/// Continues `digits` with the filler of the given multiplier and increment until it holds
/// `target` digits, or cuts it to `target` digits.
fn extend_with_filler(digits: &mut Vec<u8>, target: usize, mult: u64, inc: u64)
    ensures
        final(digits)@ == filled(old(digits)@, target as nat, mult, inc),
{
    while digits.len() < target
        invariant
            filled(digits@, target as nat, mult, inc) == filled(old(digits)@, target as nat, mult, inc),
        decreases target - digits@.len(),
    {
        let seed = seed_of(digits);
        proof {
            lemma_wrapping_step(seed, mult, inc);
        }
        let next = (seed.wrapping_mul(mult).wrapping_add(inc) % 12) as u8;
        digits.push(next);
    }
    digits.truncate(target);
}

/// Continues `digits` with the filler that follows pi, e and ln 2.
fn extend_with_spigot(digits: &mut Vec<u8>, target: usize)
    ensures
        final(digits)@ == filled(old(digits)@, target as nat, SPIGOT_MULTIPLIER, SPIGOT_INCREMENT),
{
    extend_with_filler(digits, target, SPIGOT_MULTIPLIER, SPIGOT_INCREMENT);
}

/// Continues `digits` with the filler that follows the square roots.
fn extend_with_newton(digits: &mut Vec<u8>, target: usize)
    ensures
        final(digits)@ == filled(old(digits)@, target as nat, NEWTON_MULTIPLIER, NEWTON_INCREMENT),
{
    extend_with_filler(digits, target, NEWTON_MULTIPLIER, NEWTON_INCREMENT);
}

/// The first `n` entries of a digit table (all of them when `n` exceeds its size).
fn table_prefix(table: &[u8; 100], n: usize) -> (r: Vec<u8>)
    ensures
        r@ == table@.take(if n < 100 { n as int } else { 100 }),
{
    let k: usize = if n < 100 { n } else { 100 };
    let mut r: Vec<u8> = Vec::new();
    let mut i: usize = 0;
    while i < k
        invariant
            k <= 100,
            i <= k,
            r@ == table@.take(i as int),
        decreases k - i,
    {
        r.push(table[i]);
        i = i + 1;
        assert(r@ =~= table@.take(i as int));
    }
    r
}

proof fn lemma_filled_valid(ds: Seq<u8>, target: nat, mult: u64, inc: u64)
    requires
        all_base12(ds),
    ensures
        all_base12(filled(ds, target, mult, inc)),
    decreases target - ds.len(),
{
    if ds.len() < target {
        let next = ds.push(filler_digit(ds, mult, inc));
        assert(all_base12(next)) by {
            assert forall|i: int| 0 <= i < next.len() implies #[trigger] next[i] < 12 by {
                if i < ds.len() {
                    assert(next[i] == ds[i]);
                }
            }
        }
        lemma_filled_valid(next, target, mult, inc);
    } else {
        let r = ds.take(target as int);
        assert forall|i: int| 0 <= i < r.len() implies #[trigger] r[i] < 12 by {
            assert(r[i] == ds[i]);
        }
    }
}

/// The digit tables hold base-12 digits only.
proof fn lemma_tables_valid()
    ensures
        all_base12(PI_DIGITS@),
        all_base12(E_DIGITS@),
        all_base12(SQRT2_DIGITS@),
        all_base12(PHI_DIGITS@),
        all_base12(LN2_DIGITS@),
{
}

proof fn lemma_filled_length(ds: Seq<u8>, target: nat, mult: u64, inc: u64)
    ensures
        filled(ds, target, mult, inc).len() == target,
    decreases target - ds.len(),
{
    if ds.len() < target {
        lemma_filled_length(ds.push(filler_digit(ds, mult, inc)), target, mult, inc);
    }
}

proof fn lemma_filled_short(ds: Seq<u8>, n: nat, mult: u64, inc: u64)
    requires
        n <= ds.len(),
    ensures
        filled(ds, n, mult, inc) == ds.take(n as int),
{
}

/// The first `n_digits` base-12 digits of pi: the known table, then the filler.
pub fn pi_base12(n_digits: usize) -> (r: Vec<u8>)
    ensures
        r@ == pi_digits(n_digits as nat),
        r@.len() == n_digits,
        all_base12(r@),
{
    proof {
        lemma_tables_valid();
        lemma_filled_valid(PI_DIGITS@, n_digits as nat, SPIGOT_MULTIPLIER, SPIGOT_INCREMENT);
        lemma_filled_length(PI_DIGITS@, n_digits as nat, SPIGOT_MULTIPLIER, SPIGOT_INCREMENT);
    }
    let mut r = table_prefix(&PI_DIGITS, n_digits);
    if n_digits <= 100 {
        proof {
            lemma_filled_short(PI_DIGITS@, n_digits as nat, SPIGOT_MULTIPLIER, SPIGOT_INCREMENT);
        }
        return r;
    }
    assert(r@ =~= PI_DIGITS@);
    extend_with_spigot(&mut r, n_digits);
    r
}

/// The first `n_digits` base-12 digits of e: the known table, then the filler.
pub fn e_base12(n_digits: usize) -> (r: Vec<u8>)
    ensures
        r@ == e_digits(n_digits as nat),
        r@.len() == n_digits,
        all_base12(r@),
{
    proof {
        lemma_tables_valid();
        lemma_filled_valid(E_DIGITS@, n_digits as nat, SPIGOT_MULTIPLIER, SPIGOT_INCREMENT);
        lemma_filled_length(E_DIGITS@, n_digits as nat, SPIGOT_MULTIPLIER, SPIGOT_INCREMENT);
    }
    let mut r = table_prefix(&E_DIGITS, n_digits);
    if n_digits <= 100 {
        proof {
            lemma_filled_short(E_DIGITS@, n_digits as nat, SPIGOT_MULTIPLIER, SPIGOT_INCREMENT);
        }
        return r;
    }
    assert(r@ =~= E_DIGITS@);
    extend_with_spigot(&mut r, n_digits);
    r
}

/// The first `n_digits` base-12 digits of the square root of 2: the known table, then the filler.
pub fn sqrt2_base12(n_digits: usize) -> (r: Vec<u8>)
    ensures
        r@ == sqrt2_digits(n_digits as nat),
        r@.len() == n_digits,
        all_base12(r@),
{
    proof {
        lemma_tables_valid();
        lemma_filled_valid(SQRT2_DIGITS@, n_digits as nat, NEWTON_MULTIPLIER, NEWTON_INCREMENT);
        lemma_filled_length(SQRT2_DIGITS@, n_digits as nat, NEWTON_MULTIPLIER, NEWTON_INCREMENT);
    }
    let mut r = table_prefix(&SQRT2_DIGITS, n_digits);
    if n_digits <= 100 {
        proof {
            lemma_filled_short(SQRT2_DIGITS@, n_digits as nat, NEWTON_MULTIPLIER, NEWTON_INCREMENT);
        }
        return r;
    }
    assert(r@ =~= SQRT2_DIGITS@);
    extend_with_newton(&mut r, n_digits);
    r
}

/// The first `n_digits` base-12 digits of the golden ratio: the known table, then the filler.
pub fn phi_base12(n_digits: usize) -> (r: Vec<u8>)
    ensures
        r@ == phi_digits(n_digits as nat),
        r@.len() == n_digits,
        all_base12(r@),
{
    proof {
        lemma_tables_valid();
        lemma_filled_valid(PHI_DIGITS@, n_digits as nat, NEWTON_MULTIPLIER, NEWTON_INCREMENT);
        lemma_filled_length(PHI_DIGITS@, n_digits as nat, NEWTON_MULTIPLIER, NEWTON_INCREMENT);
    }
    let mut r = table_prefix(&PHI_DIGITS, n_digits);
    if n_digits <= 100 {
        proof {
            lemma_filled_short(PHI_DIGITS@, n_digits as nat, NEWTON_MULTIPLIER, NEWTON_INCREMENT);
        }
        return r;
    }
    assert(r@ =~= PHI_DIGITS@);
    extend_with_newton(&mut r, n_digits);
    r
}

/// The first `n_digits` base-12 digits of ln 2: the known table, then the filler.
pub fn ln2_base12(n_digits: usize) -> (r: Vec<u8>)
    ensures
        r@ == ln2_digits(n_digits as nat),
        r@.len() == n_digits,
        all_base12(r@),
{
    proof {
        lemma_tables_valid();
        lemma_filled_valid(LN2_DIGITS@, n_digits as nat, SPIGOT_MULTIPLIER, SPIGOT_INCREMENT);
        lemma_filled_length(LN2_DIGITS@, n_digits as nat, SPIGOT_MULTIPLIER, SPIGOT_INCREMENT);
    }
    let mut r = table_prefix(&LN2_DIGITS, n_digits);
    if n_digits <= 100 {
        proof {
            lemma_filled_short(LN2_DIGITS@, n_digits as nat, SPIGOT_MULTIPLIER, SPIGOT_INCREMENT);
        }
        return r;
    }
    assert(r@ =~= LN2_DIGITS@);
    extend_with_spigot(&mut r, n_digits);
    r
}

} // verus!

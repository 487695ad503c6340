use vstd::prelude::*;

verus! {

/// `n` is a positive power of two: 1, 2, 4, 8, ...
pub open spec fn power_of_two(n: nat) -> bool
    decreases n,
{
    if n == 0 {
        false
    } else if n == 1 {
        true
    } else {
        n % 2 == 0 && power_of_two(n / 2)
    }
}

proof fn lemma_and_pred_even(x: usize)
    by (bit_vector)
    requires
        x > 0,
        x % 2 == 0,
    ensures
        (x & ((x - 1) as usize) == 0) == ((x / 2) & ((x / 2 - 1) as usize) == 0),
{
}

proof fn lemma_and_pred_odd(x: usize)
    by (bit_vector)
    requires
        x > 1,
        x % 2 == 1,
    ensures
        x & ((x - 1) as usize) == (x - 1) as usize,
{
}

proof fn lemma_and_even_mask(x: usize, n: usize)
    by (bit_vector)
    requires
        n >= 2,
        n % 2 == 0,
    ensures
        x & ((n - 1) as usize) == (((x / 2) & ((n / 2 - 1) as usize)) * 2 + x % 2) as usize,
{
}

proof fn lemma_disjoint_pred_sum(x: usize)
    by (bit_vector)
    requires
        x > 0,
        x & ((x - 1) as usize) == 0,
    ensures
        x + (x - 1) == x | ((x - 1) as usize),
{
}

/// Twice a power of two, less one, still fits in a `usize`.
pub proof fn lemma_power_of_two_headroom(n: usize)
    requires
        power_of_two(n as nat),
    ensures
        n + (n - 1) <= usize::MAX,
{
    lemma_power_of_two_bits(n);
    lemma_disjoint_pred_sum(n);
}

/// A positive `x` has no bit in common with `x - 1` exactly when it is a power of two.
pub proof fn lemma_power_of_two_bits(x: usize)
    requires
        x > 0,
    ensures
        (x & ((x - 1) as usize) == 0) == power_of_two(x as nat),
    decreases x,
{
    if x > 1 {
        if x % 2 == 0 {
            lemma_and_pred_even(x);
            lemma_power_of_two_bits(x / 2);
        } else {
            lemma_and_pred_odd(x);
        }
    } else {
        assert(1usize & 0usize == 0) by (bit_vector);
    }
}

/// Masking with `n - 1` reduces modulo `n` when `n` is a power of two.
pub proof fn lemma_mask_is_mod(x: usize, n: usize)
    requires
        power_of_two(n as nat),
    ensures
        x & ((n - 1) as usize) == x % n,
    decreases n,
{
    if n == 1 {
        assert(x & 0usize == 0) by (bit_vector);
    } else {
        let m: usize = n / 2;
        lemma_mask_is_mod(x / 2, m);
        lemma_and_even_mask(x, n);
        vstd::arithmetic::div_mod::lemma_mod_breakdown(x as int, 2, m as int);
    }
}

/// Whether `x` is a power of two. Zero is not one.
pub fn is_power_of_two(x: usize) -> (r: bool)
    ensures
        r == power_of_two(x as nat),
{
    if x == 0 {
        false
    } else {
        proof {
            lemma_power_of_two_bits(x);
        }
        (x & (x - 1)) == 0
    }
}

/// Reduces a non-negative cell coordinate onto a periodic axis of length `n`.
pub fn wrap_index(c: usize, n: usize) -> (r: usize)
    requires
        power_of_two(n as nat),
    ensures
        r == c % n,
        r < n,
{
    proof {
        lemma_mask_is_mod(c, n);
    }
    c & (n - 1)
}

} // verus!

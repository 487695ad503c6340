use vstd::prelude::*;

use crate::util::{lemma_power_of_two_headroom, power_of_two, wrap_index};

verus! {

/// The largest `w` with `w * w <= n`.
pub open spec fn floor_sqrt(n: nat) -> nat {
    choose|w: nat| #[trigger] (w * w) <= n && n < (w + 1) * (w + 1)
}

/// The odd box width for `k` passes approximating a Gaussian of standard
/// deviation `p / q`: the ideal width is `sqrt(12 (p/q)^2 / k + 1)`, which is
/// floored and, when even, lowered by one.
pub open spec fn box_width(p: nat, q: nat, k: nat) -> nat {
    let w = floor_sqrt((12 * p * p + k * q * q) / (k * q * q));
    if w % 2 == 0 {
        (w - 1) as nat
    } else {
        w
    }
}

/// How many of the `k` passes use the narrower box: `k (w + 3) / 4 - 3 (p/q)^2 / (w + 1)`
/// rounded to the nearest integer (halves away from zero), and zero when negative.
pub open spec fn box_split(p: nat, q: nat, k: nat) -> nat {
    let w = box_width(p, q, k);
    let num: int = (k * q * q * (w + 3) * (w + 1)) as int - (12 * p * p) as int;
    let den: int = (4 * q * q * (w + 1)) as int;
    if num <= 0 {
        0
    } else {
        ((2 * num + den) / (2 * den)) as nat
    }
}

/// The radius of each of the `k` box passes for a Gaussian of standard deviation `p / q`:
/// the first `box_split` passes use `(w - 1) / 2`, the others `(w + 1) / 2`.
pub open spec fn box_radii(p: nat, q: nat, k: nat) -> Seq<nat> {
    let w = box_width(p, q, k);
    let m = box_split(p, q, k);
    Seq::new(k, |i: int| if i < m { ((w - 1) / 2) as nat } else { (w + 1) / 2 })
}

proof fn lemma_floor_sqrt_unique(n: nat, w: nat)
    requires
        w * w <= n,
        n < (w + 1) * (w + 1),
    ensures
        floor_sqrt(n) == w,
{
    assert(exists|u: nat| #[trigger] (u * u) <= n && n < (u + 1) * (u + 1));
    let v = floor_sqrt(n);
    assert(v * v <= n && n < (v + 1) * (v + 1));
    if v < w {
        assert((v + 1) * (v + 1) <= w * w) by (nonlinear_arith)
            requires
                v < w,
        ;
    }
    if w < v {
        assert((w + 1) * (w + 1) <= v * v) by (nonlinear_arith)
            requires
                w < v,
        ;
    }
}

/// The integer square root, by bisection.
fn integer_sqrt(n: u128) -> (r: u128)
    ensures
        r * r <= n,
        n < (r + 1) * (r + 1),
        r as nat == floor_sqrt(n as nat),
{
    let mut lo: u128 = 0;
    let mut hi: u128 = 0x1_0000_0000_0000_0000;
    assert(n < hi * hi);
    while hi - lo > 1
        invariant
            lo < hi <= 0x1_0000_0000_0000_0000,
            lo * lo <= n,
            n < hi * hi,
        decreases hi - lo,
    {
        let mid: u128 = lo + (hi - lo) / 2;
        assert(mid * mid < 0x1_0000_0000_0000_0000_0000_0000_0000_0000) by (nonlinear_arith)
            requires
                mid < 0x1_0000_0000_0000_0000,
        ;
        if mid * mid <= n {
            lo = mid;
        } else {
            hi = mid;
        }
    }
    assert(lo + 1 == hi);
    proof {
        lemma_floor_sqrt_unique(n as nat, lo as nat);
    }
    lo
}

/// Radii of `k` box-filter passes that together approximate a Gaussian blur of
/// standard deviation `sigma_num / sigma_den`.
pub fn boxes_for_gaussian(sigma_num: u32, sigma_den: u32, k: usize) -> (r: Vec<u64>)
    requires
        sigma_num > 0,
        sigma_den > 0,
        1 <= k <= 3,
    ensures
        r.len() == k,
        forall|i: int|
            0 <= i < k ==> r[i] as nat == box_radii(sigma_num as nat, sigma_den as nat, k as nat)[i],
{
    let ghost (gp, gq, gk) = (sigma_num as nat, sigma_den as nat, k as nat);
    let p: u128 = sigma_num as u128;
    let q: u128 = sigma_den as u128;
    let kk: u128 = k as u128;
    assert(p * p < 0x1_0000_0000_0000_0000 && q * q < 0x1_0000_0000_0000_0000) by (nonlinear_arith)
        requires
            p < 0x1_0000_0000,
            q < 0x1_0000_0000,
    ;
    let p_sq: u128 = p * p;
    let q_sq: u128 = q * q;
    assert(kk * q_sq < 0x4_0000_0000_0000_0000) by (nonlinear_arith)
        requires
            kk <= 3,
            q_sq < 0x1_0000_0000_0000_0000,
    ;
    let kq_sq: u128 = kk * q_sq;
    assert(kq_sq >= 1 && q_sq >= 1) by (nonlinear_arith)
        requires
            kq_sq == kk * q_sq,
            kk >= 1,
            q_sq == q * q,
            q >= 1,
    ;
    let t: u128 = 12 * p_sq + kq_sq;
    let quot: u128 = t / kq_sq;
    assert(quot >= 1) by (nonlinear_arith)
        requires
            t >= kq_sq,
            kq_sq >= 1,
            quot == t / kq_sq,
    ;
    let w_ideal: u128 = integer_sqrt(quot);
    assert(w_ideal < 0x4_0000_0000) by (nonlinear_arith)
        requires
            w_ideal * w_ideal <= quot,
            quot <= t,
            t < 0x10_0000_0000_0000_0000,
    ;
    assert(w_ideal * w_ideal * kq_sq <= t) by (nonlinear_arith)
        requires
            w_ideal * w_ideal <= quot,
            quot == t / kq_sq,
            kq_sq >= 1,
    ;
    assert(w_ideal >= 1) by (nonlinear_arith)
        requires
            quot >= 1,
            quot < (w_ideal + 1) * (w_ideal + 1),
    ;
    assert(kq_sq == gk * gq * gq && p_sq == gp * gp) by (nonlinear_arith)
        requires
            kq_sq == kk * q_sq,
            q_sq == q * q,
            p_sq == p * p,
            gk == kk,
            gq == q,
            gp == p,
    ;
    assert(q_sq == gq * gq);
    assert(quot as nat == (12 * gp * gp + gk * gq * gq) / (gk * gq * gq)) by (nonlinear_arith)
        requires
            kq_sq == gk * gq * gq,
            p_sq == gp * gp,
            t == 12 * p_sq + kq_sq,
            quot == t / kq_sq,
    ;
    let w: u128 = if w_ideal % 2 == 0 {
        w_ideal - 1
    } else {
        w_ideal
    };
    assert(w as nat == box_width(gp, gq, gk));
    assert(kq_sq * (w + 3) * (w + 1) <= 2 * t + 7 * kq_sq) by (nonlinear_arith)
        requires
            w <= w_ideal,
            w_ideal * w_ideal * kq_sq <= t,
    ;
    assert(kq_sq * (w + 3) <= kq_sq * (w + 3) * (w + 1)) by (nonlinear_arith)
        requires
            kq_sq >= 1,
    ;
    let a: u128 = kq_sq * (w + 3) * (w + 1);
    let b: u128 = 12 * p_sq;
    assert(a == gk * gq * gq * (w + 3) * (w + 1) && b == 12 * gp * gp && 4 * q_sq * (w + 1) == 4
        * gq * gq * (w + 1)) by (nonlinear_arith)
        requires
            kq_sq == gk * gq * gq,
            p_sq == gp * gp,
            q_sq == gq * gq,
            a == kq_sq * (w + 3) * (w + 1),
            b == 12 * p_sq,
    ;
    let m: u128 = if a <= b {
        0
    } else {
        assert(4 * q_sq * (w + 1) < 0x40_0000_0000_0000_0000_0000_0000) by (nonlinear_arith)
            requires
                q_sq < 0x1_0000_0000_0000_0000,
                w < 0x4_0000_0000,
        ;
        assert(4 * q_sq * (w + 1) >= 4) by (nonlinear_arith)
            requires
                q_sq >= 1,
        ;
        let den: u128 = 4 * q_sq * (w + 1);
        (2 * (a - b) + den) / (2 * den)
    };
    assert(m as nat == box_split(gp, gq, gk));
    let narrow: u64 = ((w - 1) / 2) as u64;
    let wide: u64 = ((w + 1) / 2) as u64;
    let mut radii: Vec<u64> = Vec::new();
    let mut i: usize = 0;
    while i < k
        invariant
            i <= k,
            radii.len() == i,
            gk == k,
            w as nat == box_width(gp, gq, gk),
            m as nat == box_split(gp, gq, gk),
            narrow as nat == (w - 1) / 2,
            wide as nat == (w + 1) / 2,
            forall|j: int|
                0 <= j < i ==> radii[j] as nat == box_radii(gp, gq, gk)[j],
        decreases k - i,
    {
        if (i as u128) < m {
            radii.push(narrow);
        } else {
            radii.push(wide);
        }
        i = i + 1;
    }
    radii
}

/// Sum of `len` consecutive cells of the periodic row `s`, starting at cell `start`
/// (which may lie outside `0..s.len()`).
pub open spec fn span_sum(s: Seq<int>, start: int, len: nat) -> int
    decreases len,
{
    if len == 0 {
        0
    } else {
        span_sum(s, start, (len - 1) as nat) + s[(start + len - 1) % (s.len() as int)]
    }
}

/// Sum of the periodic row `s` over the window of `2 r + 1` cells centred on `i`.
pub open spec fn window_sum(s: Seq<int>, i: int, r: nat) -> int {
    span_sum(s, i - r, 2 * r + 1)
}

/// Sum of all cells of `s`.
pub open spec fn row_total(s: Seq<int>) -> int {
    span_sum(s, 0, s.len())
}

/// Sum of the window sums of `s` over the first `m` centres.
pub open spec fn windows_total(s: Seq<int>, r: nat, m: nat) -> int
    decreases m,
{
    if m == 0 {
        0
    } else {
        windows_total(s, r, (m - 1) as nat) + window_sum(s, m - 1, r)
    }
}

/// The row `s` with its last `r` cells copied before it and its first `r` cells after it.
pub open spec fn padded(s: Seq<int>, r: nat) -> Seq<int> {
    s.subrange(s.len() - r, s.len() as int) + s + s.subrange(0, r as int)
}

/// Sum of `len` consecutive entries of `p` from index `start`, without wraparound.
pub open spec fn plain_sum(p: Seq<int>, start: int, len: nat) -> int
    decreases len,
{
    if len == 0 {
        0
    } else {
        plain_sum(p, start, (len - 1) as nat) + p[start + len - 1]
    }
}

proof fn lemma_span_slides(s: Seq<int>, a: int, len: nat)
    requires
        s.len() > 0,
    ensures
        span_sum(s, a + 1, len) == span_sum(s, a, len) - s[a % (s.len() as int)] + s[(a + len)
            % (s.len() as int)],
    decreases len,
{
    if len > 0 {
        lemma_span_slides(s, a, (len - 1) as nat);
        assert(a + 1 + len - 1 == a + len);
    }
}

proof fn lemma_span_shift_period(s: Seq<int>, a: int, len: nat)
    requires
        s.len() > 0,
    ensures
        span_sum(s, a + s.len(), len) == span_sum(s, a, len),
    decreases len,
{
    if len > 0 {
        lemma_span_shift_period(s, a, (len - 1) as nat);
        let n = s.len() as int;
        assert((a + n + len - 1) % n == (a + len - 1) % n) by {
            vstd::arithmetic::div_mod::lemma_mod_add_multiples_vanish(a + len - 1, n);
        }
    }
}

/// Moving a periodic window one cell to the right removes the cell `r + 1` before the
/// new centre and adds the cell `r` after it; the window before cell `0` is the one
/// centred on the last cell.
pub proof fn lemma_window_slides(s: Seq<int>, i: int, r: nat)
    requires
        s.len() > 0,
        0 <= i < s.len(),
    ensures
        window_sum(s, i, r) == window_sum(s, (i + s.len() - 1) % (s.len() as int), r) - s[(i - r
            - 1) % (s.len() as int)] + s[(i + r) % (s.len() as int)],
{
    let n = s.len() as int;
    lemma_span_slides(s, i - 1 - r, 2 * r + 1);
    assert(i - 1 - r + 1 == i - r);
    assert(i - 1 - r + (2 * r + 1) == i + r);
    if i == 0 {
        assert((i + n - 1) % n == n - 1) by {
            vstd::arithmetic::div_mod::lemma_small_mod((n - 1) as nat, n as nat);
        }
        lemma_span_shift_period(s, -1 - r, 2 * r + 1);
        assert(-1 - r + n == n - 1 - r);
    } else {
        assert((i + n - 1) % n == i - 1) by {
            vstd::arithmetic::div_mod::lemma_mod_add_multiples_vanish(i - 1, n);
            vstd::arithmetic::div_mod::lemma_small_mod((i - 1) as nat, n as nat);
        }
    }
}

proof fn lemma_padded_index(s: Seq<int>, r: nat, j: int)
    requires
        s.len() > 0,
        r <= s.len(),
        0 <= j < s.len() + 2 * r,
    ensures
        padded(s, r)[j] == s[(j - r) % (s.len() as int)],
{
    let n = s.len() as int;
    if j < r {
        assert((j - r) % n == j - r + n) by {
            vstd::arithmetic::div_mod::lemma_mod_add_multiples_vanish(j - r, n);
            vstd::arithmetic::div_mod::lemma_small_mod((j - r + n) as nat, n as nat);
        }
    } else if j < n + r {
        vstd::arithmetic::div_mod::lemma_small_mod((j - r) as nat, n as nat);
    } else {
        assert((j - r) % n == j - r - n) by {
            vstd::arithmetic::div_mod::lemma_mod_add_multiples_vanish(j - r - n, n);
            vstd::arithmetic::div_mod::lemma_small_mod((j - r - n) as nat, n as nat);
        }
    }
}

proof fn lemma_span_matches_padded(s: Seq<int>, i: int, r: nat, len: nat)
    requires
        s.len() > 0,
        r <= s.len(),
        0 <= i < s.len(),
        len <= 2 * r + 1,
    ensures
        span_sum(s, i - r, len) == plain_sum(padded(s, r), i, len),
    decreases len,
{
    if len > 0 {
        lemma_span_matches_padded(s, i, r, (len - 1) as nat);
        lemma_padded_index(s, r, i + len - 1);
        assert(i + len - 1 - r == i - r + len - 1);
    }
}

/// Toroidal filtering agrees with a manual reference: the periodic window sum at `i`
/// equals the plain sum of `2 r + 1` entries from index `i` of the row padded with `r`
/// cells copied from each opposite edge.
pub proof fn lemma_window_matches_padded(s: Seq<int>, i: int, r: nat)
    requires
        s.len() > 0,
        r <= s.len(),
        0 <= i < s.len(),
    ensures
        window_sum(s, i, r) == plain_sum(padded(s, r), i, 2 * r + 1),
{
    lemma_span_matches_padded(s, i, r, 2 * r + 1);
}

/// Sum over the first `m` starts `i + a` of the span sums of length `len`.
pub open spec fn shifted_total(s: Seq<int>, a: int, len: nat, m: nat) -> int
    decreases m,
{
    if m == 0 {
        0
    } else {
        shifted_total(s, a, len, (m - 1) as nat) + span_sum(s, m - 1 + a, len)
    }
}

proof fn lemma_full_span_any_start(s: Seq<int>, c: int)
    requires
        s.len() > 0,
    ensures
        span_sum(s, c, s.len()) == row_total(s),
    decreases (if c >= 0 { c } else { -c }),
{
    let n = s.len() as int;
    if c > 0 {
        lemma_full_span_any_start(s, c - 1);
        lemma_span_slides(s, c - 1, s.len());
        vstd::arithmetic::div_mod::lemma_mod_add_multiples_vanish(c - 1, n);
    } else if c < 0 {
        lemma_full_span_any_start(s, c + 1);
        lemma_span_slides(s, c, s.len());
        vstd::arithmetic::div_mod::lemma_mod_add_multiples_vanish(c, n);
    }
}

proof fn lemma_shifted_total_empty(s: Seq<int>, a: int, m: nat)
    ensures
        shifted_total(s, a, 0, m) == 0,
    decreases m,
{
    if m > 0 {
        lemma_shifted_total_empty(s, a, (m - 1) as nat);
    }
}

proof fn lemma_shifted_total_grow(s: Seq<int>, a: int, len: nat, m: nat)
    requires
        s.len() > 0,
    ensures
        shifted_total(s, a, len + 1, m) == shifted_total(s, a, len, m) + span_sum(s, a + len, m),
    decreases m,
{
    if m > 0 {
        lemma_shifted_total_grow(s, a, len, (m - 1) as nat);
        assert(m - 1 + a + (len + 1) - 1 == a + len + m - 1);
    }
}

proof fn lemma_shifted_total_full(s: Seq<int>, a: int, len: nat)
    requires
        s.len() > 0,
    ensures
        shifted_total(s, a, len, s.len()) == len * row_total(s),
    decreases len,
{
    if len == 0 {
        lemma_shifted_total_empty(s, a, s.len());
    } else {
        let l = (len - 1) as nat;
        lemma_shifted_total_full(s, a, l);
        lemma_shifted_total_grow(s, a, l, s.len());
        lemma_full_span_any_start(s, a + l);
        vstd::arithmetic::mul::lemma_mul_is_distributive_add_other_way(row_total(s), l as int, 1);
    }
}

proof fn lemma_windows_are_shifted_spans(s: Seq<int>, r: nat, m: nat)
    ensures
        windows_total(s, r, m) == shifted_total(s, -r, 2 * r + 1, m),
    decreases m,
{
    if m > 0 {
        lemma_windows_are_shifted_spans(s, r, (m - 1) as nat);
        assert(m - 1 + (-r) == m - 1 - r);
    }
}

/// A box pass of radius `r` with unit weight per cell adds up, over all centres,
/// to `2 r + 1` times the row's total: normalised by `2 r + 1`, the pass keeps the sum.
pub proof fn lemma_windows_conserve_total(s: Seq<int>, r: nat)
    requires
        s.len() > 0,
    ensures
        windows_total(s, r, s.len()) == (2 * r + 1) * row_total(s),
{
    lemma_windows_are_shifted_spans(s, r, s.len());
    lemma_shifted_total_full(s, -r, 2 * r + 1);
}

/// The cells that leave and enter a periodic window of `radius` on an axis of length
/// `n` as its centre moves onto cell `i`: `(i - radius - 1) mod n` and `(i + radius) mod n`.
pub fn window_step(i: usize, radius: usize, n: usize) -> (r: (usize, usize))
    requires
        power_of_two(n as nat),
        i < n,
        radius < n,
    ensures
        r.0 as int == (i - radius - 1) % (n as int),
        r.1 as int == (i + radius) % (n as int),
{
    proof {
        lemma_power_of_two_headroom(n);
        vstd::arithmetic::div_mod::lemma_mod_add_multiples_vanish(i - radius - 1, n as int);
    }
    let leaving = wrap_index(i + (n - radius - 1), n);
    let entering = wrap_index(i + radius, n);
    (leaving, entering)
}

/// The `2 radius + 1` cells of the periodic window centred on `center` along an axis of
/// length `n`, from the lowest offset to the highest.
pub fn window_cells(center: usize, radius: usize, n: usize) -> (cells: Vec<usize>)
    requires
        power_of_two(n as nat),
        center < n,
        radius < n,
    ensures
        cells.len() == 2 * radius + 1,
        forall|t: int|
            0 <= t < cells.len() ==> cells[t] as int == (center - radius + t) % (n as int),
{
    proof {
        lemma_power_of_two_headroom(n);
        vstd::arithmetic::div_mod::lemma_mod_add_multiples_vanish(center - radius, n as int);
    }
    let width: usize = 2 * radius + 1;
    let mut cells: Vec<usize> = Vec::new();
    let mut c: usize = wrap_index(center + (n - radius), n);
    let mut t: usize = 0;
    while t < width
        invariant
            power_of_two(n as nat),
            n + (n - 1) <= usize::MAX,
            width == 2 * radius + 1,
            t <= width,
            cells.len() == t,
            c < n,
            c as int == (center - radius + t) % (n as int),
            forall|u: int| 0 <= u < t ==> cells[u] as int == (center - radius + u) % (n as int),
        decreases width - t,
    {
        cells.push(c);
        proof {
            vstd::arithmetic::div_mod::lemma_add_mod_noop(center - radius + t, 1, n as int);
            vstd::arithmetic::div_mod::lemma_add_mod_noop(c as int, 1, n as int);
            vstd::arithmetic::div_mod::lemma_small_mod(c as nat, n as nat);
        }
        c = wrap_index(c + 1, n);
        t = t + 1;
    }
    cells
}

} // verus!

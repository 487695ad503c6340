use vstd::prelude::*;

use rand::rngs::StdRng;
use rand::seq::SliceRandom;
use std::cmp::Ordering;

verus! {

#[verifier::external_type_specification]
#[verifier::external_body]
pub struct ExStdRng(StdRng);

/// Relies on rand's `SliceRandom::choose` for slices: on a non-empty slice it returns
/// `Some` of one of the slice's elements.
#[verifier::external_body]
fn choose_from(options: &[i8], rng: &mut StdRng) -> (r: i8)
    requires
        options@.len() > 0,
    ensures
        options@.contains(r),
{
    *options.choose(rng).unwrap()
}

/// `o` says that the first of two readings is at least the second.
pub open spec fn at_least(o: Option<Ordering>) -> bool {
    o == Some(Ordering::Greater) || o == Some(Ordering::Equal)
}

/// The centre reading dominates: it is at least both side readings and above one of them.
pub open spec fn centre_dominates(centre_vs_left: Option<Ordering>, centre_vs_right: Option<Ordering>) -> bool {
    at_least(centre_vs_left) && at_least(centre_vs_right) && (centre_vs_left == Some(
        Ordering::Greater) || centre_vs_right == Some(Ordering::Greater))
}

/// The centre reading is below both side readings: a local minimum with no preferred side.
pub open spec fn centre_is_trough(centre_vs_left: Option<Ordering>, centre_vs_right: Option<Ordering>) -> bool {
    centre_vs_left == Some(Ordering::Less) && centre_vs_right == Some(Ordering::Less)
}

/// The turn an agent takes from its three sensor readings, given as the comparisons
/// centre against left, centre against right, and left against right (`None` where
/// the readings are unordered). `0` keeps the heading, `1` turns towards the right
/// sensor, `-1` towards the left one; at a trough the turn is `tie_break`.
pub open spec fn turn_rule(
    centre_vs_left: Option<Ordering>,
    centre_vs_right: Option<Ordering>,
    left_vs_right: Option<Ordering>,
    tie_break: i8,
) -> i8 {
    if centre_dominates(centre_vs_left, centre_vs_right) {
        0
    } else if centre_is_trough(centre_vs_left, centre_vs_right) {
        tie_break
    } else if left_vs_right == Some(Ordering::Less) {
        1
    } else if left_vs_right == Some(Ordering::Greater) {
        -1i8
    } else {
        0
    }
}

fn is_greater(o: Option<Ordering>) -> (r: bool)
    ensures
        r == (o == Some(Ordering::Greater)),
{
    match o {
        Some(Ordering::Greater) => true,
        _ => false,
    }
}

fn is_less(o: Option<Ordering>) -> (r: bool)
    ensures
        r == (o == Some(Ordering::Less)),
{
    match o {
        Some(Ordering::Less) => true,
        _ => false,
    }
}

fn is_at_least(o: Option<Ordering>) -> (r: bool)
    ensures
        r == at_least(o),
{
    match o {
        Some(Ordering::Greater) => true,
        Some(Ordering::Equal) => true,
        _ => false,
    }
}

/// The turn for the given sensor comparisons, with `tie_break` (`-1` or `1`) taken at a trough.
pub fn turn_direction(
    centre_vs_left: Option<Ordering>,
    centre_vs_right: Option<Ordering>,
    left_vs_right: Option<Ordering>,
    tie_break: i8,
) -> (r: i8)
    requires
        tie_break == -1 || tie_break == 1,
    ensures
        r == turn_rule(centre_vs_left, centre_vs_right, left_vs_right, tie_break),
{
    if is_at_least(centre_vs_left) && is_at_least(centre_vs_right) && (is_greater(centre_vs_left)
        || is_greater(centre_vs_right)) {
        0
    } else if is_less(centre_vs_left) && is_less(centre_vs_right) {
        tie_break
    } else if is_less(left_vs_right) {
        1
    } else if is_greater(left_vs_right) {
        -1
    } else {
        0
    }
}

/// The turn for the given sensor comparisons, drawing the side uniformly from `rng`
/// only at a trough.
pub fn steer(
    centre_vs_left: Option<Ordering>,
    centre_vs_right: Option<Ordering>,
    left_vs_right: Option<Ordering>,
    rng: &mut StdRng,
) -> (r: i8)
    ensures
        centre_is_trough(centre_vs_left, centre_vs_right) ==> (r == -1 || r == 1),
        !centre_is_trough(centre_vs_left, centre_vs_right) ==> r == turn_rule(
            centre_vs_left,
            centre_vs_right,
            left_vs_right,
            1,
        ),
{
    let mut tie_break: i8 = 1;
    if is_less(centre_vs_left) && is_less(centre_vs_right) {
        let sides: [i8; 2] = [-1, 1];
        tie_break = choose_from(&sides, rng);
        assert(tie_break == -1 || tie_break == 1);
    }
    turn_direction(centre_vs_left, centre_vs_right, left_vs_right, tie_break)
}

/// Agents per population when `n_particles` are shared out over `n_populations`,
/// rounding up: `ceil(n_particles / n_populations)`.
pub open spec fn per_population(n_particles: nat, n_populations: nat) -> nat {
    ((n_particles + n_populations - 1) / (n_populations as int)) as nat
}

/// The number of agents of each population.
pub fn particles_per_population(n_particles: usize, n_populations: usize) -> (r: usize)
    requires
        n_populations > 0,
    ensures
        r == per_population(n_particles as nat, n_populations as nat),
        r * n_populations >= n_particles,
        r * n_populations < n_particles + n_populations,
{
    let q = n_particles / n_populations;
    proof {
        let (n, p) = (n_particles as int, n_populations as int);
        vstd::arithmetic::div_mod::lemma_fundamental_div_mod(n, p);
        vstd::arithmetic::mul::lemma_mul_is_commutative(q as int, p);
        vstd::arithmetic::mul::lemma_mul_is_distributive_add_other_way(p, q as int, 1);
        assert(q * p >= q) by (nonlinear_arith)
            requires
                p >= 1,
                q >= 0,
        ;
        let rem = n % p;
        if rem == 0 {
            vstd::arithmetic::div_mod::lemma_fundamental_div_mod_converse(n + p - 1, p, q as int, p - 1);
        } else {
            vstd::arithmetic::div_mod::lemma_fundamental_div_mod_converse(n + p - 1, p, q + 1, rem - 1);
        }
    }
    let r = if n_particles % n_populations == 0 {
        q
    } else {
        q + 1
    };
    r
}

/// The population of each agent: agents are numbered `0..per * n_populations`, where
/// `per` is the number of agents per population, and agent `i` belongs to population
/// `i / per`.
pub fn population_ids(n_particles: usize, n_populations: usize) -> (ids: Vec<usize>)
    requires
        n_populations > 0,
        n_particles + n_populations <= usize::MAX,
    ensures
        ids.len() == per_population(n_particles as nat, n_populations as nat) * n_populations,
        forall|i: int|
            0 <= i < ids.len() ==> ids[i] == i / (per_population(
                n_particles as nat,
                n_populations as nat,
            ) as int),
        forall|i: int| 0 <= i < ids.len() ==> ids[i] < n_populations,
{
    let per = particles_per_population(n_particles, n_populations);
    let total = per * n_populations;
    let mut ids: Vec<usize> = Vec::new();
    let mut i: usize = 0;
    while i < total
        invariant
            total == per * n_populations,
            per == per_population(n_particles as nat, n_populations as nat),
            i <= total,
            ids.len() == i,
            forall|j: int| 0 <= j < i ==> ids[j] == j / (per as int),
            forall|j: int| 0 <= j < i ==> ids[j] < n_populations,
        decreases total - i,
    {
        assert(per > 0) by (nonlinear_arith)
            requires
                i < total,
                total == per * n_populations,
        ;
        assert(i / per < n_populations) by {
            vstd::arithmetic::div_mod::lemma_fundamental_div_mod(i as int, per as int);
            assert(i / per < n_populations) by (nonlinear_arith)
                requires
                    i == per * (i / per) + i % per,
                    i % per >= 0,
                    i < per * n_populations,
                    per > 0,
            ;
        }
        ids.push(i / per);
        i = i + 1;
    }
    ids
}

} // verus!

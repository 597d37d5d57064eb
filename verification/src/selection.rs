use vstd::prelude::*;
use crate::types::{Ind, Pop, copy_ind};
use crate::sampling::RandSource;

verus! {

// Selection copies genomes of the current population into the next one in
// proportion to fitness.  Fitness is a plain unsigned score, higher is
// better; the stochastic universal sweep works in exact integer arithmetic,
// scaled by the population size so that nothing is rounded.

/// Index `a` outranks index `b`: strictly fitter, or equally fit and
/// earlier in encounter order.
pub open spec fn rank_before(fits: Seq<u64>, a: int, b: int) -> bool {
    fits[a] > fits[b] || (fits[a] == fits[b] && a < b)
}

/// Whether index `i` occurs in the list.
pub open spec fn has_index(chosen: Seq<usize>, i: int) -> bool {
    exists|t: int| 0 <= t < chosen.len() && chosen[t] == i
}

/// The best-ranked index below `m` that is not in `chosen`, or -1.
pub open spec fn best_from(fits: Seq<u64>, chosen: Seq<usize>, m: int) -> int
    decreases m,
{
    if m <= 0 {
        -1
    } else {
        let prev = best_from(fits, chosen, m - 1);
        if has_index(chosen, m - 1) {
            prev
        } else if prev == -1 || rank_before(fits, m - 1, prev) {
            m - 1
        } else {
            prev
        }
    }
}

/// The first `k` indices in rank order (fittest first, ties by encounter
/// order); fewer if the population is smaller than `k`.
pub open spec fn k_elite_rec(fits: Seq<u64>, k: nat) -> Seq<usize>
    decreases k,
{
    if k == 0 {
        Seq::empty()
    } else {
        let prev = k_elite_rec(fits, (k - 1) as nat);
        let b = best_from(fits, prev, fits.len() as int);
        if b == -1 {
            prev
        } else {
            prev.push(b as usize)
        }
    }
}

pub open spec fn k_elite_spec(fits: Seq<u64>, k: nat) -> Seq<usize> {
    k_elite_rec(fits, k)
}

fn contains_index(chosen: &Vec<usize>, i: usize) -> (b: bool)
    ensures
        b == has_index(chosen@, i as int),
{
    let mut t: usize = 0;
    while t < chosen.len()
        invariant
            t <= chosen@.len(),
            forall|s: int| 0 <= s < t ==> chosen@[s] != i,
        decreases chosen@.len() - t,
    {
        if chosen[t] == i {
            return true;
        }
        t = t + 1;
    }
    false
}

/// The indices of the `num_elite` fittest genomes, fittest first, ties
/// broken by encounter order.
pub fn k_elite(fitnesses: &Vec<u64>, num_elite: usize) -> (r: Vec<usize>)
    ensures
        r@ == k_elite_spec(fitnesses@, num_elite as nat),
        forall|t: int| 0 <= t < r@.len() ==> (#[trigger] r@[t]) < fitnesses@.len(),
        forall|s: int, t: int| 0 <= s < t < r@.len() ==> r@[s] != r@[t],
{
    let ghost fits = fitnesses@;
    let n = fitnesses.len();
    let mut elite_indices: Vec<usize> = Vec::new();
    let mut round: usize = 0;
    while round < num_elite
        invariant
            round <= num_elite,
            n == fits.len(),
            fits == fitnesses@,
            elite_indices@ == k_elite_rec(fits, round as nat),
            forall|t: int| 0 <= t < elite_indices@.len() ==> (#[trigger] elite_indices@[t]) < n,
            forall|s: int, t: int|
                0 <= s < t < elite_indices@.len() ==> elite_indices@[s] != elite_indices@[t],
            round >= elite_indices@.len(),
        decreases num_elite - round,
    {
        let ghost chosen = elite_indices@;
        let mut best: usize = 0;
        let mut found: bool = false;
        let mut m: usize = 0;
        while m < n
            invariant
                m <= n,
                n == fits.len(),
                fits == fitnesses@,
                chosen == elite_indices@,
                !found ==> best_from(fits, chosen, m as int) == -1,
                found ==> best_from(fits, chosen, m as int) == best as int && best < m && !has_index(
                    chosen,
                    best as int,
                ),
            decreases n - m,
        {
            if !contains_index(&elite_indices, m) {
                if !found {
                    best = m;
                    found = true;
                } else {
                    if fitnesses[m] > fitnesses[best] {
                        best = m;
                    }
                }
            }
            m = m + 1;
        }
        if !found {
            // every index is already chosen; no more elites to add
            proof {
                assert(k_elite_rec(fits, (round + 1) as nat) == chosen);
            }
        } else {
            elite_indices.push(best);
            proof {
                assert(k_elite_rec(fits, (round + 1) as nat) == chosen.push(best));
            }
        }
        round = round + 1;
    }
    elite_indices
}

// --- the stochastic universal sweep, in exact integers -------------------

/// The fitness mass of the first `i` genomes.
pub open spec fn prefix_fitness(fits: Seq<u64>, i: int) -> int
    decreases i,
{
    if i <= 0 {
        0
    } else {
        prefix_fitness(fits, i - 1) + fits[i - 1]
    }
}

/// The whole population's fitness mass.
pub open spec fn total_fitness(fits: Seq<u64>) -> int {
    prefix_fitness(fits, fits.len() as int)
}

/// The sweep walks evenly spaced offsets `u, u + T, u + 2T, ...` over the
/// fitness axis scaled by the population size `n` (so the spacing `T` is the
/// total fitness and the mean increment never needs rounding).  This counts
/// the offsets that fall within the first `i` genomes' scaled fitness span.
pub open spec fn picks_through(fits: Seq<u64>, u: int, i: int) -> int
    recommends
        total_fitness(fits) > 0,
{
    if i <= 0 {
        0
    } else {
        let a = (fits.len() as int) * prefix_fitness(fits, i);
        if a < u {
            0
        } else {
            (a - u) / total_fitness(fits) + 1
        }
    }
}

pub open spec fn capped(x: int, n: int) -> int {
    if x > n {
        n
    } else {
        x
    }
}

/// Exactly how many copies the sweep takes of genome `i` (the sweep stops
/// once it has emitted one genome per population slot).
pub open spec fn sus_count_spec(fits: Seq<u64>, u: int, i: int) -> int {
    capped(picks_through(fits, u, i + 1), fits.len() as int) - capped(
        picks_through(fits, u, i),
        fits.len() as int,
    )
}

proof fn lemma_prefix_fitness_mono(fits: Seq<u64>, i: int, j: int)
    requires
        i <= j,
    ensures
        prefix_fitness(fits, i) <= prefix_fitness(fits, j),
    decreases j - i,
{
    if i < j {
        lemma_prefix_fitness_mono(fits, i, j - 1);
    }
}

proof fn lemma_prefix_fitness_nonneg(fits: Seq<u64>, i: int)
    ensures
        prefix_fitness(fits, i) >= 0,
    decreases i,
{
    if i > 0 {
        lemma_prefix_fitness_nonneg(fits, i - 1);
    }
}

/// The total over a list of counts.
pub open spec fn sum_counts(cs: Seq<usize>) -> int
    decreases cs.len(),
{
    if cs.len() == 0 {
        0
    } else {
        cs[0] + sum_counts(cs.skip(1))
    }
}

proof fn lemma_sum_counts_nonneg(cs: Seq<usize>)
    ensures
        sum_counts(cs) >= 0,
    decreases cs.len(),
{
    if cs.len() > 0 {
        lemma_sum_counts_nonneg(cs.skip(1));
    }
}

proof fn lemma_sum_counts_snoc(cs: Seq<usize>, c: usize)
    ensures
        sum_counts(cs.push(c)) == sum_counts(cs) + c,
    decreases cs.len(),
{
    if cs.len() == 0 {
        assert(cs.push(c).skip(1) =~= Seq::<usize>::empty());
        assert(cs.push(c)[0] == c);
        assert(sum_counts(Seq::<usize>::empty()) == 0);
    } else {
        assert(cs.push(c)[0] == cs[0]);
        assert(cs.push(c).skip(1) =~= cs.skip(1).push(c));
        lemma_sum_counts_snoc(cs.skip(1), c);
    }
}

proof fn lemma_sum_counts_update(cs: Seq<usize>, d: int, v: usize)
    requires
        0 <= d < cs.len(),
    ensures
        sum_counts(cs.update(d, v)) == sum_counts(cs) - cs[d] + v,
    decreases cs.len(),
{
    if d == 0 {
        assert(cs.update(0, v)[0] == v);
        assert(cs.update(0, v).skip(1) =~= cs.skip(1));
    } else {
        assert(cs.update(d, v)[0] == cs[0]);
        assert(cs.update(d, v).skip(1) =~= cs.skip(1).update(d - 1, v));
        lemma_sum_counts_update(cs.skip(1), d - 1, v);
    }
}

proof fn lemma_sum_counts_all_le_one(cs: Seq<usize>)
    requires
        forall|i: int| 0 <= i < cs.len() ==> #[trigger] cs[i] <= 1,
    ensures
        sum_counts(cs) <= cs.len(),
    decreases cs.len(),
{
    if cs.len() > 0 {
        assert(forall|i: int| 0 <= i < cs.skip(1).len() ==> cs.skip(1)[i] == cs[i + 1]);
        lemma_sum_counts_all_le_one(cs.skip(1));
    }
}

proof fn lemma_sum_counts_with_zero(cs: Seq<usize>, e: int)
    requires
        forall|i: int| 0 <= i < cs.len() ==> #[trigger] cs[i] <= 1,
        0 <= e < cs.len(),
        cs[e] == 0,
    ensures
        sum_counts(cs) <= cs.len() - 1,
    decreases cs.len(),
{
    assert(forall|i: int| 0 <= i < cs.skip(1).len() ==> cs.skip(1)[i] == cs[i + 1]);
    if e == 0 {
        lemma_sum_counts_all_le_one(cs.skip(1));
    } else {
        lemma_sum_counts_with_zero(cs.skip(1), e - 1);
    }
}

/// Sum a fitness vector; callers guarantee the total fits in the word.
fn total_fitness_exec(fitnesses: &Vec<u64>) -> (t: u64)
    requires
        total_fitness(fitnesses@) <= u64::MAX,
    ensures
        t as int == total_fitness(fitnesses@),
{
    let ghost fits = fitnesses@;
    let mut acc: u64 = 0;
    let mut i: usize = 0;
    while i < fitnesses.len()
        invariant
            i <= fits.len(),
            fits == fitnesses@,
            acc as int == prefix_fitness(fits, i as int),
            total_fitness(fits) <= u64::MAX,
        decreases fits.len() - i,
    {
        proof {
            lemma_prefix_fitness_mono(fits, i + 1, fits.len() as int);
            lemma_prefix_fitness_nonneg(fits, i as int);
        }
        acc = acc + fitnesses[i];
        i = i + 1;
    }
    acc
}

/// How many copies the sweep takes of each genome, computed exactly.
fn sus_counts(fitnesses: &Vec<u64>, offset_scaled: u64) -> (counts: Vec<usize>)
    requires
        total_fitness(fitnesses@) > 0,
        total_fitness(fitnesses@) <= u64::MAX,
        (offset_scaled as int) < total_fitness(fitnesses@),
    ensures
        counts@.len() == fitnesses@.len(),
        forall|i: int|
            0 <= i < counts@.len() ==> (#[trigger] counts@[i]) as int == sus_count_spec(
                fitnesses@,
                offset_scaled as int,
                i,
            ),
        sum_counts(counts@) == fitnesses@.len(),
{
    let ghost fits = fitnesses@;
    let ghost u = offset_scaled as int;
    let ghost tt = total_fitness(fits);
    let n = fitnesses.len();
    let total = total_fitness_exec(fitnesses);
    let t128: u128 = total as u128;
    let mut counts: Vec<usize> = Vec::new();
    let mut offset: u128 = offset_scaled as u128;
    let mut accum_n: u128 = 0;
    let mut picked: usize = 0;
    let mut i: usize = 0;
    while i < n
        invariant
            i <= n,
            n == fits.len(),
            fits == fitnesses@,
            counts@.len() == i,
            tt == total_fitness(fits),
            0 < tt <= u64::MAX,
            total as int == tt,
            t128 as int == tt,
            u == offset_scaled as int,
            0 <= u < tt,
            accum_n as int == (n as int) * prefix_fitness(fits, i as int),
            picked <= n,
            picked as int == capped(picks_through(fits, u, i as int), n as int),
            offset as int == u + (picked as int) * tt,
            picked > 0 ==> u + ((picked as int) - 1) * tt <= accum_n as int,
            forall|j: int|
                0 <= j < i ==> (#[trigger] counts@[j]) as int == sus_count_spec(fits, u, j),
            sum_counts(counts@) == picked as int,
        decreases n - i,
    {
        proof {
            lemma_prefix_fitness_nonneg(fits, i as int);
            lemma_prefix_fitness_mono(fits, i + 1, n as int);
            lemma_prefix_fitness_nonneg(fits, n as int);
            assert((n as int) * prefix_fitness(fits, i + 1) <= (n as int) * tt
                && (n as int) * prefix_fitness(fits, i as int) <= (n as int) * prefix_fitness(
                fits,
                i + 1,
            ) && (n as int) * tt < u128::MAX && (n as int) * prefix_fitness(fits, i + 1) == (
            n as int) * prefix_fitness(fits, i as int) + (n as int) * (fits[i as int] as int) && (
            n as int) * (fits[i as int] as int) >= 0) by (nonlinear_arith)
                requires
                    0 <= prefix_fitness(fits, i as int) <= prefix_fitness(fits, i + 1) <= tt,
                    prefix_fitness(fits, i + 1) == prefix_fitness(fits, i as int) + fits[i as int],
                    0 < tt <= u64::MAX,
                    0 <= n <= usize::MAX,
            ;
        }
        accum_n = accum_n + (n as u128) * (fitnesses[i] as u128);
        let ghost picked_entry = picked as int;
        let ghost a = accum_n as int;
        let mut c: usize = 0;
        while offset <= accum_n && picked < n
            invariant
                n == fits.len(),
                0 < tt <= u64::MAX,
                t128 as int == tt,
                0 <= u < tt,
                a == accum_n as int,
                accum_n as int <= (n as int) * tt,
                0 <= picked_entry <= picked as int,
                picked <= n,
                c as int == picked as int - picked_entry,
                offset as int == u + (picked as int) * tt,
                picked as int > picked_entry ==> u + ((picked as int) - 1) * tt <= a,
            decreases n - picked,
        {
            c = c + 1;
            picked = picked + 1;
            proof {
                assert(u + (picked as int) * tt == offset as int + tt && u + ((picked as int) - 1)
                    * tt == offset as int) by (nonlinear_arith)
                    requires
                        offset as int == u + ((picked as int) - 1) * tt,
                ;
                assert(offset as int + tt < u128::MAX) by (nonlinear_arith)
                    requires
                        offset as int == u + ((picked as int) - 1) * tt,
                        0 <= u < tt,
                        0 < tt <= u64::MAX,
                        0 < picked <= n <= usize::MAX,
                ;
            }
            offset = offset + t128;
        }
        proof {
            lemma_inner_sweep_exit(
                fits,
                u,
                i as int,
                picked_entry,
                picked as int,
                a,
                offset as int,
                n as int,
            );
            lemma_sum_counts_snoc(counts@, c);
        }
        counts.push(c);
        i = i + 1;
    }
    proof {
        assert(picked as int == n as int) by {
            lemma_final_pick_count(fits, u, n as int);
        }
    }
    counts
}

/// At the end of one genome's inner sweep, the number picked so far is the
/// capped count of offsets through that genome.
proof fn lemma_inner_sweep_exit(
    fits: Seq<u64>,
    u: int,
    i: int,
    picked_entry: int,
    picked: int,
    a: int,
    offset: int,
    n: int,
)
    requires
        n == fits.len(),
        0 < total_fitness(fits),
        0 <= u < total_fitness(fits),
        0 <= i < n,
        a == n * prefix_fitness(fits, i + 1),
        picked_entry == capped(picks_through(fits, u, i), n),
        picked_entry <= picked <= n,
        offset == u + picked * total_fitness(fits),
        offset > a || picked == n,
        picked > picked_entry ==> u + (picked - 1) * total_fitness(fits) <= a,
        picked_entry > 0 ==> u + (picked_entry - 1) * total_fitness(fits) <= n * prefix_fitness(
            fits,
            i,
        ),
    ensures
        picked == capped(picks_through(fits, u, i + 1), n),
{
    let tt = total_fitness(fits);
    lemma_prefix_fitness_nonneg(fits, i);
    lemma_prefix_fitness_mono(fits, i, i + 1);
    let pt = picks_through(fits, u, i + 1);
    if picked == n && offset <= a {
        // the sweep stopped only because the population is full
        assert(a - u >= n * tt && a >= u) by (nonlinear_arith)
            requires
                offset == u + n * tt,
                offset <= a,
                n >= 0,
                tt > 0,
                u >= 0,
        ;
        assert((a - u) / tt >= n) by {
            vstd::arithmetic::div_mod::lemma_div_is_ordered(n * tt, a - u, tt);
            vstd::arithmetic::div_mod::lemma_div_by_multiple(n, tt);
        }
        assert(pt >= n + 1);
    } else {
        // offset > a: the next offset lies beyond this genome
        if picked == 0 {
            assert(a < u);
            assert(pt == 0);
        } else {
            // u + (picked-1)*tt <= a < u + picked*tt pins the division
            if picked > picked_entry {
            } else {
                assert(picked == picked_entry > 0);
                assert(u + (picked - 1) * tt <= n * prefix_fitness(fits, i));
                assert(n * prefix_fitness(fits, i) <= a) by (nonlinear_arith)
                    requires
                        prefix_fitness(fits, i) <= prefix_fitness(fits, i + 1),
                        a == n * prefix_fitness(fits, i + 1),
                        n >= 0,
                ;
            }
            assert(u + (picked - 1) * tt <= a);
            assert(a >= u) by (nonlinear_arith)
                requires
                    u + (picked - 1) * tt <= a,
                    picked >= 1,
                    tt > 0,
            ;
            assert((a - u) == (picked - 1) * tt + (a - u - (picked - 1) * tt));
            assert(0 <= a - u - (picked - 1) * tt < tt) by (nonlinear_arith)
                requires
                    u + (picked - 1) * tt <= a,
                    offset == u + picked * tt,
                    offset > a,
            ;
            vstd::arithmetic::div_mod::lemma_fundamental_div_mod_converse(
                a - u,
                tt,
                picked - 1,
                a - u - (picked - 1) * tt,
            );
            assert(pt == picked);
        }
    }
}

/// Once the sweep has crossed the whole population, it has picked one
/// genome per slot.
proof fn lemma_final_pick_count(fits: Seq<u64>, u: int, n: int)
    requires
        n == fits.len(),
        0 < total_fitness(fits),
        0 <= u < total_fitness(fits),
        n >= 0,
    ensures
        capped(picks_through(fits, u, n), n) == n,
{
    let tt = total_fitness(fits);
    if n == 0 {
    } else {
        let a = n * prefix_fitness(fits, n);
        assert(a == n * tt);
        assert(a - u >= (n - 1) * tt + (tt - u)) by (nonlinear_arith)
            requires
                a == n * tt,
        ;
        assert((a - u) / tt >= n - 1) by {
            vstd::arithmetic::div_mod::lemma_div_is_ordered((n - 1) * tt, a - u, tt);
            vstd::arithmetic::div_mod::lemma_div_by_multiple(n - 1, tt);
        }
        assert(a >= u) by (nonlinear_arith)
            requires
                a == n * tt,
                n >= 1,
                0 <= u < tt,
        ;
        assert(picks_through(fits, u, n) >= n);
    }
}

// --- elitism over the sweep's counts -------------------------------------

/// Give every elite index at least one copy without changing the total:
/// an elite whose sweep count is zero takes one copy from some genome that
/// holds at least two.
fn apply_elitism(counts: &mut Vec<usize>, elite: &Vec<usize>)
    requires
        forall|t: int| 0 <= t < elite@.len() ==> (#[trigger] elite@[t]) < old(counts)@.len(),
        sum_counts(old(counts)@) == old(counts)@.len(),
    ensures
        final(counts)@.len() == old(counts)@.len(),
        sum_counts(final(counts)@) == old(counts)@.len(),
        forall|t: int|
            0 <= t < elite@.len() ==> final(counts)@[#[trigger] elite@[t] as int] >= 1,
        forall|i: int|
            0 <= i < old(counts)@.len() && !has_index(elite@, i) ==> final(counts)@[i] <= old(
                counts)@[i],
        forall|i: int|
            0 <= i < old(counts)@.len() ==> final(counts)@[i] <= old(counts)@[i] || final(
                counts)@[i] == 1,
        forall|i: int|
            0 <= i < old(counts)@.len() && old(counts)@[i] >= 1 ==> final(counts)@[i] >= 1,
        elite@.len() == 0 ==> final(counts)@ == old(counts)@,
{
    let ghost c0 = counts@;
    let n = counts.len();
    let mut t: usize = 0;
    while t < elite.len()
        invariant
            t <= elite@.len(),
            counts@.len() == n,
            n == c0.len(),
            forall|s: int| 0 <= s < elite@.len() ==> (#[trigger] elite@[s]) < n,
            sum_counts(counts@) == n,
            forall|s: int| 0 <= s < t ==> counts@[#[trigger] elite@[s] as int] >= 1,
            forall|i: int|
                0 <= i < n && !has_index(elite@, i) ==> counts@[i] <= c0[i],
            forall|i: int| 0 <= i < n ==> counts@[i] <= c0[i] || counts@[i] == 1,
            forall|i: int| 0 <= i < n && c0[i] >= 1 ==> counts@[i] >= 1,
            t == 0 ==> counts@ == c0,
        decreases elite@.len() - t,
    {
        let ghost prev = counts@;
        let e = elite[t];
        if counts[e] == 0 {
            // some genome must hold at least two copies
            let mut donor: usize = 0;
            let mut found: bool = false;
            let mut d: usize = 0;
            while d < n
                invariant
                    d <= n,
                    counts@ == prev,
                    counts@.len() == n,
                    !found ==> forall|s: int| 0 <= s < d ==> #[trigger] counts@[s] <= 1,
                    found ==> donor < n && counts@[donor as int] >= 2,
                decreases n - d,
            {
                if counts[d] >= 2 {
                    donor = d;
                    found = true;
                }
                d = d + 1;
            }
            proof {
                if !found {
                    lemma_sum_counts_with_zero(counts@, e as int);
                    assert(false);
                }
            }
            let dc = counts[donor];
            counts.set(donor, dc - 1);
            let ec = counts[e];
            counts.set(e, ec + 1);
            proof {
                lemma_sum_counts_update(prev, donor as int, (prev[donor as int] - 1) as usize);
                lemma_sum_counts_update(
                    prev.update(donor as int, (prev[donor as int] - 1) as usize),
                    e as int,
                    1usize,
                );
                assert(counts@ =~= prev.update(donor as int, (prev[donor as int] - 1) as usize)
                    .update(e as int, 1usize));
            }
        }
        proof {
            assert forall|s: int| 0 <= s < t + 1 implies counts@[#[trigger] elite@[s] as int]
                >= 1 by {
                assert(s < t ==> prev[elite@[s] as int] >= 1);
            }
        }
        t = t + 1;
    }
}

// --- writing the selected genomes ----------------------------------------

/// `c` copies of one genome.
pub open spec fn repeated(x: Seq<u8>, c: int) -> Seq<Seq<u8>>
    decreases c,
{
    if c <= 0 {
        Seq::empty()
    } else {
        repeated(x, c - 1).push(x)
    }
}

/// The next generation: each genome of the population repeated as often as
/// its count says, in population order.
pub open spec fn expanded(pop: Seq<Seq<u8>>, cs: Seq<usize>) -> Seq<Seq<u8>>
    recommends
        pop.len() == cs.len(),
    decreases pop.len(),
{
    if pop.len() == 0 {
        Seq::empty()
    } else {
        expanded(pop.drop_last(), cs.drop_last()) + repeated(pop.last(), cs.last() as int)
    }
}

/// Overwrite the destination population with the selected copies.
fn write_selected(pop: &Pop<u8>, new_pop: &mut Pop<u8>, counts: &Vec<usize>)
    requires
        pop@.len() == counts@.len(),
        old(new_pop)@.len() == sum_counts(counts@),
    ensures
        final(new_pop)@ == expanded(pop@, counts@),
{
    let ghost p = pop@;
    let ghost cs = counts@;
    let n = pop.0.len();
    proof {
        assert(cs.skip(0) =~= cs);
        assert(Seq::<Seq<u8>>::empty() =~= new_pop@.subrange(0, 0));
        assert(p.subrange(0, 0) =~= Seq::<Seq<u8>>::empty());
        assert(cs.subrange(0, 0) =~= Seq::<usize>::empty());
    }
    let mut w: usize = 0;
    let mut i: usize = 0;
    while i < n
        invariant
            i <= n,
            n == p.len(),
            p == pop@,
            cs == counts@,
            cs.len() == n,
            new_pop@.len() == sum_counts(cs),
            w as int + sum_counts(cs.skip(i as int)) == sum_counts(cs),
            new_pop@.subrange(0, w as int) == expanded(
                p.subrange(0, i as int),
                cs.subrange(0, i as int),
            ),
        decreases n - i,
    {
        let ghost w_entry = w as int;
        let c = counts[i];
        proof {
            assert(cs.skip(i as int).skip(1) =~= cs.skip(i as int + 1));
            assert(sum_counts(cs.skip(i as int)) == cs[i as int] + sum_counts(
                cs.skip(i as int + 1),
            ));
            lemma_sum_counts_nonneg(cs.skip(i as int + 1));
        }
        let mut rep: usize = 0;
        while rep < c
            invariant
                rep <= c,
                c == cs[i as int],
                i < n,
                n == p.len(),
                p == pop@,
                cs == counts@,
                cs.len() == n,
                new_pop@.len() == sum_counts(cs),
                0 <= w_entry,
                w as int == w_entry + rep,
                w_entry + c + sum_counts(cs.skip(i as int + 1)) == sum_counts(cs),
                sum_counts(cs.skip(i as int + 1)) >= 0,
                new_pop@.subrange(0, w_entry) == expanded(
                    p.subrange(0, i as int),
                    cs.subrange(0, i as int),
                ),
                new_pop@.subrange(0, w as int) == expanded(
                    p.subrange(0, i as int),
                    cs.subrange(0, i as int),
                ) + repeated(p[i as int], rep as int),
            decreases c - rep,
        {
            let ghost before = new_pop@;
            let ghost before0 = new_pop.0@;
            proof {
                assert(w as int + 1 <= sum_counts(cs));
                assert(new_pop.0.len() == new_pop@.len());
                assert((w as int) < new_pop.0@.len());
            }
            new_pop.0.set(w, copy_ind(&pop.0[i]));
            proof {
                assert forall|j: int| 0 <= j < w as int implies new_pop@[j] == before[j] by {
                    assert(new_pop.0@[j] == before0[j]);
                    assert(new_pop@[j] == new_pop.0@[j]@);
                    assert(before[j] == before0[j]@);
                }
                assert(new_pop@.subrange(0, w_entry) =~= before.subrange(0, w_entry));
                assert(new_pop@.subrange(0, w as int) =~= before.subrange(0, w as int));
                assert(new_pop@.subrange(0, w as int + 1) =~= new_pop@.subrange(0, w as int).push(
                    p[i as int],
                ));
            }
            w = w + 1;
            rep = rep + 1;
        }
        proof {
            assert(p.subrange(0, i as int + 1).drop_last() =~= p.subrange(0, i as int));
            assert(cs.subrange(0, i as int + 1).drop_last() =~= cs.subrange(0, i as int));
            assert(p.subrange(0, i as int + 1).last() == p[i as int]);
            assert(cs.subrange(0, i as int + 1).last() == cs[i as int]);
        }
        i = i + 1;
    }
    proof {
        assert(p.subrange(0, n as int) =~= p);
        assert(cs.subrange(0, n as int) =~= cs);
        assert(cs.skip(n as int) =~= Seq::<usize>::empty());
        assert(new_pop@.subrange(0, w as int) =~= new_pop@);
    }
}

// --- the public selection operators --------------------------------------

/// Why a selection call cannot proceed.
#[derive(Debug, Clone, Copy, PartialEq, Eq)]
pub enum SelectionError {
    /// Every fitness is zero, so there is nothing to normalize by.
    ZeroTotalFitness,
}

/// What stochastic universal sampling with elitism leaves in the
/// destination: each genome repeated according to some count list that the
/// sweep and the elite guarantee shaped.  Without elitism the counts are
/// exactly the sweep's.
pub open spec fn sus_selected(
    pop: Seq<Seq<u8>>,
    fits: Seq<u64>,
    elitism: nat,
    u: int,
    out: Seq<Seq<u8>>,
) -> bool {
    exists|cs: Seq<usize>|
        {
            let elite = k_elite_spec(fits, elitism);
            &&& cs.len() == pop.len()
            &&& out == #[trigger] expanded(pop, cs)
            &&& sum_counts(cs) == pop.len()
            &&& (forall|t: int| 0 <= t < elite.len() ==> cs[#[trigger] elite[t] as int] >= 1)
            &&& (forall|i: int|
                0 <= i < cs.len() && !has_index(elite, i) ==> (#[trigger] cs[i]) as int
                    <= sus_count_spec(fits, u, i))
            &&& (forall|i: int|
                0 <= i < cs.len() ==> (#[trigger] cs[i]) as int <= sus_count_spec(fits, u, i)
                    || cs[i] == 1)
            &&& (forall|i: int|
                0 <= i < cs.len() && sus_count_spec(fits, u, i) >= 1 ==> (#[trigger] cs[i]) >= 1)
            &&& (elitism == 0 ==> forall|i: int|
                0 <= i < cs.len() ==> (#[trigger] cs[i]) as int == sus_count_spec(fits, u, i))
        }
}

/// Stochastic universal sampling with elitism, from an explicit sweep
/// offset `offset_scaled` in `[0, total fitness)`.  Fails exactly when the
/// total fitness is zero; on success the destination holds exactly
/// `pop_size` genomes as `sus_selected` describes.
pub fn select_stochastic_universal(
    pop: &Pop<u8>,
    new_pop: &mut Pop<u8>,
    fitnesses: &Vec<u64>,
    elitism: usize,
    offset_scaled: u64,
) -> (r: Result<(), SelectionError>)
    requires
        pop@.len() == fitnesses@.len(),
        old(new_pop)@.len() == pop@.len(),
        total_fitness(fitnesses@) <= u64::MAX,
        total_fitness(fitnesses@) > 0 ==> (offset_scaled as int) < total_fitness(fitnesses@),
    ensures
        r is Ok <==> total_fitness(fitnesses@) > 0,
        r is Ok ==> sus_selected(
            pop@,
            fitnesses@,
            elitism as nat,
            offset_scaled as int,
            final(new_pop)@,
        ),
        r is Err ==> final(new_pop)@ == old(new_pop)@,
{
    let total = total_fitness_exec(fitnesses);
    if total == 0 {
        return Result::Err(SelectionError::ZeroTotalFitness);
    }
    let mut counts = sus_counts(fitnesses, offset_scaled);
    let ghost sweep = counts@;
    let elite = k_elite(fitnesses, elitism);
    apply_elitism(&mut counts, &elite);
    write_selected(pop, new_pop, &counts);
    proof {
        let elite_s = k_elite_spec(fitnesses@, elitism as nat);
        let cs = counts@;
        assert(elitism == 0 ==> elite_s =~= Seq::<usize>::empty());
        assert(elitism == 0 ==> cs == sweep);
        assert(forall|i: int|
            0 <= i < cs.len() && sus_count_spec(fitnesses@, offset_scaled as int, i) >= 1
                ==> sweep[i] >= 1 && #[trigger] cs[i] >= 1);
        assert(cs.len() == pop@.len() && new_pop@ == expanded(pop@, cs) && sum_counts(cs)
            == pop@.len());
    }
    Result::Ok(())
}

/// Stochastic universal sampling into a freshly built population, returned
/// by value.
pub fn select_stochastic_universal_naive(
    pop: &Pop<u8>,
    fitnesses: &Vec<u64>,
    elitism: usize,
    offset_scaled: u64,
) -> (r: Result<Pop<u8>, SelectionError>)
    requires
        pop@.len() == fitnesses@.len(),
        total_fitness(fitnesses@) <= u64::MAX,
        total_fitness(fitnesses@) > 0 ==> (offset_scaled as int) < total_fitness(fitnesses@),
    ensures
        r is Ok <==> total_fitness(fitnesses@) > 0,
        r is Ok ==> sus_selected(
            pop@,
            fitnesses@,
            elitism as nat,
            offset_scaled as int,
            r->Ok_0@,
        ),
{
    let mut fresh: Vec<Ind<u8>> = Vec::new();
    let mut i: usize = 0;
    while i < pop.0.len()
        invariant
            i <= pop@.len(),
            fresh@.len() == i,
        decreases pop@.len() - i,
    {
        fresh.push(Ind(Vec::new()));
        i = i + 1;
    }
    let mut new_pop = Pop(fresh);
    match select_stochastic_universal(pop, &mut new_pop, fitnesses, elitism, offset_scaled) {
        Result::Ok(()) => Result::Ok(new_pop),
        Result::Err(e) => Result::Err(e),
    }
}

/// Stochastic universal sampling with the sweep offset drawn uniformly from
/// the source of draws.
pub fn stochastic_universal_sampling<R: RandSource>(
    pop: &Pop<u8>,
    new_pop: &mut Pop<u8>,
    fitnesses: &Vec<u64>,
    elitism: usize,
    rng: &mut R,
) -> (r: Result<(), SelectionError>)
    requires
        pop@.len() == fitnesses@.len(),
        old(new_pop)@.len() == pop@.len(),
        total_fitness(fitnesses@) <= u64::MAX,
    ensures
        r is Ok <==> total_fitness(fitnesses@) > 0,
        r is Ok ==> exists|u: int|
            0 <= u < total_fitness(fitnesses@) && sus_selected(
                pop@,
                fitnesses@,
                elitism as nat,
                u,
                final(new_pop)@,
            ),
        r is Err ==> final(new_pop)@ == old(new_pop)@,
{
    let total = total_fitness_exec(fitnesses);
    if total == 0 {
        return Result::Err(SelectionError::ZeroTotalFitness);
    }
    let offset_scaled = rng.below(total);
    let r = select_stochastic_universal(pop, new_pop, fitnesses, elitism, offset_scaled);
    proof {
        assert(r is Ok);
        assert(0 <= (offset_scaled as int) < total_fitness(fitnesses@));
    }
    r
}

// --- conservation law ----------------------------------------------------

proof fn lemma_repeated_len_and_index(x: Seq<u8>, c: int)
    ensures
        repeated(x, c).len() == if c <= 0 {
            0int
        } else {
            c
        },
        forall|j: int| 0 <= j < repeated(x, c).len() ==> #[trigger] repeated(x, c)[j] == x,
    decreases c,
{
    if c > 0 {
        lemma_repeated_len_and_index(x, c - 1);
    }
}

proof fn lemma_expanded_len(pop: Seq<Seq<u8>>, cs: Seq<usize>)
    requires
        pop.len() == cs.len(),
    ensures
        expanded(pop, cs).len() == sum_counts(cs),
    decreases pop.len(),
{
    if pop.len() == 0 {
    } else {
        lemma_expanded_len(pop.drop_last(), cs.drop_last());
        lemma_repeated_len_and_index(pop.last(), cs.last() as int);
        assert(cs =~= cs.drop_last().push(cs.last()));
        lemma_sum_counts_snoc(cs.drop_last(), cs.last());
        lemma_sum_counts_nonneg(cs.drop_last());
    }
}

proof fn lemma_expanded_contains(pop: Seq<Seq<u8>>, cs: Seq<usize>, e: int)
    requires
        pop.len() == cs.len(),
        0 <= e < pop.len(),
        cs[e] >= 1,
    ensures
        exists|s: int| 0 <= s < expanded(pop, cs).len() && #[trigger] expanded(pop, cs)[s] == pop[e],
    decreases pop.len(),
{
    lemma_expanded_len(pop.drop_last(), cs.drop_last());
    lemma_repeated_len_and_index(pop.last(), cs.last() as int);
    if e == pop.len() - 1 {
        let s = expanded(pop.drop_last(), cs.drop_last()).len() as int;
        lemma_sum_counts_nonneg(cs.drop_last());
        assert(expanded(pop, cs)[s] == pop[e]);
    } else {
        lemma_expanded_contains(pop.drop_last(), cs.drop_last(), e);
        let s = choose|s: int|
            0 <= s < expanded(pop.drop_last(), cs.drop_last()).len() && #[trigger] expanded(
                pop.drop_last(),
                cs.drop_last(),
            )[s] == pop.drop_last()[e];
        assert(expanded(pop, cs)[s] == pop[e]);
    }
}

/// Law: selection conserves the population size exactly, and every elite
/// index contributes at least one genome to the next generation.
pub proof fn lemma_selection_conservation(
    pop: Seq<Seq<u8>>,
    fits: Seq<u64>,
    elitism: nat,
    u: int,
    out: Seq<Seq<u8>>,
)
    requires
        pop.len() == fits.len(),
        sus_selected(pop, fits, elitism, u, out),
        forall|t: int|
            0 <= t < k_elite_spec(fits, elitism).len() ==> (#[trigger] k_elite_spec(
                fits,
                elitism,
            )[t]) < pop.len(),
    ensures
        out.len() == pop.len(),
        forall|t: int|
            0 <= t < k_elite_spec(fits, elitism).len() ==> exists|s: int|
                0 <= s < out.len() && #[trigger] out[s] == pop[#[trigger] k_elite_spec(
                    fits,
                    elitism,
                )[t] as int],
{
    let cs = choose|cs: Seq<usize>|
        {
            let elite = k_elite_spec(fits, elitism);
            &&& cs.len() == pop.len()
            &&& out == #[trigger] expanded(pop, cs)
            &&& sum_counts(cs) == pop.len()
            &&& (forall|t: int| 0 <= t < elite.len() ==> cs[#[trigger] elite[t] as int] >= 1)
            &&& (forall|i: int|
                0 <= i < cs.len() && !has_index(elite, i) ==> (#[trigger] cs[i]) as int
                    <= sus_count_spec(fits, u, i))
            &&& (forall|i: int|
                0 <= i < cs.len() ==> (#[trigger] cs[i]) as int <= sus_count_spec(fits, u, i)
                    || cs[i] == 1)
            &&& (forall|i: int|
                0 <= i < cs.len() && sus_count_spec(fits, u, i) >= 1 ==> (#[trigger] cs[i]) >= 1)
            &&& (elitism == 0 ==> forall|i: int|
                0 <= i < cs.len() ==> (#[trigger] cs[i]) as int == sus_count_spec(fits, u, i))
        };
    lemma_expanded_len(pop, cs);
    let elite = k_elite_spec(fits, elitism);
    assert forall|t: int| #![trigger elite[t]] 0 <= t < elite.len() implies exists|s: int|
        0 <= s < out.len() && #[trigger] out[s] == pop[elite[t] as int] by {
        lemma_expanded_contains(pop, cs, elite[t] as int);
    }
}

proof fn lemma_expanded_members(pop: Seq<Seq<u8>>, cs: Seq<usize>)
    requires
        pop.len() == cs.len(),
    ensures
        forall|s: int|
            0 <= s < expanded(pop, cs).len() ==> from_population(
                pop,
                #[trigger] expanded(pop, cs)[s],
            ),
    decreases pop.len(),
{
    if pop.len() > 0 {
        lemma_expanded_members(pop.drop_last(), cs.drop_last());
        lemma_repeated_len_and_index(pop.last(), cs.last() as int);
        let pre = expanded(pop.drop_last(), cs.drop_last());
        assert forall|s: int| 0 <= s < expanded(pop, cs).len() implies from_population(
            pop,
            #[trigger] expanded(pop, cs)[s],
        ) by {
            if s < pre.len() {
                assert(expanded(pop, cs)[s] == pre[s]);
                assert(from_population(pop.drop_last(), pre[s]));
                let w = choose|w: int| 0 <= w < pop.drop_last().len() && pre[s] == pop.drop_last()[w];
                assert(pop.drop_last()[w] == pop[w]);
                assert(from_population(pop, expanded(pop, cs)[s]));
            } else {
                assert(expanded(pop, cs)[s] == pop.last());
                assert(pop.last() == pop[pop.len() - 1]);
                assert(from_population(pop, expanded(pop, cs)[s]));
            }
        }
    }
}

/// Law: every genome the selection emits is a copy of some member of the
/// old population.
pub proof fn lemma_selection_members(
    pop: Seq<Seq<u8>>,
    fits: Seq<u64>,
    elitism: nat,
    u: int,
    out: Seq<Seq<u8>>,
)
    requires
        sus_selected(pop, fits, elitism, u, out),
    ensures
        forall|s: int| 0 <= s < out.len() ==> from_population(pop, #[trigger] out[s]),
{
    let cs = choose|cs: Seq<usize>|
        {
            let elite = k_elite_spec(fits, elitism);
            &&& cs.len() == pop.len()
            &&& out == #[trigger] expanded(pop, cs)
            &&& sum_counts(cs) == pop.len()
            &&& (forall|t: int| 0 <= t < elite.len() ==> cs[#[trigger] elite[t] as int] >= 1)
            &&& (forall|i: int|
                0 <= i < cs.len() && !has_index(elite, i) ==> (#[trigger] cs[i]) as int
                    <= sus_count_spec(fits, u, i))
            &&& (forall|i: int|
                0 <= i < cs.len() ==> (#[trigger] cs[i]) as int <= sus_count_spec(fits, u, i)
                    || cs[i] == 1)
            &&& (forall|i: int|
                0 <= i < cs.len() && sus_count_spec(fits, u, i) >= 1 ==> (#[trigger] cs[i]) >= 1)
            &&& (elitism == 0 ==> forall|i: int|
                0 <= i < cs.len() ==> (#[trigger] cs[i]) as int == sus_count_spec(fits, u, i))
        };
    lemma_expanded_members(pop, cs);
}

proof fn lemma_best_from_bounds(fits: Seq<u64>, chosen: Seq<usize>, m: int)
    requires
        m >= 0,
    ensures
        best_from(fits, chosen, m) == -1 || (0 <= best_from(fits, chosen, m) < m),
    decreases m,
{
    if m > 0 {
        lemma_best_from_bounds(fits, chosen, m - 1);
    }
}

/// Every elite index addresses a genome of the population.
pub proof fn lemma_k_elite_bounds(fits: Seq<u64>, k: nat)
    ensures
        forall|t: int|
            0 <= t < k_elite_spec(fits, k).len() ==> ((#[trigger] k_elite_spec(fits, k)[t]) as int)
                < fits.len(),
    decreases k,
{
    if k > 0 {
        lemma_k_elite_bounds(fits, (k - 1) as nat);
        let prev = k_elite_rec(fits, (k - 1) as nat);
        lemma_best_from_bounds(fits, prev, fits.len() as int);
        let b = best_from(fits, prev, fits.len() as int);
        let cur = k_elite_spec(fits, k);
        assert(k_elite_spec(fits, (k - 1) as nat) == prev);
        assert forall|t: int| 0 <= t < cur.len() implies ((#[trigger] cur[t]) as int)
            < fits.len() by {
            if b == -1 {
                assert(cur[t] == prev[t]);
                assert(((k_elite_spec(fits, (k - 1) as nat)[t]) as int) < fits.len());
            } else {
                if t < prev.len() {
                    assert(cur[t] == prev[t]);
                    assert(((k_elite_spec(fits, (k - 1) as nat)[t]) as int) < fits.len());
                } else {
                    assert(cur[t] == b as usize);
                }
            }
        }
    }
}

proof fn lemma_prefix_fitness_bound(fits: Seq<u64>, i: int, cap: int)
    requires
        0 <= i <= fits.len(),
        forall|j: int| 0 <= j < fits.len() ==> (#[trigger] fits[j]) <= cap,
        cap >= 0,
    ensures
        prefix_fitness(fits, i) <= i * cap,
    decreases i,
{
    if i > 0 {
        lemma_prefix_fitness_bound(fits, i - 1, cap);
        assert((i - 1) * cap + cap == i * cap) by (nonlinear_arith);
    }
}

/// A population of 32-bit fitness scores can never overflow a 64-bit
/// total.
pub proof fn lemma_total_fitness_bounded(fits: Seq<u64>)
    requires
        fits.len() <= u32::MAX,
        forall|j: int| 0 <= j < fits.len() ==> (#[trigger] fits[j]) <= u32::MAX,
    ensures
        total_fitness(fits) <= u64::MAX,
{
    lemma_prefix_fitness_bound(fits, fits.len() as int, u32::MAX as int);
    assert((fits.len() as int) * (u32::MAX as int) <= (u32::MAX as int) * (u32::MAX as int))
        by (nonlinear_arith)
        requires
            fits.len() <= u32::MAX,
    ;
}

// --- tournament selection ------------------------------------------------

/// The genome is a copy of some member of the population.
pub open spec fn from_population(pop: Seq<Seq<u8>>, g: Seq<u8>) -> bool {
    exists|w: int| 0 <= w < pop.len() && g == pop[w]
}

/// The position of the first fittest entrant among the first `m`.
pub open spec fn best_entrant(entrants: Seq<usize>, fits: Seq<u64>, m: int) -> int
    decreases m,
{
    if m <= 1 {
        0
    } else {
        let prev = best_entrant(entrants, fits, m - 1);
        if fits[entrants[m - 1] as int] > fits[entrants[prev] as int] {
            m - 1
        } else {
            prev
        }
    }
}

proof fn lemma_best_entrant_bounds(entrants: Seq<usize>, fits: Seq<u64>, m: int)
    requires
        m >= 1,
    ensures
        0 <= best_entrant(entrants, fits, m) < m,
    decreases m,
{
    if m > 1 {
        lemma_best_entrant_bounds(entrants, fits, m - 1);
    }
}

/// The outcome of one ranked tournament: the entrants are walked fittest
/// first (ties keep the earlier entrant); the rank whose accept draw is
/// true wins, and the last entrant left wins when every draw refused.
pub open spec fn tournament_winner_spec(
    entrants: Seq<usize>,
    fits: Seq<u64>,
    accepts: Seq<bool>,
) -> usize
    decreases entrants.len(),
{
    if entrants.len() == 0 {
        0
    } else if entrants.len() == 1 {
        entrants[0]
    } else {
        let b0 = best_entrant(entrants, fits, entrants.len() as int);
        let b = if 0 <= b0 < entrants.len() {
            b0
        } else {
            0
        };
        if accepts.len() > 0 && accepts[0] {
            entrants[b]
        } else {
            let rest = if accepts.len() > 0 {
                accepts.skip(1)
            } else {
                accepts
            };
            tournament_winner_spec(entrants.remove(b), fits, rest)
        }
    }
}

proof fn lemma_winner_is_entrant(entrants: Seq<usize>, fits: Seq<u64>, accepts: Seq<bool>)
    requires
        entrants.len() >= 1,
    ensures
        has_index(entrants, tournament_winner_spec(entrants, fits, accepts) as int),
    decreases entrants.len(),
{
    if entrants.len() == 1 {
        assert(entrants[0] == tournament_winner_spec(entrants, fits, accepts));
    } else {
        let b = best_entrant(entrants, fits, entrants.len() as int);
        lemma_best_entrant_bounds(entrants, fits, entrants.len() as int);
        assert(0 <= b < entrants.len());
        if accepts.len() > 0 && accepts[0] {
            assert(entrants[b] == tournament_winner_spec(entrants, fits, accepts));
        } else {
            let rest = if accepts.len() > 0 {
                accepts.skip(1)
            } else {
                accepts
            };
            let shrunk = entrants.remove(b);
            lemma_winner_is_entrant(shrunk, fits, rest);
            let w = tournament_winner_spec(shrunk, fits, rest);
            let t = choose|t: int| 0 <= t < shrunk.len() && shrunk[t] == w;
            if t < b {
                assert(entrants[t] == w);
            } else {
                assert(entrants[t + 1] == w);
            }
        }
    }
}

/// Run one ranked tournament to its exact outcome: `accepts[k]` is the
/// accept draw for the k-th rank.
pub fn tournament_winner(entrants: &Vec<usize>, fitnesses: &Vec<u64>, accepts: &Vec<bool>) -> (w:
    usize)
    requires
        entrants@.len() >= 1,
        accepts@.len() == entrants@.len(),
        forall|q: int| 0 <= q < entrants@.len() ==> (#[trigger] entrants@[q]) < fitnesses@.len(),
    ensures
        w == tournament_winner_spec(entrants@, fitnesses@, accepts@),
        has_index(entrants@, w as int),
        w < fitnesses@.len(),
{
    let ghost e0 = entrants@;
    let ghost a0 = accepts@;
    let ghost fits = fitnesses@;
    proof {
        lemma_winner_is_entrant(e0, fits, a0);
        let wspec = tournament_winner_spec(e0, fits, a0);
        let t = choose|t: int| 0 <= t < e0.len() && e0[t] == wspec as int;
        assert(e0[t] < fits.len());
        assert(e0.len() == entrants.len());
        assert(a0.skip(0) =~= a0);
    }
    let mut remaining: Vec<usize> = Vec::new();
    let mut c: usize = 0;
    while c < entrants.len()
        invariant
            c <= e0.len(),
            e0 == entrants@,
            remaining@ == e0.subrange(0, c as int),
        decreases e0.len() - c,
    {
        remaining.push(entrants[c]);
        proof {
            assert(remaining@ =~= e0.subrange(0, c + 1));
        }
        c = c + 1;
    }
    proof {
        assert(remaining@ =~= e0);
    }
    let mut round: usize = 0;
    loop
        invariant_except_break
            1 <= remaining@.len(),
            round + remaining@.len() == e0.len(),
            e0 == entrants@,
            a0 == accepts@,
            fits == fitnesses@,
            a0.len() == e0.len(),
            entrants.len() == e0.len(),
            has_index(e0, tournament_winner_spec(e0, fits, a0) as int),
            (tournament_winner_spec(e0, fits, a0) as int) < fits.len(),
            forall|q: int| 0 <= q < remaining@.len() ==> (#[trigger] remaining@[q]) < fits.len(),
            tournament_winner_spec(e0, fits, a0) == tournament_winner_spec(
                remaining@,
                fits,
                a0.skip(round as int),
            ),
        decreases remaining@.len(),
    {
        if remaining.len() == 1 {
            return remaining[0];
        }
        let ghost rem = remaining@;
        let mut bi: usize = 0;
        let mut q: usize = 1;
        while q < remaining.len()
            invariant
                1 <= q <= rem.len(),
                rem == remaining@,
                fits == fitnesses@,
                bi as int == best_entrant(rem, fits, q as int),
                bi < q,
                forall|t2: int| 0 <= t2 < rem.len() ==> (#[trigger] rem[t2]) < fits.len(),
            decreases rem.len() - q,
        {
            if fitnesses[remaining[q]] > fitnesses[remaining[bi]] {
                bi = q;
            }
            q = q + 1;
        }
        proof {
            lemma_best_entrant_bounds(rem, fits, rem.len() as int);
            assert(a0.skip(round as int)[0] == a0[round as int]);
            assert(a0.skip(round as int).skip(1) =~= a0.skip(round as int + 1));
        }
        if accepts[round] {
            return remaining[bi];
        }
        remaining.remove(bi);
        proof {
            assert(remaining@ =~= rem.remove(bi as int));
        }
        round = round + 1;
    }
}

/// The genome is the exact ranked-tournament outcome of some list of
/// drawn entrants and accept draws of the tournament's size.
pub open spec fn tournament_pick(
    pop: Seq<Seq<u8>>,
    fits: Seq<u64>,
    tourn_size: nat,
    g: Seq<u8>,
) -> bool {
    exists|ent: Seq<usize>, acc: Seq<bool>|
        {
            &&& ent.len() == tourn_size
            &&& acc.len() == tourn_size
            &&& (forall|q: int| 0 <= q < ent.len() ==> (#[trigger] ent[q]) < pop.len())
            &&& g == pop[#[trigger] tournament_winner_spec(ent, fits, acc) as int]
        }
}

/// Tournament selection: each non-elite slot of the destination is filled
/// by the winner of a small uniformly drawn tournament, ranked by fitness
/// and decided by a per-rank probability; elite slots keep their genome.
pub fn tournament_selection<R: RandSource>(
    pop: &Pop<u8>,
    new_pop: &mut Pop<u8>,
    fitnesses: &Vec<u64>,
    prob: crate::types::Prob,
    tourn_size: usize,
    elitism: usize,
    rng: &mut R,
)
    requires
        pop@.len() == fitnesses@.len(),
        old(new_pop)@.len() == pop@.len(),
        pop@.len() >= 1,
        pop@.len() <= u64::MAX,
        tourn_size >= 1,
        prob.valid(),
    ensures
        final(new_pop)@.len() == old(new_pop)@.len(),
        forall|s: int|
            0 <= s < pop@.len() && has_index(k_elite_spec(fitnesses@, elitism as nat), s)
                ==> final(new_pop)@[s] == pop@[s],
        forall|s: int|
            0 <= s < pop@.len() && !has_index(k_elite_spec(fitnesses@, elitism as nat), s)
                ==> from_population(pop@, #[trigger] final(new_pop)@[s]),
        forall|s: int|
            0 <= s < pop@.len() && !has_index(k_elite_spec(fitnesses@, elitism as nat), s)
                ==> tournament_pick(pop@, fitnesses@, tourn_size as nat, #[trigger] final(
                new_pop)@[s]),
{
    let ghost p = pop@;
    let n = pop.0.len();
    let elite = k_elite(fitnesses, elitism);
    let mut s: usize = 0;
    while s < n
        invariant
            s <= n,
            n == p.len(),
            p == pop@,
            n >= 1,
            n <= u64::MAX,
            tourn_size >= 1,
            prob.valid(),
            fitnesses@.len() == n,
            new_pop@.len() == n,
            elite@ == k_elite_spec(fitnesses@, elitism as nat),
            forall|j: int|
                0 <= j < s && has_index(elite@, j) ==> new_pop@[j] == p[j],
            forall|j: int|
                0 <= j < s && !has_index(elite@, j) ==> from_population(p, #[trigger] new_pop@[j]),
            forall|j: int|
                0 <= j < s && !has_index(elite@, j) ==> tournament_pick(
                    p,
                    fitnesses@,
                    tourn_size as nat,
                    #[trigger] new_pop@[j],
                ),
        decreases n - s,
    {
        let ghost prev = new_pop@;
        if contains_index(&elite, s) {
            new_pop.0.set(s, copy_ind(&pop.0[s]));
        } else {
            // run one tournament for this slot
            let mut entrants: Vec<usize> = Vec::new();
            let mut t: usize = 0;
            while t < tourn_size
                invariant
                    t <= tourn_size,
                    n >= 1,
                    n <= u64::MAX,
                    entrants@.len() == t,
                    forall|q: int| 0 <= q < t ==> (#[trigger] entrants@[q]) < n,
                decreases tourn_size - t,
            {
                entrants.push(rng.below(n as u64) as usize);
                t = t + 1;
            }
            // one accept draw per rank, then the exact ranked walk
            let mut accepts: Vec<bool> = Vec::new();
            let mut t2: usize = 0;
            while t2 < tourn_size
                invariant
                    t2 <= tourn_size,
                    accepts@.len() == t2,
                    prob.valid(),
                decreases tourn_size - t2,
            {
                accepts.push(crate::sampling::happens(rng, prob));
                t2 = t2 + 1;
            }
            let winner = tournament_winner(&entrants, fitnesses, &accepts);
            new_pop.0.set(s, copy_ind(&pop.0[winner]));
            proof {
                assert(new_pop@[s as int] == p[winner as int]);
                assert(from_population(p, new_pop@[s as int]));
                assert(entrants@.len() == tourn_size as nat && accepts@.len() == tourn_size as nat
                    && (forall|q: int|
                    0 <= q < entrants@.len() ==> (#[trigger] entrants@[q]) < p.len()) && new_pop@[
                s as int] == p[tournament_winner_spec(entrants@, fitnesses@, accepts@) as int]);
                assert(tournament_pick(p, fitnesses@, tourn_size as nat, new_pop@[s as int]));
            }
        }
        proof {
            assert forall|j: int|
                0 <= j < s + 1 && has_index(elite@, j) implies new_pop@[j] == p[j] by {
                if j < s {
                    assert(new_pop@[j] == prev[j]);
                }
            }
            assert forall|j: int|
                0 <= j < s + 1 && !has_index(elite@, j) implies from_population(
                p,
                #[trigger] new_pop@[j],
            ) by {
                if j < s {
                    assert(new_pop@[j] == prev[j]);
                    assert(from_population(p, prev[j]));
                }
            }
            assert forall|j: int|
                0 <= j < s + 1 && !has_index(elite@, j) implies tournament_pick(
                p,
                fitnesses@,
                tourn_size as nat,
                #[trigger] new_pop@[j],
            ) by {
                if j < s {
                    assert(new_pop@[j] == prev[j]);
                    assert(tournament_pick(p, fitnesses@, tourn_size as nat, prev[j]));
                }
            }
        }
        s = s + 1;
    }
}

} // verus!

use vstd::prelude::*;
use crate::types::{Ind, Pop, Prob, copy_ind};
use crate::sampling::{RandSource, happens};

verus! {

// Rotation cyclically permutes a genome's word sequence: with probability
// `pr` a genome is left-rotated by a uniformly drawn offset.

/// The genome left-rotated by `r` places: `s[r..] + s[..r]`.
pub open spec fn rotate_spec<T>(s: Seq<T>, r: int) -> Seq<T>
    recommends
        0 <= r <= s.len(),
{
    s.subrange(r, s.len() as int) + s.subrange(0, r)
}

/// Left-rotate a genome by `rotation_point`, building the result in a
/// reusable scratch buffer and copying it back.
pub fn rotate_copy<T: Copy>(ind: &mut Ind<T>, scratch: &mut Vec<T>, rotation_point: usize)
    requires
        rotation_point <= old(ind)@.len(),
    ensures
        final(ind)@ == rotate_spec(old(ind)@, rotation_point as int),
        final(scratch)@ == final(ind)@,
{
    let ghost x0 = ind@;
    let ind_len = ind.0.len();
    scratch.clear();
    let mut i: usize = rotation_point;
    while i < ind_len
        invariant
            rotation_point <= i <= ind_len,
            ind@ == x0,
            ind_len == x0.len(),
            scratch@ == x0.subrange(rotation_point as int, i as int),
        decreases ind_len - i,
    {
        scratch.push(ind.0[i]);
        proof {
            assert(scratch@ =~= x0.subrange(rotation_point as int, i + 1));
        }
        i = i + 1;
    }
    let mut j: usize = 0;
    while j < rotation_point
        invariant
            j <= rotation_point <= ind_len,
            ind@ == x0,
            ind_len == x0.len(),
            scratch@ == x0.subrange(rotation_point as int, ind_len as int) + x0.subrange(
                0,
                j as int,
            ),
        decreases rotation_point - j,
    {
        scratch.push(ind.0[j]);
        proof {
            assert(scratch@ =~= x0.subrange(rotation_point as int, ind_len as int) + x0.subrange(
                0,
                j + 1,
            ));
        }
        j = j + 1;
    }
    ind.0.clear();
    let mut t: usize = 0;
    while t < ind_len
        invariant
            t <= ind_len,
            scratch@ == rotate_spec(x0, rotation_point as int),
            scratch@.len() == ind_len,
            ind_len == x0.len(),
            ind@ == scratch@.subrange(0, t as int),
        decreases ind_len - t,
    {
        ind.0.push(scratch[t]);
        proof {
            assert(ind@ =~= scratch@.subrange(0, t + 1));
        }
        t = t + 1;
    }
    proof {
        assert(ind@ =~= scratch@);
    }
}

/// The in-place walk after `n` steps: the genome so far, the cursor, and
/// the value carried in hand.  Each step drops the carried value at
/// `(cursor + r) mod len`, picks up what was there, and moves the cursor
/// to it.
pub open spec fn cycle_walk<T>(s0: Seq<T>, r: int, n: nat) -> (Seq<T>, int, T)
    recommends
        s0.len() >= 1,
        0 <= r < s0.len(),
    decreases n,
{
    if n == 0 {
        (s0, 0, s0[0])
    } else {
        let prev = cycle_walk(s0, r, (n - 1) as nat);
        let other = (prev.1 + r) % (s0.len() as int);
        (prev.0.update(other, prev.2), other, prev.0[other])
    }
}

proof fn lemma_cycle_walk_zero<T>(s0: Seq<T>, n: nat)
    requires
        s0.len() >= 1,
    ensures
        cycle_walk(s0, 0, n) == (s0, 0int, s0[0]),
    decreases n,
{
    if n > 0 {
        lemma_cycle_walk_zero(s0, (n - 1) as nat);
        assert(0int % (s0.len() as int) == 0);
        assert(s0.update(0, s0[0]) =~= s0);
    }
}

/// Rotate a genome in place by walking the permutation cycle that starts
/// at index zero, for exactly `len` steps: the result is pinned by
/// `cycle_walk`.  The walk covers the whole genome only when that cycle
/// does, so the copy-based rotation is the one the population operator
/// uses; a rotation offset of zero leaves the genome unchanged.
pub fn rotate_naive<T: Copy>(ind: &mut Ind<T>, rotation_point: usize)
    requires
        1 <= old(ind)@.len(),
        rotation_point < old(ind)@.len(),
    ensures
        final(ind)@ == cycle_walk(old(ind)@, rotation_point as int, old(ind)@.len()).0,
        final(ind)@.len() == old(ind)@.len(),
        rotation_point == 0 ==> final(ind)@ == old(ind)@,
{
    let ghost x0 = ind@;
    let ghost r = rotation_point as int;
    let ind_len = ind.0.len();
    let mut index: usize = 0;
    let mut tmp: T = ind.0[0];
    let mut count: usize = 0;
    while count < ind_len
        invariant
            count <= ind_len,
            1 <= ind_len == x0.len(),
            rotation_point < ind_len,
            r == rotation_point as int,
            ind@.len() == x0.len(),
            index < ind_len,
            ind@ == cycle_walk(x0, r, count as nat).0,
            index as int == cycle_walk(x0, r, count as nat).1,
            tmp == cycle_walk(x0, r, count as nat).2,
        decreases ind_len - count,
    {
        let other_index = if index < ind_len - rotation_point {
            index + rotation_point
        } else {
            index - (ind_len - rotation_point)
        };
        proof {
            if index < ind_len - rotation_point {
                vstd::arithmetic::div_mod::lemma_fundamental_div_mod_converse(
                    index + r,
                    x0.len() as int,
                    0,
                    index + r,
                );
            } else {
                vstd::arithmetic::div_mod::lemma_fundamental_div_mod_converse(
                    index + r,
                    x0.len() as int,
                    1,
                    index + r - x0.len(),
                );
            }
            assert(other_index as int == (index as int + r) % (x0.len() as int));
        }
        let tmp2 = ind.0[other_index];
        ind.0.set(other_index, tmp);
        tmp = tmp2;
        index = other_index;
        count = count + 1;
    }
    proof {
        if rotation_point == 0 {
            lemma_cycle_walk_zero(x0, x0.len());
        }
    }
}

/// Law: a rotation by zero changes nothing — so the copy-based rotation
/// and the in-place cycle walk agree whenever the offset is a multiple of
/// the genome length (each is then the identity, by its contract).
pub proof fn lemma_rotate_zero<T>(s: Seq<T>)
    ensures
        rotate_spec(s, 0) == s,
{
    assert(rotate_spec(s, 0) =~= s);
}

/// Every genome of the next population is some left-rotation of its old
/// self (a rotation by zero leaves it unchanged).
pub open spec fn rotated_from<T>(x: Seq<T>, x2: Seq<T>) -> bool {
    exists|r: int| 0 <= r < x.len() && x2 == rotate_spec(x, r)
}

/// With probability `pr` per genome, left-rotate it by a uniformly drawn
/// offset in `[0, ind_size)`.
pub fn rotation<T: Copy, R: RandSource>(pop: &mut Pop<T>, pr: Prob, rng: &mut R)
    requires
        old(pop)@.len() >= 1,
        old(pop).well_formed(old(pop)@[0].len()),
        old(pop)@[0].len() >= 1,
        old(pop)@[0].len() <= u64::MAX,
        pr.valid(),
    ensures
        final(pop)@.len() == old(pop)@.len(),
        final(pop).well_formed(old(pop)@[0].len()),
        forall|i: int|
            0 <= i < old(pop)@.len() ==> rotated_from(old(pop)@[i], #[trigger] final(pop)@[i]),
{
    let ghost p0 = pop@;
    let ghost size = p0[0].len();
    let ind_len = pop.0[0].0.len();
    let mut scratch: Vec<T> = Vec::new();
    let mut i: usize = 0;
    while i < pop.0.len()
        invariant
            i <= pop@.len(),
            pop@.len() == p0.len(),
            p0.len() >= 1,
            p0 == old(pop)@,
            size == p0[0].len(),
            1 <= ind_len == size,
            ind_len <= u64::MAX,
            pop.well_formed(size),
            old(pop).well_formed(size),
            pr.valid(),
            forall|j: int| 0 <= j < i ==> rotated_from(p0[j], #[trigger] pop@[j]),
            forall|j: int| i <= j < p0.len() ==> pop@[j] == p0[j],
        decreases pop@.len() - i,
    {
        let ghost prev = pop@;
        if happens(rng, pr) {
            let rotation_point = rng.below(ind_len as u64) as usize;
            let mut ind = copy_ind(&pop.0[i]);
            rotate_copy(&mut ind, &mut scratch, rotation_point);
            pop.0.set(i, ind);
            proof {
                assert(0 <= (rotation_point as int) < p0[i as int].len() && pop@[i as int]
                    == rotate_spec(p0[i as int], rotation_point as int));
            }
        } else {
            proof {
                assert(rotate_spec(p0[i as int], 0) =~= p0[i as int]);
                assert(0 <= 0 < p0[i as int].len() && pop@[i as int] == rotate_spec(
                    p0[i as int],
                    0,
                ));
            }
        }
        proof {
            assert forall|j: int| 0 <= j < i + 1 implies rotated_from(p0[j], pop@[j]) by {
                if j < i {
                    assert(rotated_from(p0[j], prev[j]));
                    assert(pop@[j] == prev[j]);
                }
            }
        }
        i = i + 1;
    }
}

} // verus!

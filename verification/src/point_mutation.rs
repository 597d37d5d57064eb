use vstd::prelude::*;
use crate::types::{Ind, Pop, Prob};
use crate::sampling::{RandSource, happens};

verus! {

// Point mutation flips individual bits of the packed genome, each bit
// independently with probability `pm`.  The naive form draws once per bit;
// the fast form draws geometric gaps between flips, so it spends one draw
// per flip instead of one per bit.

/// The genome after flipping the bit at flat position `pos` of the bit
/// stream (word `pos / bits_used`, bit `pos % bits_used`).
pub open spec fn flipped_at(s: Seq<u8>, bits_used: nat, pos: int) -> Seq<u8>
    recommends
        1 <= bits_used <= 8,
        0 <= pos < s.len() * bits_used,
{
    let w = pos / bits_used as int;
    let b = pos % bits_used as int;
    s.update(w, s[w] ^ (1u8 << (b as u8)))
}

/// The genome after flipping a whole list of flat bit positions in order.
pub open spec fn flipped_all(s: Seq<u8>, bits_used: nat, ps: Seq<int>) -> Seq<u8>
    decreases ps.len(),
{
    if ps.len() == 0 {
        s
    } else {
        flipped_all(flipped_at(s, bits_used, ps[0]), bits_used, ps.skip(1))
    }
}

/// Strictly increasing flat bit positions, all within the genome.
pub open spec fn increasing_positions(ps: Seq<int>, total_bits: nat) -> bool {
    &&& forall|i: int, j: int| 0 <= i < j < ps.len() ==> #[trigger] ps[i] < #[trigger] ps[j]
    &&& forall|i: int| 0 <= i < ps.len() ==> 0 <= #[trigger] ps[i] < total_bits
}

/// The genome changed only by flipping some strictly increasing list of bit
/// positions within its bit stream.
pub open spec fn mutated_from(x: Seq<u8>, x2: Seq<u8>, bits_used: nat) -> bool {
    exists|ps: Seq<int>|
        increasing_positions(ps, x.len() * bits_used) && x2 == flipped_all(x, bits_used, ps)
}

/// Flip each bit of the genome independently with probability `pm`, one
/// draw per bit.
pub fn point_mutate_naive<R: RandSource>(ind: &mut Ind<u8>, bits_used: usize, pm: Prob, rng: &mut R)
    requires
        1 <= bits_used <= 8,
        pm.valid(),
    ensures
        final(ind)@.len() == old(ind)@.len(),
        mutated_from(old(ind)@, final(ind)@, bits_used as nat),
{
    let ghost x0 = ind@;
    let ghost bits = bits_used as nat;
    let ghost mut ps: Seq<int> = Seq::empty();
    proof {
        assert(flipped_all(x0, bits, ps) == x0);
    }
    let ind_len = ind.0.len();
    let mut loc: usize = 0;
    while loc < ind_len
        invariant
            loc <= ind_len,
            ind_len == x0.len(),
            ind@.len() == x0.len(),
            1 <= bits_used <= 8,
            bits == bits_used as nat,
            pm.valid(),
            increasing_positions(ps, x0.len() * bits),
            forall|i: int| 0 <= i < ps.len() ==> #[trigger] ps[i] < (loc as int) * (bits as int),
            ind@ == flipped_all(x0, bits, ps),
        decreases ind_len - loc,
    {
        let mut bit_index: usize = 0;
        while bit_index < bits_used
            invariant
                bit_index <= bits_used,
                loc < ind_len,
                ind_len == x0.len(),
                ind@.len() == x0.len(),
                1 <= bits_used <= 8,
                bits == bits_used as nat,
                pm.valid(),
                increasing_positions(ps, x0.len() * bits),
                forall|i: int|
                    0 <= i < ps.len() ==> #[trigger] ps[i] < (loc as int) * (bits as int) + (
                    bit_index as int),
                ind@ == flipped_all(x0, bits, ps),
            decreases bits_used - bit_index,
        {
            proof {
                assert((loc as int) * (bits as int) + (bit_index as int) < (x0.len() as int) * (
                bits as int)) by (nonlinear_arith)
                    requires
                        0 <= (loc as int) < (x0.len() as int),
                        0 <= (bit_index as int) < (bits as int),
                ;
            }
            if happens(rng, pm) {
                let word = ind.0[loc];
                ind.0.set(loc, word ^ (1u8 << (bit_index as u32)));
                proof {
                    let pos = (loc as int) * (bits as int) + (bit_index as int);
                    assert(pos / (bits as int) == loc as int && pos % (bits as int)
                        == bit_index as int) by (nonlinear_arith)
                        requires
                            0 <= (loc as int),
                            0 <= (bit_index as int) < (bits as int),
                            pos == (loc as int) * (bits as int) + (bit_index as int),
                    ;
                    let ghost prev = flipped_all(x0, bits, ps);
                    lemma_flipped_all_snoc(x0, bits, ps, pos);
                    ps = ps.push(pos);
                    assert(ind@ =~= flipped_at(prev, bits, pos));
                    assert(ind@ == flipped_all(x0, bits, ps));
                }
            }
            bit_index = bit_index + 1;
        }
        proof {
            assert((loc as int + 1) * (bits as int) == (loc as int) * (bits as int) + (
            bits as int)) by (nonlinear_arith);
        }
        loc = loc + 1;
    }
    proof {
        assert(increasing_positions(ps, x0.len() * bits) && ind@ == flipped_all(x0, bits, ps));
    }
}

proof fn lemma_flipped_all_snoc(s: Seq<u8>, bits_used: nat, ps: Seq<int>, pos: int)
    ensures
        flipped_all(s, bits_used, ps.push(pos)) == flipped_at(
            flipped_all(s, bits_used, ps),
            bits_used,
            pos,
        ),
    decreases ps.len(),
{
    if ps.len() == 0 {
        let empty: Seq<int> = Seq::empty();
        assert(ps.push(pos).skip(1) =~= empty);
        assert(ps.push(pos)[0] == pos);
        let s1 = flipped_at(s, bits_used, pos);
        assert(flipped_all(s, bits_used, ps.push(pos)) == flipped_all(s1, bits_used, empty));
        assert(flipped_all(s1, bits_used, empty) == s1);
        assert(flipped_all(s, bits_used, ps) == s);
    } else {
        let s1 = flipped_at(s, bits_used, ps[0]);
        assert(ps.push(pos)[0] == ps[0]);
        assert(ps.push(pos).skip(1) =~= ps.skip(1).push(pos));
        assert(flipped_all(s, bits_used, ps.push(pos)) == flipped_all(
            s1,
            bits_used,
            ps.skip(1).push(pos),
        ));
        assert(flipped_all(s, bits_used, ps) == flipped_all(s1, bits_used, ps.skip(1)));
        lemma_flipped_all_snoc(s1, bits_used, ps.skip(1), pos);
    }
}

/// Flip bits of the genome with per-bit probability `pm`, visiting only the
/// bits that flip: each geometric draw gives the gap to the next flipped
/// bit of the flat bit stream.
pub fn point_mutate<R: RandSource>(ind: &mut Ind<u8>, bits_used: usize, pm: Prob, rng: &mut R)
    requires
        1 <= bits_used <= 8,
        pm.valid(),
        (old(ind)@.len() as int) * (bits_used as int) < u64::MAX,
    ensures
        final(ind)@.len() == old(ind)@.len(),
        mutated_from(old(ind)@, final(ind)@, bits_used as nat),
{
    let ghost x0 = ind@;
    let ghost bits = bits_used as nat;
    let ghost mut ps: Seq<int> = Seq::empty();
    let ind_len = ind.0.len();
    let ind_len_bits: u64 = (ind_len as u64) * (bits_used as u64);
    let cap: u64 = ind_len_bits + 1;
    let mut next_loc_bits: u64 = rng.geometric(pm, cap) - 1;
    while next_loc_bits < ind_len_bits
        invariant
            ind_len == x0.len(),
            ind@.len() == x0.len(),
            1 <= bits_used <= 8,
            bits == bits_used as nat,
            pm.valid(),
            ind_len_bits == (ind_len as int) * (bits_used as int),
            ind_len_bits < u64::MAX,
            cap == ind_len_bits + 1,
            increasing_positions(ps, x0.len() * bits),
            forall|i: int| 0 <= i < ps.len() ==> #[trigger] ps[i] < next_loc_bits as int,
            ind@ == flipped_all(x0, bits, ps),
        decreases ind_len_bits - next_loc_bits,
    {
        proof {
            assert((next_loc_bits as int) / (bits_used as int) < ind_len as int)
                by (nonlinear_arith)
                requires
                    1 <= (bits_used as int),
                    0 <= (next_loc_bits as int),
                    (next_loc_bits as int) < (ind_len as int) * (bits_used as int),
            ;
        }
        let next_loc: usize = (next_loc_bits / (bits_used as u64)) as usize;
        let bit_index: u64 = next_loc_bits % (bits_used as u64);
        let word = ind.0[next_loc];
        ind.0.set(next_loc, word ^ (1u8 << (bit_index as u32)));
        proof {
            let pos = next_loc_bits as int;
            let ghost prev = flipped_all(x0, bits, ps);
            lemma_flipped_all_snoc(x0, bits, ps, pos);
            ps = ps.push(pos);
            assert(ind@ =~= flipped_at(prev, bits, pos));
        }
        let gap = rng.geometric(pm, cap);
        if gap >= ind_len_bits - next_loc_bits {
            next_loc_bits = ind_len_bits;
        } else {
            next_loc_bits = next_loc_bits + gap;
        }
    }
    proof {
        assert(increasing_positions(ps, x0.len() * bits) && ind@ == flipped_all(x0, bits, ps));
    }
}

/// Point-mutate every genome of the population, one draw per bit.
pub fn point_mutation_naive<R: RandSource>(
    pop: &mut Pop<u8>,
    bits_used: usize,
    pm: Prob,
    rng: &mut R,
)
    requires
        1 <= bits_used <= 8,
        pm.valid(),
    ensures
        final(pop)@.len() == old(pop)@.len(),
        forall|i: int|
            0 <= i < old(pop)@.len() ==> (#[trigger] final(pop)@[i]).len() == old(pop)@[i].len(),
        forall|i: int|
            0 <= i < old(pop)@.len() ==> mutated_from(
                old(pop)@[i],
                #[trigger] final(pop)@[i],
                bits_used as nat,
            ),
{
    let ghost p0 = pop@;
    let mut i: usize = 0;
    while i < pop.0.len()
        invariant
            i <= pop@.len(),
            pop@.len() == p0.len(),
            p0 == old(pop)@,
            1 <= bits_used <= 8,
            pm.valid(),
            forall|j: int| 0 <= j < i ==> (#[trigger] pop@[j]).len() == p0[j].len(),
            forall|j: int| 0 <= j < i ==> mutated_from(p0[j], #[trigger] pop@[j], bits_used as nat),
            forall|j: int| i <= j < p0.len() ==> pop@[j] == p0[j],
        decreases pop@.len() - i,
    {
        let ghost prev = pop@;
        let mut ind = crate::types::copy_ind(&pop.0[i]);
        point_mutate_naive(&mut ind, bits_used, pm, rng);
        pop.0.set(i, ind);
        proof {
            assert forall|j: int| 0 <= j < i + 1 implies mutated_from(
                p0[j],
                pop@[j],
                bits_used as nat,
            ) by {
                if j < i {
                    assert(mutated_from(p0[j], prev[j], bits_used as nat));
                    assert(pop@[j] == prev[j]);
                }
            }
            assert forall|j: int| 0 <= j < i + 1 implies (#[trigger] pop@[j]).len()
                == p0[j].len() by {
                if j < i {
                    assert(pop@[j] == prev[j]);
                }
            }
        }
        i = i + 1;
    }
}

/// Point-mutate every genome of the population, one draw per flipped bit.
pub fn point_mutation<R: RandSource>(pop: &mut Pop<u8>, bits_used: usize, pm: Prob, rng: &mut R)
    requires
        1 <= bits_used <= 8,
        pm.valid(),
        forall|i: int|
            0 <= i < old(pop)@.len() ==> (#[trigger] old(pop)@[i]).len() * bits_used < u64::MAX,
    ensures
        final(pop)@.len() == old(pop)@.len(),
        forall|i: int|
            0 <= i < old(pop)@.len() ==> (#[trigger] final(pop)@[i]).len() == old(pop)@[i].len(),
        forall|i: int|
            0 <= i < old(pop)@.len() ==> mutated_from(
                old(pop)@[i],
                #[trigger] final(pop)@[i],
                bits_used as nat,
            ),
{
    let ghost p0 = pop@;
    let mut i: usize = 0;
    while i < pop.0.len()
        invariant
            i <= pop@.len(),
            pop@.len() == p0.len(),
            p0 == old(pop)@,
            1 <= bits_used <= 8,
            pm.valid(),
            forall|j: int| 0 <= j < p0.len() ==> (#[trigger] p0[j]).len() * bits_used < u64::MAX,
            forall|j: int| 0 <= j < i ==> (#[trigger] pop@[j]).len() == p0[j].len(),
            forall|j: int| 0 <= j < i ==> mutated_from(p0[j], #[trigger] pop@[j], bits_used as nat),
            forall|j: int| i <= j < p0.len() ==> pop@[j] == p0[j],
        decreases pop@.len() - i,
    {
        let ghost prev = pop@;
        proof {
            assert(p0[i as int].len() * bits_used < u64::MAX);
        }
        let mut ind = crate::types::copy_ind(&pop.0[i]);
        point_mutate(&mut ind, bits_used, pm, rng);
        pop.0.set(i, ind);
        proof {
            assert forall|j: int| 0 <= j < i + 1 implies mutated_from(
                p0[j],
                pop@[j],
                bits_used as nat,
            ) by {
                if j < i {
                    assert(mutated_from(p0[j], prev[j], bits_used as nat));
                    assert(pop@[j] == prev[j]);
                }
            }
            assert forall|j: int| 0 <= j < i + 1 implies (#[trigger] pop@[j]).len()
                == p0[j].len() by {
                if j < i {
                    assert(pop@[j] == prev[j]);
                }
            }
        }
        i = i + 1;
    }
}

} // verus!

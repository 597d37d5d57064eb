use vstd::prelude::*;
use crate::types::{Ind, Pop, Prob, copy_ind};
use crate::sampling::{RandSource, happens};

verus! {

// Genomes are byte-packed: each word holds one `bits_per_sym`-bit code.
// Crossover exchanges material between two genomes at bit granularity:
// whole words are swapped, and the word holding a crossing point is merged
// with a bit mask so that each side keeps part of its own word.

/// The mask selecting the low `bit_index` bits of a word.
pub open spec fn low_mask(bit_index: u8) -> u8
    recommends
        bit_index <= 8,
{
    (((1u32 << (bit_index as u32)) - 1) as u8)
}

/// The merge at a crossing word: the first result keeps the high bits of
/// `first` and takes the low `bit_index` bits of `second`; the second result
/// is the symmetric exchange.
pub open spec fn cross_word_spec(first: u8, second: u8, bit_index: u8) -> (u8, u8)
    recommends
        bit_index <= 8,
{
    let m = low_mask(bit_index);
    ((first & !m) | (second & m), (second & !m) | (first & m))
}

fn mask_below(bit_index: u8) -> (m: u8)
    requires
        bit_index <= 8,
    ensures
        m == low_mask(bit_index),
{
    proof {
        assert(1u32 <= (1u32 << (bit_index as u32)) <= 256) by (bit_vector)
            requires
                bit_index <= 8,
        ;
    }
    ((1u32 << (bit_index as u32)) - 1) as u8
}

/// The merge of one pair of words at bit `bit_index`.
pub fn cross_word(first: u8, second: u8, bit_index: u8) -> (r: (u8, u8))
    requires
        bit_index <= 8,
    ensures
        r == cross_word_spec(first, second, bit_index),
{
    let m = mask_below(bit_index);
    let first_result = (first & !m) | (second & m);
    let second_result = (second & !m) | (first & m);
    (first_result, second_result)
}

// --- one-point crossover on a pair -------------------------------------

/// The pair after crossing at bit offset `cp`: words before the crossing
/// word are exchanged whole; in the crossing word each side keeps its own
/// high bits and takes the partner's low `cp % bits` bits; later words are
/// untouched.
pub open spec fn cross_at_point_spec(x: Seq<u8>, y: Seq<u8>, bits: nat, cp: nat) -> (Seq<u8>, Seq<
    u8,
>)
    recommends
        bits >= 1,
        x.len() == y.len(),
        cp / bits < x.len(),
{
    let cwi = (cp / bits) as int;
    let m = low_mask((cp % bits) as u8);
    (
        Seq::new(
            x.len(),
            |i: int|
                if i < cwi {
                    y[i]
                } else if i == cwi {
                    (x[i] & !m) | (y[i] & m)
                } else {
                    x[i]
                },
        ),
        Seq::new(
            y.len(),
            |i: int|
                if i < cwi {
                    x[i]
                } else if i == cwi {
                    (y[i] & !m) | (x[i] & m)
                } else {
                    y[i]
                },
        ),
    )
}

/// Cross a pair of genomes at the single bit offset `cross_point`.
pub fn cross_at_point(
    ind1: &mut Ind<u8>,
    ind2: &mut Ind<u8>,
    bits_per_sym: usize,
    cross_point: usize,
)
    requires
        old(ind1)@.len() == old(ind2)@.len(),
        1 <= bits_per_sym <= 8,
        cross_point / bits_per_sym < old(ind1)@.len(),
    ensures
        final(ind1)@ == cross_at_point_spec(
            old(ind1)@,
            old(ind2)@,
            bits_per_sym as nat,
            cross_point as nat,
        ).0,
        final(ind2)@ == cross_at_point_spec(
            old(ind1)@,
            old(ind2)@,
            bits_per_sym as nat,
            cross_point as nat,
        ).1,
{
    let ghost x0 = ind1@;
    let ghost y0 = ind2@;
    let cross_word_index = cross_point / bits_per_sym;
    let mut word_index: usize = 0;
    while word_index < cross_word_index
        invariant
            word_index <= cross_word_index < x0.len(),
            ind1@.len() == x0.len(),
            ind2@.len() == y0.len(),
            x0.len() == y0.len(),
            forall|i: int| 0 <= i < word_index ==> ind1@[i] == y0[i] && ind2@[i] == x0[i],
            forall|i: int|
                word_index <= i < x0.len() ==> ind1@[i] == x0[i] && ind2@[i] == y0[i],
        decreases cross_word_index - word_index,
    {
        let tmp = ind1.0[word_index];
        ind1.0.set(word_index, ind2.0[word_index]);
        ind2.0.set(word_index, tmp);
        word_index = word_index + 1;
    }
    // cross the word that the cross point is within
    let l1 = ind1.0[cross_word_index];
    let l2 = ind2.0[cross_word_index];
    let bit_mask = mask_below((cross_point % bits_per_sym) as u8);
    ind1.0.set(cross_word_index, (l1 & !bit_mask) | (l2 & bit_mask));
    ind2.0.set(cross_word_index, (l2 & !bit_mask) | (l1 & bit_mask));
    proof {
        assert(ind1@ =~= cross_at_point_spec(x0, y0, bits_per_sym as nat, cross_point as nat).0);
        assert(ind2@ =~= cross_at_point_spec(x0, y0, bits_per_sym as nat, cross_point as nat).1);
    }
}

// --- multi-point crossover on a pair ------------------------------------

/// The word index a bit offset falls into.
pub open spec fn word_of(pt: usize, bits: nat) -> int {
    pt as int / bits as int
}

/// The bit offset within its word.
pub open spec fn bit_of(pt: usize, bits: nat) -> int {
    pt as int % bits as int
}

/// How many crossing points fall in words strictly before word `w`.
pub open spec fn points_before(pts: Seq<usize>, bits: nat, w: int) -> int
    decreases pts.len(),
{
    if pts.len() == 0 {
        0
    } else {
        (if word_of(pts[0], bits) < w {
            1int
        } else {
            0int
        }) + points_before(pts.skip(1), bits, w)
    }
}

/// The first crossing point lying in word `w`, if any.
pub open spec fn point_in_word(pts: Seq<usize>, bits: nat, w: int) -> Option<usize>
    decreases pts.len(),
{
    if pts.len() == 0 {
        Option::None
    } else if word_of(pts[0], bits) == w {
        Option::Some(pts[0])
    } else {
        point_in_word(pts.skip(1), bits, w)
    }
}

/// A usable point list: every offset within the genome's bits, and offsets
/// sorted so strictly that no two share a word.
pub open spec fn good_points(pts: Seq<usize>, bits: nat, len: nat) -> bool {
    &&& forall|i: int| 0 <= i < pts.len() ==> (#[trigger] pts[i]) < len * bits
    &&& forall|i: int, j: int|
        0 <= i < j < pts.len() ==> word_of(#[trigger] pts[i], bits) < word_of(
            #[trigger] pts[j],
            bits,
        )
}

/// One word of the pair after multi-point crossing.  Words in the regions
/// between crossing words alternate between exchanged (an even number of
/// points before them) and kept.  A crossing word itself keeps its own high
/// bits and takes the partner's bits below the crossing offset; when the
/// offset lands on the last bit of its word there is no partial word to
/// split, and the word follows the region that starts at the point.
pub open spec fn crossed_words(xw: u8, yw: u8, bits: nat, pts: Seq<usize>, w: int) -> (u8, u8) {
    let c = points_before(pts, bits, w);
    match point_in_word(pts, bits, w) {
        Option::Some(pt) => {
            let b = bit_of(pt, bits);
            if b != bits - 1 {
                let m = low_mask(b as u8);
                ((xw & !m) | (yw & m), (yw & !m) | (xw & m))
            } else {
                if (c + 1) % 2 == 0 {
                    (yw, xw)
                } else {
                    (xw, yw)
                }
            }
        },
        Option::None => {
            if c % 2 == 0 {
                (yw, xw)
            } else {
                (xw, yw)
            }
        },
    }
}

/// The whole pair after multi-point crossing.
pub open spec fn cross_at_points_spec(x: Seq<u8>, y: Seq<u8>, bits: nat, pts: Seq<usize>) -> (Seq<
    u8,
>, Seq<u8>)
    recommends
        x.len() == y.len(),
        good_points(pts, bits, x.len()),
{
    (
        Seq::new(x.len(), |w: int| crossed_words(x[w], y[w], bits, pts, w).0),
        Seq::new(x.len(), |w: int| crossed_words(x[w], y[w], bits, pts, w).1),
    )
}

proof fn lemma_points_before_split(pts: Seq<usize>, bits: nat, w: int, c: int)
    requires
        0 <= c <= pts.len(),
        forall|i: int| 0 <= i < c ==> word_of(#[trigger] pts[i], bits) < w,
        forall|i: int| c <= i < pts.len() ==> word_of(#[trigger] pts[i], bits) >= w,
    ensures
        points_before(pts, bits, w) == c,
    decreases pts.len(),
{
    if pts.len() == 0 {
    } else {
        let rest = pts.skip(1);
        assert(forall|i: int| 0 <= i < rest.len() ==> rest[i] == pts[i + 1]);
        if c == 0 {
            lemma_points_before_split(rest, bits, w, 0);
        } else {
            lemma_points_before_split(rest, bits, w, c - 1);
        }
    }
}

proof fn lemma_point_in_word_split(pts: Seq<usize>, bits: nat, w: int, c: int)
    requires
        0 <= c <= pts.len(),
        forall|i: int, j: int|
            0 <= i < j < pts.len() ==> word_of(#[trigger] pts[i], bits) < word_of(
                #[trigger] pts[j],
                bits,
            ),
        forall|i: int| 0 <= i < c ==> word_of(#[trigger] pts[i], bits) < w,
        forall|i: int| c <= i < pts.len() ==> word_of(#[trigger] pts[i], bits) >= w,
    ensures
        (c < pts.len() && word_of(pts[c], bits) == w) ==> point_in_word(pts, bits, w)
            == Option::Some(pts[c]),
        (c == pts.len() || word_of(pts[c], bits) > w) ==> point_in_word(pts, bits, w)
            is None,
    decreases pts.len(),
{
    if pts.len() == 0 {
    } else {
        let rest = pts.skip(1);
        assert(forall|i: int| 0 <= i < rest.len() ==> rest[i] == pts[i + 1]);
        if c == 0 {
            if word_of(pts[0], bits) == w {
            } else {
                lemma_point_in_word_split(rest, bits, w, 0);
            }
        } else {
            lemma_point_in_word_split(rest, bits, w, c - 1);
        }
    }
}

proof fn lemma_word_of_bound(pt: usize, bits: nat, len: nat)
    requires
        bits >= 1,
        (pt as nat) < len * bits,
    ensures
        0 <= word_of(pt, bits) < len,
{
    assert((pt as int) / (bits as int) < (len as int)) by (nonlinear_arith)
        requires
            bits >= 1,
            (pt as int) < (len as int) * (bits as int),
    ;
}

/// Cross a pair of genomes at every offset in `cross_points`: the reference
/// implementation, a linear scan over every word that keeps a running
/// exchange flag.  Its contract is the same `cross_at_points_spec` the fast
/// implementation promises, so the two are bit-identical on every allowed
/// input.
pub fn cross_at_points_naive(
    ind1: &mut Ind<u8>,
    ind2: &mut Ind<u8>,
    bits_per_sym: usize,
    cross_points: &Vec<usize>,
)
    requires
        old(ind1)@.len() == old(ind2)@.len(),
        1 <= bits_per_sym <= 8,
        good_points(cross_points@, bits_per_sym as nat, old(ind1)@.len()),
    ensures
        final(ind1)@ == cross_at_points_spec(
            old(ind1)@,
            old(ind2)@,
            bits_per_sym as nat,
            cross_points@,
        ).0,
        final(ind2)@ == cross_at_points_spec(
            old(ind1)@,
            old(ind2)@,
            bits_per_sym as nat,
            cross_points@,
        ).1,
{
    let ghost x0 = ind1@;
    let ghost y0 = ind2@;
    let ghost bits = bits_per_sym as nat;
    let ghost pts = cross_points@;
    let ind_len = ind1.0.len();
    let mut cpi: usize = 0;
    let mut active: bool = true;
    let mut index: usize = 0;
    while index < ind_len
        invariant
            ind_len == x0.len(),
            x0.len() == y0.len(),
            ind1@.len() == x0.len(),
            ind2@.len() == y0.len(),
            1 <= bits_per_sym <= 8,
            bits == bits_per_sym as nat,
            pts == cross_points@,
            good_points(pts, bits, x0.len()),
            index <= ind_len,
            cpi <= pts.len(),
            active == (cpi % 2 == 0),
            forall|i: int| 0 <= i < cpi ==> word_of(#[trigger] pts[i], bits) < index,
            forall|i: int| cpi <= i < pts.len() ==> word_of(#[trigger] pts[i], bits) >= index,
            forall|w: int|
                0 <= w < index ==> ind1@[w] == crossed_words(x0[w], y0[w], bits, pts, w).0
                    && ind2@[w] == crossed_words(x0[w], y0[w], bits, pts, w).1,
            forall|w: int| index <= w < x0.len() ==> ind1@[w] == x0[w] && ind2@[w] == y0[w],
        decreases ind_len - index,
    {
        proof {
            lemma_points_before_split(pts, bits, index as int, cpi as int);
            lemma_point_in_word_split(pts, bits, index as int, cpi as int);
        }
        let is_point = cpi < cross_points.len() && cross_points[cpi] / bits_per_sym == index;
        if is_point {
            let b = cross_points[cpi] % bits_per_sym;
            if b != bits_per_sym - 1 {
                let m = mask_below(b as u8);
                let a_w = ind1.0[index];
                let b_w = ind2.0[index];
                ind1.0.set(index, (a_w & !m) | (b_w & m));
                ind2.0.set(index, (b_w & !m) | (a_w & m));
            } else {
                if !active {
                    let tmp = ind1.0[index];
                    ind1.0.set(index, ind2.0[index]);
                    ind2.0.set(index, tmp);
                }
            }
            proof {
                assert(forall|i: int|
                    cpi + 1 <= i < pts.len() ==> word_of(#[trigger] pts[i], bits) > word_of(
                        pts[cpi as int],
                        bits,
                    ));
            }
            active = !active;
            cpi = cpi + 1;
        } else {
            if active {
                let tmp = ind1.0[index];
                ind1.0.set(index, ind2.0[index]);
                ind2.0.set(index, tmp);
            }
        }
        index = index + 1;
    }
    proof {
        assert(ind1@ =~= cross_at_points_spec(x0, y0, bits, pts).0);
        assert(ind2@ =~= cross_at_points_spec(x0, y0, bits, pts).1);
    }
}

/// Cross a pair of genomes at every offset in `cross_points`: the fast
/// implementation, which visits only the words that change — whole regions
/// between crossing words are exchanged or skipped outright.
pub fn cross_at_points(
    ind1: &mut Ind<u8>,
    ind2: &mut Ind<u8>,
    bits_per_sym: usize,
    cross_points: &Vec<usize>,
)
    requires
        old(ind1)@.len() == old(ind2)@.len(),
        1 <= bits_per_sym <= 8,
        good_points(cross_points@, bits_per_sym as nat, old(ind1)@.len()),
    ensures
        final(ind1)@ == cross_at_points_spec(
            old(ind1)@,
            old(ind2)@,
            bits_per_sym as nat,
            cross_points@,
        ).0,
        final(ind2)@ == cross_at_points_spec(
            old(ind1)@,
            old(ind2)@,
            bits_per_sym as nat,
            cross_points@,
        ).1,
{
    let ghost x0 = ind1@;
    let ghost y0 = ind2@;
    let ghost bits = bits_per_sym as nat;
    let ghost pts = cross_points@;
    let ind_len = ind1.0.len();
    let n_points = cross_points.len();
    let mut cpi: usize = 0;
    let mut w: usize = 0;
    while cpi < n_points
        invariant
            ind_len == x0.len(),
            x0.len() == y0.len(),
            ind1@.len() == x0.len(),
            ind2@.len() == y0.len(),
            1 <= bits_per_sym <= 8,
            bits == bits_per_sym as nat,
            pts == cross_points@,
            n_points == pts.len(),
            good_points(pts, bits, x0.len()),
            cpi <= n_points,
            w <= ind_len,
            forall|i: int| 0 <= i < cpi ==> word_of(#[trigger] pts[i], bits) < w,
            forall|i: int| cpi <= i < pts.len() ==> word_of(#[trigger] pts[i], bits) >= w,
            forall|j: int|
                0 <= j < w ==> ind1@[j] == crossed_words(x0[j], y0[j], bits, pts, j).0 && ind2@[j]
                    == crossed_words(x0[j], y0[j], bits, pts, j).1,
            forall|j: int| w <= j < x0.len() ==> ind1@[j] == x0[j] && ind2@[j] == y0[j],
        decreases n_points - cpi,
    {
        proof {
            lemma_word_of_bound(pts[cpi as int], bits, x0.len());
        }
        let end_w: usize = cross_points[cpi] / bits_per_sym;
        if cpi % 2 == 0 {
            // an exchanged region: swap its whole words
            let mut i = w;
            while i < end_w
                invariant
                    w <= i <= end_w <= ind_len,
                    ind_len == x0.len(),
                    x0.len() == y0.len(),
                    ind1@.len() == x0.len(),
                    ind2@.len() == y0.len(),
                    forall|j: int|
                        0 <= j < w ==> ind1@[j] == crossed_words(x0[j], y0[j], bits, pts, j).0
                            && ind2@[j] == crossed_words(x0[j], y0[j], bits, pts, j).1,
                    forall|j: int| w <= j < i ==> ind1@[j] == y0[j] && ind2@[j] == x0[j],
                    forall|j: int| i <= j < x0.len() ==> ind1@[j] == x0[j] && ind2@[j] == y0[j],
                decreases end_w - i,
            {
                let tmp = ind1.0[i];
                ind1.0.set(i, ind2.0[i]);
                ind2.0.set(i, tmp);
                i = i + 1;
            }
        }
        // the region's words now hold their final value
        proof {
            assert forall|j: int| w <= j < end_w implies ind1@[j] == crossed_words(
                x0[j],
                y0[j],
                bits,
                pts,
                j,
            ).0 && ind2@[j] == crossed_words(x0[j], y0[j], bits, pts, j).1 by {
                lemma_points_before_split(pts, bits, j, cpi as int);
                lemma_point_in_word_split(pts, bits, j, cpi as int);
            }
            lemma_points_before_split(pts, bits, end_w as int, cpi as int);
            lemma_point_in_word_split(pts, bits, end_w as int, cpi as int);
        }
        let b = cross_points[cpi] % bits_per_sym;
        if b != bits_per_sym - 1 {
            let m = mask_below(b as u8);
            let a_w = ind1.0[end_w];
            let b_w = ind2.0[end_w];
            ind1.0.set(end_w, (a_w & !m) | (b_w & m));
            ind2.0.set(end_w, (b_w & !m) | (a_w & m));
        } else {
            if cpi % 2 == 1 {
                let tmp = ind1.0[end_w];
                ind1.0.set(end_w, ind2.0[end_w]);
                ind2.0.set(end_w, tmp);
            }
        }
        proof {
            assert(forall|i: int|
                cpi + 1 <= i < pts.len() ==> word_of(#[trigger] pts[i], bits) > word_of(
                    pts[cpi as int],
                    bits,
                ));
        }
        w = end_w + 1;
        cpi = cpi + 1;
    }
    // the trailing region after the last crossing word
    if cpi % 2 == 0 {
        let mut i = w;
        while i < ind_len
            invariant
                w <= i <= ind_len,
                ind_len == x0.len(),
                x0.len() == y0.len(),
                ind1@.len() == x0.len(),
                ind2@.len() == y0.len(),
                forall|j: int|
                    0 <= j < w ==> ind1@[j] == crossed_words(x0[j], y0[j], bits, pts, j).0
                        && ind2@[j] == crossed_words(x0[j], y0[j], bits, pts, j).1,
                forall|j: int| w <= j < i ==> ind1@[j] == y0[j] && ind2@[j] == x0[j],
                forall|j: int| i <= j < x0.len() ==> ind1@[j] == x0[j] && ind2@[j] == y0[j],
            decreases ind_len - i,
        {
            let tmp = ind1.0[i];
            ind1.0.set(i, ind2.0[i]);
            ind2.0.set(i, tmp);
            i = i + 1;
        }
    }
    proof {
        assert forall|j: int| w <= j < ind_len implies ind1@[j] == crossed_words(
            x0[j],
            y0[j],
            bits,
            pts,
            j,
        ).0 && ind2@[j] == crossed_words(x0[j], y0[j], bits, pts, j).1 by {
            lemma_points_before_split(pts, bits, j, cpi as int);
            lemma_point_in_word_split(pts, bits, j, cpi as int);
        }
        assert(ind1@ =~= cross_at_points_spec(x0, y0, bits, pts).0);
        assert(ind2@ =~= cross_at_points_spec(x0, y0, bits, pts).1);
    }
}

// --- laws ---------------------------------------------------------------

/// Law: crossing a pair at one bit offset, and then crossing the result at
/// the same offset again, restores the original pair.
pub proof fn lemma_cross_at_point_self_inverse(x: Seq<u8>, y: Seq<u8>, bits: nat, cp: nat)
    requires
        1 <= bits <= 8,
        x.len() == y.len(),
        cp / bits < x.len(),
    ensures
        cross_at_point_spec(
            cross_at_point_spec(x, y, bits, cp).0,
            cross_at_point_spec(x, y, bits, cp).1,
            bits,
            cp,
        ).0 == x,
        cross_at_point_spec(
            cross_at_point_spec(x, y, bits, cp).0,
            cross_at_point_spec(x, y, bits, cp).1,
            bits,
            cp,
        ).1 == y,
{
    assert(forall|a: u8, b: u8, m: u8|
        ((((a & !m) | (b & m)) & !m) | (((b & !m) | (a & m)) & m)) == a) by (bit_vector);
    let x1 = cross_at_point_spec(x, y, bits, cp).0;
    let y1 = cross_at_point_spec(x, y, bits, cp).1;
    assert(cross_at_point_spec(x1, y1, bits, cp).0 =~= x);
    assert(cross_at_point_spec(x1, y1, bits, cp).1 =~= y);
}

// --- whole-population crossover ------------------------------------------

/// A pair of the next generation either went through a one-point crossover
/// at some offset within the genome, or was left alone.
pub open spec fn one_point_crossed_or_kept(
    x: Seq<u8>,
    y: Seq<u8>,
    x2: Seq<u8>,
    y2: Seq<u8>,
    bits: nat,
    wpi: nat,
) -> bool {
    (x2 == x && y2 == y) || (exists|cp: nat|
        cp < wpi * bits && x2 == cross_at_point_spec(x, y, bits, cp).0 && y2
            == cross_at_point_spec(x, y, bits, cp).1)
}

/// Walk the population in adjacent pairs; with probability `pc1` a pair is
/// crossed at one uniformly drawn bit offset.  An unpaired trailing genome
/// is untouched.
pub fn crossover_one_point<R: RandSource>(
    pop: &mut Pop<u8>,
    words_per_ind: usize,
    bits_per_sym: usize,
    pc1: Prob,
    rng: &mut R,
)
    requires
        old(pop).well_formed(words_per_ind as nat),
        1 <= bits_per_sym <= 8,
        1 <= words_per_ind,
        (words_per_ind as int) * (bits_per_sym as int) <= usize::MAX,
        pc1.valid(),
    ensures
        final(pop)@.len() == old(pop)@.len(),
        final(pop).well_formed(words_per_ind as nat),
        forall|i: int|
            0 <= i < old(pop)@.len() - 1 && i % 2 == 0 ==> one_point_crossed_or_kept(
                old(pop)@[i],
                old(pop)@[i + 1],
                final(pop)@[i],
                #[trigger] final(pop)@[i + 1],
                bits_per_sym as nat,
                words_per_ind as nat,
            ),
        old(pop)@.len() % 2 == 1 ==> final(pop)@.last() == old(pop)@.last(),
{
    let ghost p0 = pop@;
    let pop_len = pop.0.len();
    let n_pairs = pop_len / 2;
    let mut k: usize = 0;
    while k < n_pairs
        invariant
            pop@.len() == p0.len(),
            pop.well_formed(words_per_ind as nat),
            old(pop).well_formed(words_per_ind as nat),
            pop_len == p0.len(),
            n_pairs == pop_len / 2,
            k <= n_pairs,
            1 <= bits_per_sym <= 8,
            1 <= words_per_ind,
            (words_per_ind as int) * (bits_per_sym as int) <= usize::MAX,
            pc1.valid(),
            p0 == old(pop)@,
            forall|i: int|
                0 <= i < 2 * (k as int) && i % 2 == 0 ==> one_point_crossed_or_kept(
                    p0[i],
                    p0[i + 1],
                    pop@[i],
                    #[trigger] pop@[i + 1],
                    bits_per_sym as nat,
                    words_per_ind as nat,
                ),
            forall|i: int| 2 * (k as int) <= i < p0.len() ==> pop@[i] == p0[i],
        decreases n_pairs - k,
    {
        let ghost prev = pop@;
        if happens(rng, pc1) {
            proof {
                assert((words_per_ind as int) * (bits_per_sym as int) >= 1) by (nonlinear_arith)
                    requires
                        words_per_ind >= 1,
                        bits_per_sym >= 1,
                ;
            }
            let bound = (words_per_ind * bits_per_sym) as u64;
            let cross_point = rng.below(bound) as usize;
            proof {
                lemma_word_of_bound(cross_point, bits_per_sym as nat, words_per_ind as nat);
            }
            let mut a = copy_ind(&pop.0[2 * k]);
            let mut b = copy_ind(&pop.0[2 * k + 1]);
            cross_at_point(&mut a, &mut b, bits_per_sym, cross_point);
            pop.0.set(2 * k, a);
            pop.0.set(2 * k + 1, b);
            proof {
                let ghost cp = cross_point as nat;
                assert(cp < (words_per_ind as nat) * (bits_per_sym as nat) && pop@[2 * (k as int)]
                    == cross_at_point_spec(
                    p0[2 * (k as int)],
                    p0[2 * (k as int) + 1],
                    bits_per_sym as nat,
                    cp,
                ).0 && pop@[2 * (k as int) + 1] == cross_at_point_spec(
                    p0[2 * (k as int)],
                    p0[2 * (k as int) + 1],
                    bits_per_sym as nat,
                    cp,
                ).1);
            }
        }
        proof {
            assert forall|i: int| #![trigger p0[i]]
                0 <= i < 2 * (k as int) && i % 2 == 0 implies one_point_crossed_or_kept(
                p0[i],
                p0[i + 1],
                pop@[i],
                pop@[i + 1],
                bits_per_sym as nat,
                words_per_ind as nat,
            ) by {
                assert(one_point_crossed_or_kept(
                    p0[i],
                    p0[i + 1],
                    prev[i],
                    prev[i + 1],
                    bits_per_sym as nat,
                    words_per_ind as nat,
                ));
                assert(pop@[i] == prev[i]);
                assert(pop@[i + 1] == prev[i + 1]);
            }
        }
        k = k + 1;
    }
}

/// A pair of the next generation either went through a two-point crossover
/// at offsets in distinct words, or was left alone.
pub open spec fn two_point_crossed_or_kept(
    x: Seq<u8>,
    y: Seq<u8>,
    x2: Seq<u8>,
    y2: Seq<u8>,
    bits: nat,
    wpi: nat,
) -> bool {
    (x2 == x && y2 == y) || (exists|pts: Seq<usize>|
        pts.len() == 2 && good_points(pts, bits, wpi) && x2 == cross_at_points_spec(
            x,
            y,
            bits,
            pts,
        ).0 && y2 == cross_at_points_spec(x, y, bits, pts).1)
}

/// Walk the population in adjacent pairs; with probability `pc2` a pair is
/// crossed at two uniformly drawn bit offsets.  Draws whose offsets land in
/// the same word leave the pair alone, since there is no second word to
/// alternate with.
pub fn crossover_two_point<R: RandSource>(
    pop: &mut Pop<u8>,
    words_per_ind: usize,
    bits_per_sym: usize,
    pc2: Prob,
    rng: &mut R,
)
    requires
        old(pop).well_formed(words_per_ind as nat),
        1 <= bits_per_sym <= 8,
        1 <= words_per_ind,
        (words_per_ind as int) * (bits_per_sym as int) <= usize::MAX,
        pc2.valid(),
    ensures
        final(pop)@.len() == old(pop)@.len(),
        final(pop).well_formed(words_per_ind as nat),
        forall|i: int|
            0 <= i < old(pop)@.len() - 1 && i % 2 == 0 ==> two_point_crossed_or_kept(
                old(pop)@[i],
                old(pop)@[i + 1],
                final(pop)@[i],
                #[trigger] final(pop)@[i + 1],
                bits_per_sym as nat,
                words_per_ind as nat,
            ),
        old(pop)@.len() % 2 == 1 ==> final(pop)@.last() == old(pop)@.last(),
{
    let ghost p0 = pop@;
    let pop_len = pop.0.len();
    let n_pairs = pop_len / 2;
    let mut k: usize = 0;
    while k < n_pairs
        invariant
            pop@.len() == p0.len(),
            pop.well_formed(words_per_ind as nat),
            old(pop).well_formed(words_per_ind as nat),
            pop_len == p0.len(),
            n_pairs == pop_len / 2,
            k <= n_pairs,
            1 <= bits_per_sym <= 8,
            1 <= words_per_ind,
            (words_per_ind as int) * (bits_per_sym as int) <= usize::MAX,
            pc2.valid(),
            p0 == old(pop)@,
            forall|i: int|
                0 <= i < 2 * (k as int) && i % 2 == 0 ==> two_point_crossed_or_kept(
                    p0[i],
                    p0[i + 1],
                    pop@[i],
                    #[trigger] pop@[i + 1],
                    bits_per_sym as nat,
                    words_per_ind as nat,
                ),
            forall|i: int| 2 * (k as int) <= i < p0.len() ==> pop@[i] == p0[i],
        decreases n_pairs - k,
    {
        let ghost prev = pop@;
        if happens(rng, pc2) {
            proof {
                assert((words_per_ind as int) * (bits_per_sym as int) >= 1) by (nonlinear_arith)
                    requires
                        words_per_ind >= 1,
                        bits_per_sym >= 1,
                ;
            }
            let bound = (words_per_ind * bits_per_sym) as u64;
            let cp_one = rng.below(bound) as usize;
            let cp_two = rng.below(bound) as usize;
            let w_one = cp_one / bits_per_sym;
            let w_two = cp_two / bits_per_sym;
            if w_one != w_two {
                let mut locs: Vec<usize> = Vec::new();
                if w_one < w_two {
                    locs.push(cp_one);
                    locs.push(cp_two);
                } else {
                    locs.push(cp_two);
                    locs.push(cp_one);
                }
                proof {
                    lemma_word_of_bound(cp_one, bits_per_sym as nat, words_per_ind as nat);
                    lemma_word_of_bound(cp_two, bits_per_sym as nat, words_per_ind as nat);
                    assert(good_points(locs@, bits_per_sym as nat, words_per_ind as nat));
                }
                let mut a = copy_ind(&pop.0[2 * k]);
                let mut b = copy_ind(&pop.0[2 * k + 1]);
                cross_at_points(&mut a, &mut b, bits_per_sym, &locs);
                pop.0.set(2 * k, a);
                pop.0.set(2 * k + 1, b);
                proof {
                    let ghost pts2 = locs@;
                    assert(pts2.len() == 2 && good_points(
                        pts2,
                        bits_per_sym as nat,
                        words_per_ind as nat,
                    ) && pop@[2 * (k as int)] == cross_at_points_spec(
                        p0[2 * (k as int)],
                        p0[2 * (k as int) + 1],
                        bits_per_sym as nat,
                        pts2,
                    ).0 && pop@[2 * (k as int) + 1] == cross_at_points_spec(
                        p0[2 * (k as int)],
                        p0[2 * (k as int) + 1],
                        bits_per_sym as nat,
                        pts2,
                    ).1);
                }
            }
        }
        proof {
            assert forall|i: int| #![trigger p0[i]]
                0 <= i < 2 * (k as int) && i % 2 == 0 implies two_point_crossed_or_kept(
                p0[i],
                p0[i + 1],
                pop@[i],
                pop@[i + 1],
                bits_per_sym as nat,
                words_per_ind as nat,
            ) by {
                assert(two_point_crossed_or_kept(
                    p0[i],
                    p0[i + 1],
                    prev[i],
                    prev[i + 1],
                    bits_per_sym as nat,
                    words_per_ind as nat,
                ));
                assert(pop@[i] == prev[i]);
                assert(pop@[i + 1] == prev[i + 1]);
            }
        }
        k = k + 1;
    }
}

} // verus!

use vstd::prelude::*;

verus! {

/// One individual: a fixed-length genome of packed code words.
#[derive(Debug, PartialEq, Eq, Clone)]
pub struct Ind<T>(pub Vec<T>);

/// A population: a fixed-size collection of genomes evolved together.
#[derive(Debug, PartialEq, Eq, Clone)]
pub struct Pop<T>(pub Vec<Ind<T>>);

pub type IndU8 = Ind<u8>;

pub type PopU8 = Pop<u8>;

impl<T> Ind<T> {
    /// The genome as a mathematical sequence of words.
    pub open spec fn view(self) -> Seq<T> {
        self.0@
    }
}

impl<T> Pop<T> {
    /// The population as a sequence of genome sequences.
    pub open spec fn view(self) -> Seq<Seq<T>> {
        self.0@.map_values(|i: Ind<T>| i@)
    }

    /// Every genome has length `ind_size`.
    pub open spec fn well_formed(self, ind_size: nat) -> bool {
        forall|i: int| 0 <= i < self.0@.len() ==> (#[trigger] self.0@[i])@.len() == ind_size
    }
}

/// An exact copy of a genome of plain words.
pub fn copy_ind<T: Copy>(ind: &Ind<T>) -> (r: Ind<T>)
    ensures
        r@ == ind@,
{
    let mut words: Vec<T> = Vec::new();
    let mut i: usize = 0;
    while i < ind.0.len()
        invariant
            i <= ind@.len(),
            words@ == ind@.subrange(0, i as int),
        decreases ind@.len() - i,
    {
        words.push(ind.0[i]);
        i = i + 1;
    }
    proof {
        assert(words@ =~= ind@);
    }
    Ind(words)
}

/// A probability, held exactly as the fraction `num / den`.
#[derive(Debug, Clone, Copy, PartialEq, Eq)]
pub struct Prob {
    pub num: u32,
    pub den: u32,
}

impl Prob {
    /// The fraction is meaningful: a denominator, and a value within `[0, 1]`.
    pub open spec fn valid(self) -> bool {
        0 < self.den && self.num <= self.den
    }

    pub fn new(num: u32, den: u32) -> (p: Prob)
        requires
            0 < den,
            num <= den,
        ensures
            p.num == num,
            p.den == den,
            p.valid(),
    {
        Prob { num, den }
    }
}

} // verus!

use rand::Rng;
use vstd::prelude::*;

use crate::error::GeneticError;

verus! {

/// The chance, in percent, at which every mutation flips a gene.
pub const FULL_CHANCE: i32 = 100;

/// One boolean trait at locus `t`.
#[derive(Clone, Copy, Debug, PartialEq, Eq, Structural)]
pub struct Gene {
    /// The locus (type id) of the gene.
    pub t: usize,
    /// Whether the trait is active.
    pub v: bool,
}

/// The gene at the same locus with its value inverted.
pub open spec fn flipped(g: Gene) -> Gene {
    Gene { t: g.t, v: !g.v }
}

/// The result of mutating `g` at `chance` percent when the percentile draw came out as `roll`
/// (a value in `0..100`): the gene flips exactly when the draw falls below the chance, so
/// that it flips with probability `chance / 100`.
pub open spec fn mutated(g: Gene, chance: int, roll: int) -> Gene {
    if roll < chance {
        flipped(g)
    } else {
        g
    }
}

/// Whether `h` is one of the possible outcomes of mutating `g` at `chance` percent.
pub open spec fn may_mutate_to(g: Gene, chance: int, h: Gene) -> bool {
    exists|roll: int| 0 <= roll < 100 && h == #[trigger] mutated(g, chance, roll)
}

/// Whether `chance` is a valid mutation chance in percent.
pub open spec fn valid_chance(chance: int) -> bool {
    0 <= chance <= FULL_CHANCE
}

/// Relies on rand::Rng::gen_range over the thread-local generator: a value drawn
/// uniformly from `0..n`; it panics only on an empty range.
#[verifier::external_body]
fn random_below(n: u32) -> (r: u32)
    requires
        n > 0,
    ensures
        r < n,
{
    rand::thread_rng().gen_range(0..n)
}

impl Gene {
    /// A gene at locus `t` whose value is drawn uniformly from `{true, false}`.
    pub fn new(t: usize) -> (r: Gene)
        ensures
            r.t == t,
    {
        let coin = random_below(2);
        Gene { t, v: coin == 1 }
    }

    /// `n` fresh genes at loci `0..n`, in order, each with a random value.
    pub fn new_vec(n: usize) -> (r: Vec<Gene>)
        ensures
            r@.len() == n,
            forall|i: int| 0 <= i < n ==> (#[trigger] r@[i]).t == i,
    {
        let mut genes: Vec<Gene> = Vec::new();
        let mut i: usize = 0;
        while i < n
            invariant
                i <= n,
                genes@.len() == i,
                forall|j: int| 0 <= j < i ==> (#[trigger] genes@[j]).t == j,
            decreases n - i,
        {
            genes.push(Gene::new(i));
            i = i + 1;
        }
        genes
    }

    /// Mutation at `chance` percent, given the percentile draw `roll` in `0..100`.
    ///
    /// Fails with `InvalidArgument` exactly when the chance lies outside `0..=100`;
    /// otherwise returns a new gene at the same locus, flipped when `roll < chance`.
    pub fn mutate_with_roll(&self, chance: i32, roll: u32) -> (r: Result<Gene, GeneticError>)
        requires
            roll < 100,
        ensures
            !valid_chance(chance as int) ==> r == Err::<Gene, GeneticError>(
                GeneticError::InvalidArgument,
            ),
            valid_chance(chance as int) ==> r == Ok::<Gene, GeneticError>(
                mutated(*self, chance as int, roll as int),
            ),
    {
        if chance < 0 || chance > FULL_CHANCE {
            return Err(GeneticError::InvalidArgument);
        }
        if (roll as i64) < (chance as i64) {
            Ok(Gene { t: self.t, v: !self.v })
        } else {
            Ok(*self)
        }
    }

    /// Mutation at `chance` percent: a new gene at the same locus whose value is flipped
    /// with probability `chance / 100`; the receiver is left as it is.
    ///
    /// Fails with `InvalidArgument` exactly when the chance lies outside `0..=100`. At a
    /// chance of 100 the value always flips; at a chance of 0 it never does.
    pub fn mutate(&self, chance: i32) -> (r: Result<Gene, GeneticError>)
        ensures
            !valid_chance(chance as int) ==> r == Err::<Gene, GeneticError>(
                GeneticError::InvalidArgument,
            ),
            valid_chance(chance as int) ==> r is Ok,
            r matches Ok(g) ==> may_mutate_to(*self, chance as int, g),
            r matches Ok(g) ==> g.t == self.t,
            r matches Ok(g) ==> (chance == FULL_CHANCE ==> g.v != self.v),
            r matches Ok(g) ==> (chance == 0 ==> g == *self),
    {
        if chance < 0 || chance > FULL_CHANCE {
            return Err(GeneticError::InvalidArgument);
        }
        let roll = random_below(100);
        self.mutate_with_roll(chance, roll)
    }
}

} // verus!

use vstd::prelude::*;

use crate::error::GeneticError;
use crate::genes::{flipped, may_mutate_to, valid_chance, Gene, FULL_CHANCE};

verus! {

/// An individual: an ordered sequence of genes and the number of times it has evolved.
#[derive(Debug)]
pub struct Creature {
    pub genes: Vec<Gene>,
    pub generation: usize,
}

/// The mathematical value of a creature.
pub struct CreatureView {
    pub genes: Seq<Gene>,
    pub generation: nat,
}

impl View for Creature {
    type V = CreatureView;

    open spec fn view(&self) -> CreatureView {
        CreatureView { genes: self.genes@, generation: self.generation as nat }
    }
}

/// The number of active (true) genes in `genes`.
pub open spec fn count_active(genes: Seq<Gene>) -> nat
    decreases genes.len(),
{
    if genes.len() == 0 {
        0
    } else {
        count_active(genes.drop_last()) + if genes.last().v {
            1nat
        } else {
            0nat
        }
    }
}

/// Whether `genes` holds exactly `n` genes at loci `0..n`, in order.
pub open spec fn fresh_loci(genes: Seq<Gene>, n: nat) -> bool {
    &&& genes.len() == n
    &&& forall|i: int| 0 <= i < n ==> (#[trigger] genes[i]).t == i
}

/// Whether `c` is a newly made creature with `n_genes` genes at loci `0..n_genes`.
pub open spec fn is_newborn(c: CreatureView, n_genes: nat) -> bool {
    c.generation == 0 && fresh_loci(c.genes, n_genes)
}

/// The active-gene count never exceeds the number of genes.
proof fn lemma_count_active_bounded(genes: Seq<Gene>)
    ensures
        count_active(genes) <= genes.len(),
    decreases genes.len(),
{
    if genes.len() > 0 {
        lemma_count_active_bounded(genes.drop_last());
    }
}

impl Clone for Creature {
    /// A copy with the same genes and generation.
    fn clone(&self) -> (r: Self)
        ensures
            r@ == self@,
    {
        let mut genes: Vec<Gene> = Vec::new();
        let mut i: usize = 0;
        while i < self.genes.len()
            invariant
                i <= self.genes@.len(),
                genes@ == self.genes@.take(i as int),
            decreases self.genes@.len() - i,
        {
            genes.push(self.genes[i]);
            i = i + 1;
            assert(genes@ =~= self.genes@.take(i as int));
        }
        assert(genes@ =~= self.genes@);
        Creature { genes, generation: self.generation }
    }
}

impl Creature {
    /// A creature at generation 0 with `n_genes` random genes at loci `0..n_genes`.
    pub fn new(n_genes: usize) -> (r: Creature)
        ensures
            is_newborn(r@, n_genes as nat),
    {
        Creature { generation: 0, genes: Gene::new_vec(n_genes) }
    }

    /// `n` independently made creatures, each at generation 0 with `n_genes` random genes.
    pub fn new_vec(n: usize, n_genes: usize) -> (r: Vec<Creature>)
        ensures
            r@.len() == n,
            forall|i: int| 0 <= i < n ==> is_newborn((#[trigger] r@[i])@, n_genes as nat),
    {
        let mut creatures: Vec<Creature> = Vec::new();
        let mut i: usize = 0;
        while i < n
            invariant
                i <= n,
                creatures@.len() == i,
                forall|j: int| 0 <= j < i ==> is_newborn((#[trigger] creatures@[j])@, n_genes as nat),
            decreases n - i,
        {
            creatures.push(Creature::new(n_genes));
            i = i + 1;
        }
        creatures
    }

    /// The fitness of the creature: how many of its genes are active.
    pub fn fitness(&self) -> (r: usize)
        ensures
            r == count_active(self.genes@),
    {
        let mut count: usize = 0;
        let mut i: usize = 0;
        while i < self.genes.len()
            invariant
                i <= self.genes@.len(),
                count == count_active(self.genes@.take(i as int)),
            decreases self.genes@.len() - i,
        {
            proof {
                lemma_count_active_bounded(self.genes@.take(i as int));
                assert(self.genes@.take(i as int + 1).drop_last() =~= self.genes@.take(i as int));
            }
            if self.genes[i].v {
                count = count + 1;
            }
            i = i + 1;
        }
        assert(self.genes@.take(i as int) =~= self.genes@);
        count
    }

    /// Mutates every gene in order at `chance` percent and advances the generation by one.
    ///
    /// Fails with `InvalidArgument`, leaving the creature as it was, when the chance lies
    /// outside `0..=100` and there is a gene to mutate. Each gene keeps its locus; at a chance
    /// of 100 every gene flips, at a chance of 0 none does.
    pub fn evolve(&mut self, chance: i32) -> (r: Result<(), GeneticError>)
        requires
            old(self).generation < usize::MAX,
        ensures
            (!valid_chance(chance as int) && old(self).genes@.len() > 0) ==> (r == Err::<
                (),
                GeneticError,
            >(GeneticError::InvalidArgument) && final(self)@ == old(self)@),
            (valid_chance(chance as int) || old(self).genes@.len() == 0) ==> r is Ok,
            r is Ok ==> final(self)@.generation == old(self)@.generation + 1,
            r is Ok ==> final(self)@.genes.len() == old(self)@.genes.len(),
            r is Ok ==> forall|i: int|
                0 <= i < old(self)@.genes.len() ==> may_mutate_to(
                    old(self)@.genes[i],
                    chance as int,
                    #[trigger] final(self)@.genes[i],
                ),
            r is Ok ==> forall|i: int|
                0 <= i < old(self)@.genes.len() ==> (#[trigger] final(self)@.genes[i]).t == old(
                    self,
                )@.genes[i].t,
            (r is Ok && chance == FULL_CHANCE) ==> forall|i: int|
                0 <= i < old(self)@.genes.len() ==> #[trigger] final(self)@.genes[i] == flipped(
                    old(self)@.genes[i],
                ),
            (r is Ok && chance == 0) ==> final(self)@ == (CreatureView {
                genes: old(self)@.genes,
                generation: old(self)@.generation + 1,
            }),
    {
        let n = self.genes.len();
        let ghost start = self.genes@;
        let mut i: usize = 0;
        while i < n
            invariant
                n == start.len(),
                i <= n,
                self.genes@.len() == n,
                self.generation == old(self).generation,
                start == old(self).genes@,
                (i == 0 || valid_chance(chance as int)),
                forall|j: int| i <= j < n ==> #[trigger] self.genes@[j] == start[j],
                forall|j: int|
                    0 <= j < i ==> may_mutate_to(start[j], chance as int, #[trigger] self.genes@[j]),
            decreases n - i,
        {
            let gene = match self.genes[i].mutate(chance) {
                Ok(g) => g,
                Err(e) => {
                    assert(self.genes@ =~= start);
                    return Err(e);
                },
            };
            self.genes[i] = gene;
            i = i + 1;
        }
        self.generation = self.generation + 1;
        proof {
            if chance == 0 {
                assert forall|j: int| 0 <= j < n implies self.genes@[j] == start[j] by {
                    assert(may_mutate_to(start[j], chance as int, self.genes@[j]));
                }
                assert(self.genes@ =~= start);
            }
        }
        Ok(())
    }
}

} // verus!

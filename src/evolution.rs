use vstd::prelude::*;

use crate::creatures::{Creature, CreatureView};
use crate::genes::Gene;

verus! {

/// The value of a child's gene at locus `i`: the XNOR of both parents' values where both
/// have a gene there, otherwise the value of the one parent that has.
pub open spec fn crossover_value(a: Seq<Gene>, b: Seq<Gene>, i: int) -> bool {
    if i < a.len() && i < b.len() {
        a[i].v == b[i].v
    } else if i < a.len() {
        a[i].v
    } else {
        b[i].v
    }
}

/// The genes of the child of parents with genes `a` and `b`: one gene per locus up to the
/// longer parent's length, at locus `i` carrying type id `i`.
pub open spec fn crossover(a: Seq<Gene>, b: Seq<Gene>) -> Seq<Gene> {
    Seq::new(
        if a.len() >= b.len() {
            a.len()
        } else {
            b.len()
        },
        |i: int| Gene { t: i as usize, v: crossover_value(a, b, i) },
    )
}

/// Whether every gene of `genes` has the value `v`.
pub open spec fn all_genes(genes: Seq<Gene>, v: bool) -> bool {
    forall|i: int| 0 <= i < genes.len() ==> (#[trigger] genes[i]).v == v
}

/// Breeding is symmetric: the order of the parents does not change the child's genes.
pub proof fn lemma_breed_symmetric(a: CreatureView, b: CreatureView)
    ensures
        crossover(a.genes, b.genes) == crossover(b.genes, a.genes),
{
    assert(crossover(a.genes, b.genes) =~= crossover(b.genes, a.genes));
}

/// Two parents of equal length whose genes are all active have a child whose genes are all
/// active; parents of equal length, one all active and one all inactive, have a child whose
/// genes are all inactive.
pub proof fn lemma_breed_uniform_parents(a: CreatureView, b: CreatureView)
    requires
        a.genes.len() == b.genes.len(),
    ensures
        all_genes(a.genes, true) && all_genes(b.genes, true) ==> all_genes(
            crossover(a.genes, b.genes),
            true,
        ),
        all_genes(a.genes, true) && all_genes(b.genes, false) ==> all_genes(
            crossover(a.genes, b.genes),
            false,
        ),
{
}

/// The child of two creatures, at generation 0, whose genes are the crossover of the parents'.
pub fn breed(first_parent: &Creature, second_parent: &Creature) -> (r: Creature)
    ensures
        r@.generation == 0,
        r@.genes == crossover(first_parent@.genes, second_parent@.genes),
{
    let a = &first_parent.genes;
    let b = &second_parent.genes;
    let n = if a.len() >= b.len() {
        a.len()
    } else {
        b.len()
    };
    let ghost target = crossover(a@, b@);
    let mut genes: Vec<Gene> = Vec::new();
    let mut i: usize = 0;
    while i < n
        invariant
            n == target.len(),
            target == crossover(a@, b@),
            a@.len() <= n,
            b@.len() <= n,
            i <= n,
            genes@ == target.take(i as int),
        decreases n - i,
    {
        let v = if i < a.len() && i < b.len() {
            a[i].v == b[i].v
        } else if i < a.len() {
            a[i].v
        } else {
            b[i].v
        };
        genes.push(Gene { t: i, v });
        i = i + 1;
        assert(genes@ =~= target.take(i as int));
    }
    assert(genes@ =~= target);
    Creature { generation: 0, genes }
}

} // verus!

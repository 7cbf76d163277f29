use vstd::prelude::*;

use crate::creatures::{count_active, is_newborn, Creature, CreatureView};
use crate::error::GeneticError;
use crate::evolution::breed;

verus! {

/// A population snapshot and its sequence number.
#[derive(Debug)]
pub struct Generation {
    pub generation: usize,
    pub creatures: Vec<Creature>,
}

/// The mathematical value of a generation.
pub struct GenerationView {
    pub generation: nat,
    pub creatures: Seq<CreatureView>,
}

impl View for Generation {
    type V = GenerationView;

    open spec fn view(&self) -> GenerationView {
        GenerationView {
            generation: self.generation as nat,
            creatures: self.creatures@.map_values(|c: Creature| c@),
        }
    }
}

/// A creature of a population paired with its fitness, for the length of one selection pass.
pub struct CreatureFitness<'a> {
    pub creature: &'a Creature,
    pub fitness: usize,
}

/// How a selection pass sets the fitness that a creature must strictly exceed to survive.
#[derive(Clone, Copy, Debug, PartialEq, Eq, Structural)]
pub enum Threshold {
    /// The arithmetic mean of the population's fitness.
    MeanFitness,
    /// The baseline fold: the first creature's fitness for a population of one, 0 for a
    /// larger one, and below zero for an empty one.
    BaselineFitness,
}

/// The fitness of a creature: its number of active genes.
pub open spec fn fitness_of(c: CreatureView) -> nat {
    count_active(c.genes)
}

/// The sum of the fitness over a population.
pub open spec fn total_fitness(pop: Seq<CreatureView>) -> nat
    decreases pop.len(),
{
    if pop.len() == 0 {
        0
    } else {
        total_fitness(pop.drop_last()) + fitness_of(pop.last())
    }
}

/// The threshold of the baseline fold over a population.
pub open spec fn baseline_threshold(pop: Seq<CreatureView>) -> int {
    if pop.len() == 0 {
        -1
    } else if pop.len() == 1 {
        fitness_of(pop[0]) as int
    } else {
        0
    }
}

/// Whether `c` survives a selection pass over `pop` under `policy`.
pub open spec fn survives(pop: Seq<CreatureView>, policy: Threshold, c: CreatureView) -> bool {
    match policy {
        Threshold::MeanFitness => fitness_of(c) * pop.len() > total_fitness(pop),
        Threshold::BaselineFitness => fitness_of(c) > baseline_threshold(pop),
    }
}

/// The creatures of `s` for which `keep` holds, in their original order.
pub open spec fn retained(s: Seq<CreatureView>, keep: spec_fn(CreatureView) -> bool) -> Seq<
    CreatureView,
>
    decreases s.len(),
{
    if s.len() == 0 {
        s
    } else if keep(s.last()) {
        retained(s.drop_last(), keep).push(s.last())
    } else {
        retained(s.drop_last(), keep)
    }
}

/// The creatures of `s` whose verdict in `doomed` is false, in their original order.
pub open spec fn spared(s: Seq<CreatureView>, doomed: Seq<bool>) -> Seq<CreatureView>
    decreases s.len(),
{
    if s.len() == 0 || doomed.len() != s.len() {
        seq![]
    } else if doomed.last() {
        spared(s.drop_last(), doomed.drop_last())
    } else {
        spared(s.drop_last(), doomed.drop_last()).push(s.last())
    }
}

/// Taking one more element of a sequence extends the prefix by that element.
proof fn lemma_take_step(s: Seq<CreatureView>, i: int)
    requires
        0 <= i < s.len(),
    ensures
        s.take(i + 1).drop_last() == s.take(i),
        s.take(i + 1).last() == s[i],
{
    assert(s.take(i + 1).drop_last() =~= s.take(i));
}

/// The index of the partner of the creature at `index`: the first index that differs from it.
pub open spec fn first_other(index: int) -> int {
    if index == 0 {
        1
    } else {
        0
    }
}

/// Culling removes exactly the creatures that the predicate condemns, keeping the order of
/// the survivors: when each verdict is the predicate `dies` applied to its creature, the
/// survivors are the creatures for which `dies` does not hold.
pub proof fn lemma_kill_by_predicate(
    pop: Seq<CreatureView>,
    doomed: Seq<bool>,
    dies: spec_fn(CreatureView) -> bool,
)
    requires
        doomed.len() == pop.len(),
        forall|i: int| 0 <= i < pop.len() ==> #[trigger] doomed[i] == dies(pop[i]),
    ensures
        spared(pop, doomed) == retained(pop, |c: CreatureView| !dies(c)),
    decreases pop.len(),
{
    if pop.len() > 0 {
        let rest = pop.drop_last();
        let rest_doomed = doomed.drop_last();
        assert forall|i: int| 0 <= i < rest.len() implies #[trigger] rest_doomed[i] == dies(
            rest[i],
        ) by {
            assert(rest_doomed[i] == doomed[i] && rest[i] == pop[i]);
        }
        lemma_kill_by_predicate(rest, rest_doomed, dies);
        assert(doomed.last() == dies(pop.last()));
    }
}

/// Culling with a predicate that condemns nobody leaves the population as it was.
pub proof fn lemma_kill_nothing(pop: Seq<CreatureView>, doomed: Seq<bool>)
    requires
        doomed.len() == pop.len(),
        forall|i: int| 0 <= i < pop.len() ==> !#[trigger] doomed[i],
    ensures
        spared(pop, doomed) == pop,
    decreases pop.len(),
{
    if pop.len() > 0 {
        let rest = pop.drop_last();
        let rest_doomed = doomed.drop_last();
        assert forall|i: int| 0 <= i < rest.len() implies !#[trigger] rest_doomed[i] by {
            assert(rest_doomed[i] == doomed[i]);
        }
        lemma_kill_nothing(rest, rest_doomed);
        assert(!doomed.last());
        assert(rest.push(pop.last()) =~= pop);
    }
}

/// Selection never grows a population: it keeps at most the creatures it is given.
pub proof fn lemma_selection_never_grows(pop: Seq<CreatureView>, keep: spec_fn(CreatureView) -> bool)
    ensures
        retained(pop, keep).len() <= pop.len(),
    decreases pop.len(),
{
    if pop.len() > 0 {
        lemma_selection_never_grows(pop.drop_last(), keep);
    }
}

/// Selection drops at least one creature when `keep` fails for one of them.
proof fn lemma_selection_drops(pop: Seq<CreatureView>, keep: spec_fn(CreatureView) -> bool, i: int)
    requires
        0 <= i < pop.len(),
        !keep(pop[i]),
    ensures
        retained(pop, keep).len() < pop.len(),
    decreases pop.len(),
{
    let rest = pop.drop_last();
    if i == pop.len() - 1 {
        lemma_selection_never_grows(rest, keep);
    } else {
        assert(rest[i] == pop[i]);
        lemma_selection_drops(rest, keep, i);
    }
}

/// When every creature of `pop` is fitter than `t` in `k`-fold, the `k`-fold total fitness
/// exceeds `t` once for each creature.
proof fn lemma_all_above(pop: Seq<CreatureView>, k: nat, t: nat)
    requires
        pop.len() > 0,
        forall|i: int| 0 <= i < pop.len() ==> fitness_of(#[trigger] pop[i]) * k > t,
    ensures
        total_fitness(pop) * k > pop.len() * t,
    decreases pop.len(),
{
    let rest = pop.drop_last();
    let f = fitness_of(pop.last());
    assert(f * k > t);
    if rest.len() == 0 {
        assert(total_fitness(rest) == 0);
        assert(total_fitness(pop) == f);
        assert(pop.len() == 1);
        assert(pop.len() * t == t) by (nonlinear_arith)
            requires
                pop.len() == 1,
        ;
    } else {
        assert forall|i: int| 0 <= i < rest.len() implies fitness_of(#[trigger] rest[i]) * k > t by {
            assert(rest[i] == pop[i]);
        }
        lemma_all_above(rest, k, t);
        assert(total_fitness(pop) * k > pop.len() * t) by (nonlinear_arith)
            requires
                total_fitness(pop) == total_fitness(rest) + f,
                total_fitness(rest) * k > rest.len() * t,
                f * k > t,
                pop.len() == rest.len() + 1,
        ;
    }
}

/// Selection above the mean fitness strictly shrinks a non-empty population: a creature of
/// least fitness is never strictly above the mean.
pub proof fn lemma_mean_selection_shrinks(pop: Seq<CreatureView>)
    requires
        pop.len() > 0,
    ensures
        retained(pop, |c: CreatureView| survives(pop, Threshold::MeanFitness, c)).len()
            < pop.len(),
{
    let keep = |c: CreatureView| survives(pop, Threshold::MeanFitness, c);
    if forall|i: int| 0 <= i < pop.len() ==> #[trigger] keep(pop[i]) {
        assert forall|i: int| 0 <= i < pop.len() implies fitness_of(#[trigger] pop[i]) * pop.len()
            > total_fitness(pop) by {
            assert(keep(pop[i]));
        }
        lemma_all_above(pop, pop.len(), total_fitness(pop));
        assert(false) by (nonlinear_arith)
            requires
                total_fitness(pop) * pop.len() > pop.len() * total_fitness(pop),
        ;
    } else {
        let i = choose|i: int| 0 <= i < pop.len() && !#[trigger] keep(pop[i]);
        lemma_selection_drops(pop, keep, i);
    }
}

impl Clone for Generation {
    /// A copy with the same number and a copy of each creature.
    fn clone(&self) -> (r: Self)
        ensures
            r@ == self@,
    {
        let ghost pop = self@.creatures;
        let mut creatures: Vec<Creature> = Vec::new();
        let mut i: usize = 0;
        while i < self.creatures.len()
            invariant
                pop == self@.creatures,
                i <= pop.len(),
                creatures@.map_values(|c: Creature| c@) == pop.take(i as int),
            decreases pop.len() - i,
        {
            let copy = self.creatures[i].clone();
            assert(copy@ == pop[i as int]);
            creatures.push(copy);
            assert(creatures@.map_values(|c: Creature| c@) =~= pop.take(i as int).push(
                pop[i as int],
            ));
            assert(pop.take(i as int).push(pop[i as int]) =~= pop.take(i as int + 1));
            i = i + 1;
        }
        assert(pop.take(i as int) =~= pop);
        Generation { generation: self.generation, creatures }
    }
}

impl Generation {
    /// Generation 0 with `n_creatures` new creatures of `n_genes` random genes each.
    pub fn new(n_creatures: usize, n_genes: usize) -> (r: Generation)
        ensures
            r@.generation == 0,
            r@.creatures.len() == n_creatures,
            forall|i: int|
                0 <= i < n_creatures ==> is_newborn(#[trigger] r@.creatures[i], n_genes as nat),
    {
        let creatures = Creature::new_vec(n_creatures, n_genes);
        Generation { generation: 0, creatures }
    }

    /// One selection pass under `policy`: a new generation, numbered one higher, holding a
    /// copy of each creature whose fitness strictly exceeds the policy's threshold, in the
    /// original order. The receiver is left as it is.
    pub fn run_with(&self, policy: Threshold) -> (r: Generation)
        requires
            self.generation < usize::MAX,
        ensures
            r@.generation == self@.generation + 1,
            r@.creatures == retained(
                self@.creatures,
                |c: CreatureView| survives(self@.creatures, policy, c),
            ),
    {
        let ghost pop = self@.creatures;
        let n = self.creatures.len();
        let mut scored: Vec<CreatureFitness> = Vec::new();
        let mut total: u128 = 0;
        let mut i: usize = 0;
        while i < n
            invariant
                n == self.creatures@.len(),
                pop == self@.creatures,
                i <= n,
                scored@.len() == i,
                forall|j: int|
                    0 <= j < i ==> (#[trigger] scored@[j]).fitness == fitness_of(pop[j])
                        && scored@[j].creature == self.creatures@[j],
                total == total_fitness(pop.take(i as int)),
                total <= i * usize::MAX,
            decreases n - i,
        {
            let creature = &self.creatures[i];
            let fitness = creature.fitness();
            proof {
                lemma_take_step(pop, i as int);
                assert(total + fitness <= (i + 1) * usize::MAX) by (nonlinear_arith)
                    requires
                        total <= i * usize::MAX,
                        fitness <= usize::MAX,
                ;
            }
            total = total + fitness as u128;
            scored.push(CreatureFitness { creature, fitness });
            i = i + 1;
        }
        assert(pop.take(n as int) =~= pop);

        let mut baseline: i128 = -1;
        let mut k: usize = 0;
        while k < n
            invariant
                n == scored@.len(),
                n == pop.len(),
                k <= n,
                forall|j: int| 0 <= j < n ==> (#[trigger] scored@[j]).fitness == fitness_of(pop[j]),
                baseline == baseline_threshold(pop.take(k as int)),
            decreases n - k,
        {
            if baseline < 0 {
                baseline = scored[k].fitness as i128;
            } else {
                baseline = 0;
            }
            k = k + 1;
        }
        assert(pop.take(n as int) =~= pop);

        let mut survivors: Vec<Creature> = Vec::new();
        let mut i: usize = 0;
        while i < n
            invariant
                n == scored@.len(),
                n == pop.len(),
                pop == self@.creatures,
                i <= n,
                forall|j: int|
                    0 <= j < n ==> (#[trigger] scored@[j]).fitness == fitness_of(pop[j])
                        && scored@[j].creature == self.creatures@[j],
                total == total_fitness(pop),
                baseline == baseline_threshold(pop),
                survivors@.map_values(|c: Creature| c@) == retained(pop.take(i as int), |c: CreatureView| survives(pop, policy, c)),
            decreases n - i,
        {
            let item = &scored[i];
            let fitness = item.fitness;
            proof {
                lemma_take_step(pop, i as int);
                assert(usize::MAX <= 0xffff_ffff_ffff_ffff);
                assert(fitness * n <= 0xffff_ffff_ffff_ffff * 0xffff_ffff_ffff_ffff)
                    by (nonlinear_arith)
                    requires
                        fitness <= 0xffff_ffff_ffff_ffff,
                        n <= 0xffff_ffff_ffff_ffff,
                ;
            }
            let survive = match policy {
                Threshold::MeanFitness => (fitness as u128) * (n as u128) > total,
                Threshold::BaselineFitness => (fitness as i128) > baseline,
            };
            assert(fitness == fitness_of(pop[i as int]));
            assert(survive == survives(pop, policy, pop[i as int]));
            if survive {
                let copy = item.creature.clone();
                survivors.push(copy);
                assert(survivors@.map_values(|c: Creature| c@) =~= retained(
                    pop.take(i as int),
                    |c: CreatureView| survives(pop, policy, c),
                ).push(pop[i as int]));
            }
            i = i + 1;
        }
        assert(pop.take(n as int) =~= pop);
        Generation { generation: self.generation + 1, creatures: survivors }
    }

    /// One selection pass: a new generation, numbered one higher, holding a copy of each
    /// creature whose fitness is strictly above the population's mean fitness, in the
    /// original order. The receiver is left as it is.
    pub fn run(&self) -> (r: Generation)
        requires
            self.generation < usize::MAX,
        ensures
            r@.generation == self@.generation + 1,
            r@.creatures == retained(
                self@.creatures,
                |c: CreatureView| survives(self@.creatures, Threshold::MeanFitness, c),
            ),
    {
        self.run_with(Threshold::MeanFitness)
    }

    /// Removes, in one pass, every creature for which `kill` returns true, keeping the order
    /// of the others. `doomed[i]` below is the verdict that `kill` gave on the i-th creature.
    pub fn kill<F: Fn(&Creature) -> bool>(&mut self, kill: F)
        requires
            forall|c: &Creature| kill.requires((c,)),
        ensures
            final(self)@.generation == old(self)@.generation,
            exists|doomed: Seq<bool>|
                {
                    &&& doomed.len() == old(self)@.creatures.len()
                    &&& forall|i: int|
                        0 <= i < doomed.len() ==> kill.ensures(
                            (&old(self).creatures@[i],),
                            #[trigger] doomed[i],
                        )
                    &&& final(self)@.creatures == spared(old(self)@.creatures, doomed)
                },
    {
        let ghost pop = self@.creatures;
        let n = self.creatures.len();
        let mut kept: Vec<Creature> = Vec::new();
        let ghost mut doomed: Seq<bool> = seq![];
        let mut i: usize = 0;
        while i < n
            invariant
                forall|c: &Creature| kill.requires((c,)),
                n == self.creatures@.len(),
                pop == self@.creatures,
                self.creatures == old(self).creatures,
                self.generation == old(self).generation,
                i <= n,
                doomed.len() == i,
                forall|j: int|
                    0 <= j < i ==> kill.ensures((&self.creatures@[j],), #[trigger] doomed[j]),
                kept@.map_values(|c: Creature| c@) == spared(pop.take(i as int), doomed),
            decreases n - i,
        {
            let dies = kill(&self.creatures[i]);
            proof {
                lemma_take_step(pop, i as int);
                assert(doomed.push(dies).drop_last() =~= doomed);
            }
            if !dies {
                kept.push(self.creatures[i].clone());
                assert(kept@.map_values(|c: Creature| c@) =~= spared(pop.take(i as int), doomed).push(
                    pop[i as int],
                ));
            }
            proof {
                doomed = doomed.push(dies);
            }
            i = i + 1;
        }
        assert(pop.take(n as int) =~= pop);
        self.creatures = kept;
    }

    /// The partner of the creature at `index`: the first creature of the population at
    /// another index, if there is one.
    fn find_partner(&self, index: usize) -> (r: Option<&Creature>)
        ensures
            self.creatures@.len() > first_other(index as int) ==> r == Some(
                &self.creatures@[first_other(index as int)],
            ),
            self.creatures@.len() <= first_other(index as int) ==> r is None,
    {
        let mut i: usize = 0;
        while i < self.creatures.len()
            invariant
                i <= self.creatures@.len(),
                i <= first_other(index as int),
            decreases self.creatures@.len() - i,
        {
            if i == index {
                i = i + 1;
                continue;
            }
            return Some(&self.creatures[i]);
        }
        None
    }

    /// The two parents of the child that fills slot `slot`: the creature stored at that slot
    /// and its partner.
    ///
    /// Fails with `InvariantViolation` when the slot lies outside the population or the
    /// population holds no other creature.
    fn parents(&self, slot: usize) -> (r: Result<(&Creature, &Creature), GeneticError>)
        ensures
            (slot < self.creatures@.len() && self.creatures@.len() > first_other(slot as int))
                ==> r == Ok::<(&Creature, &Creature), GeneticError>(
                (&self.creatures@[slot as int], &self.creatures@[first_other(slot as int)]),
            ),
            !(slot < self.creatures@.len() && self.creatures@.len() > first_other(slot as int))
                ==> r == Err::<(&Creature, &Creature), GeneticError>(
                GeneticError::InvariantViolation,
            ),
    {
        if slot >= self.creatures.len() {
            return Err(GeneticError::InvariantViolation);
        }
        let first_parent = &self.creatures[slot];
        match self.find_partner(slot) {
            Some(second_parent) => Ok((first_parent, second_parent)),
            None => Err(GeneticError::InvariantViolation),
        }
    }

    /// Grows the population to `n` creatures by appending, for each missing slot in turn,
    /// the child of the creature stored at that slot and its partner.
    ///
    /// The first parent of a missing slot is looked up at the slot itself, which lies past
    /// the end of the population, so any growth fails with `InvariantViolation` and leaves
    /// the generation as it was. When the population already holds `n` creatures or more,
    /// nothing changes.
    pub fn repopulate(&mut self, n: usize) -> (r: Result<(), GeneticError>)
        ensures
            n <= old(self)@.creatures.len() ==> r == Ok::<(), GeneticError>(()),
            n > old(self)@.creatures.len() ==> r == Err::<(), GeneticError>(
                GeneticError::InvariantViolation,
            ),
            final(self)@ == old(self)@,
            r is Ok ==> final(self)@.creatures.len() == if n > old(self)@.creatures.len() {
                n as nat
            } else {
                old(self)@.creatures.len()
            },
            r is Ok ==> forall|i: int|
                0 <= i < old(self)@.creatures.len() ==> #[trigger] final(self)@.creatures[i]
                    == old(self)@.creatures[i],
            (old(self)@.creatures.len() < 2 && n > old(self)@.creatures.len()) ==> r == Err::<
                (),
                GeneticError,
            >(GeneticError::InvariantViolation),
    {
        let mut slot: usize = self.creatures.len();
        while slot < n
            invariant
                self.creatures@.len() == slot,
                self@ == old(self)@,
            decreases n - slot,
        {
            let child = match self.parents(slot) {
                Ok((first_parent, second_parent)) => breed(first_parent, second_parent),
                Err(e) => return Err(e),
            };
            self.creatures.push(child);
            slot = slot + 1;
        }
        Ok(())
    }
}

} // verus!

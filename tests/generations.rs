use genetic::creatures::Creature;
use genetic::error::GeneticError;
use genetic::generations::{Generation, Threshold};
use genetic::genes::Gene;

const NUM_CREATURES: usize = 10;
const NUM_GENES: usize = 100;

fn creature_of(values: &[bool]) -> Creature {
    Creature {
        genes: values
            .iter()
            .enumerate()
            .map(|(t, &v)| Gene { t, v })
            .collect(),
        generation: 0,
    }
}

fn with_fitness(fitness: usize, n_genes: usize) -> Creature {
    let values: Vec<bool> = (0..n_genes).map(|i| i < fitness).collect();
    creature_of(&values)
}

fn fitnesses(generation: &Generation) -> Vec<usize> {
    generation.creatures.iter().map(|c| c.fitness()).collect()
}

#[test]
fn it_creates_generation() {
    let generation = Generation::new(NUM_CREATURES, NUM_GENES);
    assert_eq!(generation.generation, 0);
    assert_eq!(generation.creatures.len(), NUM_CREATURES);

    for creature in generation.creatures.iter() {
        assert_eq!(creature.genes.len(), NUM_GENES);

        // Since all creatures should be new
        // the creature generation should be 0
        assert_eq!(creature.generation, 0);
    }
}

#[test]
fn it_runs_generation() {
    let genesis = Generation::new(NUM_CREATURES, NUM_GENES);
    let generation = genesis.run();

    assert!(generation.creatures.len() < genesis.creatures.len());
}

#[test]
fn it_kills_half() {
    let mut creatures = Vec::with_capacity(NUM_CREATURES);
    let max_index = NUM_CREATURES / 2;

    for i in 0..creatures.capacity() {
        let mut creature = Creature::new(NUM_GENES);
        for t in 0..NUM_GENES {
            creature.genes[t].v = i < max_index;
        }

        match i < creatures.len() {
            true => creatures[i] = creature,
            false => creatures.push(creature),
        }
    }

    let mut generation = Generation {
        generation: 0,
        creatures,
    };
    generation.kill(|creature| creature.fitness() > 3);

    assert_eq!(generation.creatures.len(), max_index);
}

#[test]
fn run_keeps_creatures_above_mean_in_order() {
    let genesis = Generation {
        generation: 4,
        creatures: vec![
            with_fitness(3, 5),
            with_fitness(1, 5),
            with_fitness(2, 5),
            with_fitness(5, 5),
            with_fitness(2, 5),
        ],
    };
    // The mean fitness is 13 / 5.
    let next = genesis.run();
    assert_eq!(next.generation, 5);
    assert_eq!(fitnesses(&next), vec![3, 5]);
    assert_eq!(fitnesses(&genesis), vec![3, 1, 2, 5, 2]);
}

#[test]
fn run_with_equal_fitness_keeps_nobody() {
    let genesis = Generation {
        generation: 0,
        creatures: vec![with_fitness(2, 4), with_fitness(2, 4)],
    };
    assert!(genesis.run().creatures.is_empty());
}

#[test]
fn run_on_empty_population() {
    let genesis = Generation { generation: 2, creatures: vec![] };
    let next = genesis.run();
    assert_eq!(next.generation, 3);
    assert!(next.creatures.is_empty());
}

#[test]
fn baseline_run_keeps_every_active_creature() {
    let genesis = Generation {
        generation: 0,
        creatures: vec![with_fitness(0, 3), with_fitness(2, 3), with_fitness(1, 3), with_fitness(3, 3)],
    };
    let next = genesis.run_with(Threshold::BaselineFitness);
    assert_eq!(next.generation, 1);
    assert_eq!(fitnesses(&next), vec![2, 1, 3]);
}

#[test]
fn baseline_run_on_single_creature_keeps_nobody() {
    let genesis = Generation { generation: 0, creatures: vec![with_fitness(3, 3)] };
    assert!(genesis.run_with(Threshold::BaselineFitness).creatures.is_empty());
}

#[test]
fn kill_with_false_predicate_keeps_population() {
    let mut generation = Generation {
        generation: 1,
        creatures: vec![with_fitness(1, 4), with_fitness(4, 4), with_fitness(0, 4)],
    };
    generation.kill(|_| false);
    assert_eq!(generation.generation, 1);
    assert_eq!(fitnesses(&generation), vec![1, 4, 0]);
}

#[test]
fn kill_removes_exactly_matching_creatures() {
    let mut generation = Generation {
        generation: 0,
        creatures: vec![
            with_fitness(1, 6),
            with_fitness(5, 6),
            with_fitness(2, 6),
            with_fitness(6, 6),
            with_fitness(3, 6),
        ],
    };
    generation.kill(|c| c.fitness() % 2 == 0);
    assert_eq!(fitnesses(&generation), vec![1, 5, 3]);
}

#[test]
fn kill_bottom_half_halves_population() {
    let mut generation = Generation::new(NUM_CREATURES, NUM_GENES);
    let next = generation.run();
    assert_eq!(next.generation, 1);
    assert!(next.creatures.len() <= NUM_CREATURES);

    // Give the creatures distinct fitness so that the bottom half is well defined.
    for (i, creature) in generation.creatures.iter_mut().enumerate() {
        *creature = with_fitness(i * 10, NUM_GENES);
    }
    generation.kill(|c| c.fitness() < 50);
    assert_eq!(generation.creatures.len(), NUM_CREATURES / 2);
    assert_eq!(fitnesses(&generation), vec![50, 60, 70, 80, 90]);
}

#[test]
fn repopulate_without_growth_changes_nothing() {
    let mut generation = Generation {
        generation: 3,
        creatures: vec![with_fitness(1, 2), with_fitness(2, 2), with_fitness(0, 2)],
    };
    assert_eq!(generation.repopulate(3), Ok(()));
    assert_eq!(generation.repopulate(0), Ok(()));
    assert_eq!(generation.generation, 3);
    assert_eq!(fitnesses(&generation), vec![1, 2, 0]);
}

#[test]
fn repopulate_growth_fails_with_invariant_violation() {
    let mut empty = Generation { generation: 0, creatures: vec![] };
    assert_eq!(empty.repopulate(1), Err(GeneticError::InvariantViolation));
    assert!(empty.creatures.is_empty());

    let mut single = Generation { generation: 0, creatures: vec![with_fitness(1, 2)] };
    assert_eq!(single.repopulate(2), Err(GeneticError::InvariantViolation));
    assert_eq!(fitnesses(&single), vec![1]);

    let mut pair = Generation { generation: 0, creatures: vec![with_fitness(1, 2), with_fitness(2, 2)] };
    assert_eq!(pair.repopulate(3), Err(GeneticError::InvariantViolation));
    assert_eq!(fitnesses(&pair), vec![1, 2]);
}

#[test]
fn generation_clone_copies_every_creature() {
    let generation = Generation {
        generation: 6,
        creatures: vec![with_fitness(1, 3), with_fitness(3, 3)],
    };
    let copy = generation.clone();
    assert_eq!(copy.generation, 6);
    assert_eq!(copy.creatures.len(), 2);
    for (a, b) in copy.creatures.iter().zip(generation.creatures.iter()) {
        assert_eq!(a.genes, b.genes);
        assert_eq!(a.generation, b.generation);
    }
}

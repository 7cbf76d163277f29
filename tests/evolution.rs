use genetic::creatures::Creature;
use genetic::evolution::breed;
use genetic::genes::Gene;

fn creature_of(values: &[bool], generation: usize) -> Creature {
    Creature {
        genes: values
            .iter()
            .enumerate()
            .map(|(t, &v)| Gene { t: t + 40, v })
            .collect(),
        generation,
    }
}

fn values(c: &Creature) -> Vec<bool> {
    c.genes.iter().map(|g| g.v).collect()
}

#[test]
fn breed_takes_xnor_of_shared_loci() {
    let a = creature_of(&[true, true, false, false], 3);
    let b = creature_of(&[true, false, true, false], 8);
    let child = breed(&a, &b);
    assert_eq!(child.generation, 0);
    assert_eq!(values(&child), vec![true, false, false, true]);
    let loci: Vec<usize> = child.genes.iter().map(|g| g.t).collect();
    assert_eq!(loci, vec![0, 1, 2, 3]);
}

#[test]
fn breed_copies_the_longer_parent_past_the_shorter() {
    let short = creature_of(&[false], 0);
    let long = creature_of(&[false, true, false, true], 0);
    assert_eq!(values(&breed(&short, &long)), vec![true, true, false, true]);
    assert_eq!(values(&breed(&long, &short)), vec![true, true, false, true]);
    assert_eq!(breed(&short, &long).genes.len(), 4);
}

#[test]
fn breed_is_symmetric() {
    let a = Creature::new(30);
    let b = Creature::new(20);
    assert_eq!(breed(&a, &b).genes, breed(&b, &a).genes);
}

#[test]
fn breed_uniform_parents() {
    let all_true = creature_of(&[true; 6], 1);
    let all_false = creature_of(&[false; 6], 2);
    assert_eq!(values(&breed(&all_true, &all_true)), vec![true; 6]);
    assert_eq!(values(&breed(&all_true, &all_false)), vec![false; 6]);
    assert_eq!(values(&breed(&all_false, &all_false)), vec![true; 6]);
}

#[test]
fn breed_of_empty_parents_is_empty() {
    let empty = creature_of(&[], 5);
    let child = breed(&empty, &empty);
    assert!(child.genes.is_empty());
    assert_eq!(child.generation, 0);
}

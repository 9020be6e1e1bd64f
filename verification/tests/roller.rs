use phenotype::game::roller::Roller;
use rand::Rng;

#[test]
fn initialize() {
    let roller = Roller::<3, 3>::new();
    for roll in &roller.rolls {
        println!("{:?}", roll);
    }
}

#[test]
fn get_roll() {
    let mut rng = rand::thread_rng();
    let roller = Roller::<3, 6>::new();
    for _ in 0..10 {
        println!("{:?}", roller.get_roll(rng.gen::<usize>()));
    }
}

#[test]
fn enumerates_all_rolls_in_order() {
    let roller = Roller::<3, 3>::new();
    assert_eq!(roller.rolls.len(), 27);
    assert_eq!(roller.rolls[0], [1, 1, 1]);
    assert_eq!(roller.rolls[1], [1, 1, 2]);
    assert_eq!(roller.rolls[5], [1, 2, 3]);
    assert_eq!(roller.rolls[26], [3, 3, 3]);
    for window in roller.rolls.windows(2) {
        assert!(window[0] < window[1]);
    }
}

#[test]
fn get_roll_wraps_around_the_table() {
    let roller = Roller::<2, 4>::new();
    assert_eq!(roller.rolls.len(), 16);
    assert_eq!(roller.get_roll(3), roller.rolls[3]);
    assert_eq!(roller.get_roll(16), roller.rolls[0]);
    assert_eq!(roller.get_roll(21), roller.rolls[5]);
}

#[test]
fn single_die_table() {
    let roller = Roller::<1, 6>::new();
    assert_eq!(roller.rolls.len(), 6);
    assert_eq!(roller.rolls[0], [1]);
    assert_eq!(roller.rolls[5], [6]);
}

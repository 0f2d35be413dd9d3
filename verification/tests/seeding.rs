use ring_kmc::init::{uniform_states, wave_states};
use ring_kmc::random::random_states;
use ring_kmc::lattice::Lattice;
use ring_kmc::system::System;

#[test]
fn uniform_pattern() {
    let states = uniform_states(6);
    assert_eq!(states, vec![0, 0, 0, 0, 0, 0]);
    assert_eq!(uniform_states(0), Vec::<u8>::new());
}

#[test]
fn wave_pattern_one_period() {
    // block length 10 / 3 + 1 = 4
    let states = wave_states(10, 1);
    assert_eq!(states, vec![0, 0, 0, 0, 1, 1, 1, 1, 2, 2]);
}

#[test]
fn wave_pattern_two_periods() {
    // block length 12 / 6 + 1 = 3
    let states = wave_states(12, 2);
    assert_eq!(states, vec![0, 0, 0, 1, 1, 1, 2, 2, 2, 0, 0, 0]);
}

#[test]
fn wave_pattern_short_blocks() {
    // block length 6 / 6 + 1 = 2
    let states = wave_states(6, 2);
    assert_eq!(states, vec![0, 0, 1, 1, 2, 2]);
}

#[test]
fn wave_pattern_collapsed_blocks() {
    // more periods than fit: the block length collapses to 1 and the
    // states cycle site by site
    let states = wave_states(4, 2);
    assert_eq!(states, vec![0, 1, 2, 0]);
}

#[test]
fn random_pattern_is_valid() {
    let mut rng = rand::thread_rng();
    let states = random_states(&mut rng, 200);
    assert_eq!(states.len(), 200);
    for &s in &states {
        assert!(s < 3);
    }
    let lat = Lattice::create_regular_ring(200, 5).unwrap();
    let sys = System::initialize(lat, states).unwrap();
    for i in 0..200 {
        assert_eq!(sys.delta(i), sys.delta_from_scratch(i));
    }
}

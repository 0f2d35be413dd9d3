use ring_kmc::lattice::Lattice;
use ring_kmc::system::System;

fn rate(coupling: f64, delta: i64, nbr_count: usize) -> f64 {
    (coupling * delta as f64 / nbr_count as f64).exp()
}

fn sum_of_rates(sys: &System, coupling: f64) -> f64 {
    let n = sys.lattice().neighbor_count();
    let mut sum = 0.0;
    for i in 0..sys.size() {
        sum += rate(coupling, sys.delta(i), n);
    }
    sum
}

#[test]
fn initialize_rejects_wrong_length() {
    let lat = Lattice::create_regular_ring(4, 1).unwrap();
    assert!(System::initialize(lat, vec![0, 0, 0]).is_none());
}

#[test]
fn initialize_rejects_invalid_state() {
    let lat = Lattice::create_regular_ring(4, 1).unwrap();
    assert!(System::initialize(lat, vec![0, 0, 3, 0]).is_none());
}

#[test]
fn uniform_ring_scores() {
    // all sites equal: every neighbor is in the current state, none in the
    // next state, so every score is minus the neighbor count
    let lat = Lattice::create_regular_ring(4, 1).unwrap();
    let sys = System::initialize(lat, vec![0, 0, 0, 0]).unwrap();
    for i in 0..4 {
        assert_eq!(sys.delta(i), -2);
        assert_eq!(sys.delta_from_scratch(i), -2);
    }
}

#[test]
fn zero_coupling_fixed_point() {
    // ring of 4, half-width 1, coupling 0, all sites starting in state 0:
    // every rate is exp(0) = 1 and the total rate is 4, and stays 4 no
    // matter which transitions happen
    let lat = Lattice::create_regular_ring(4, 1).unwrap();
    let mut sys = System::initialize(lat, vec![0, 0, 0, 0]).unwrap();
    let coupling = 0.0;
    for i in 0..4 {
        assert_eq!(rate(coupling, sys.delta(i), 2), 1.0);
    }
    assert_eq!(sum_of_rates(&sys, coupling), 4.0);

    sys.advance(1);
    assert_eq!(sys.states_snapshot(), vec![0, 1, 0, 0]);
    // the advanced site and both its neighbors now score 0; the opposite
    // site keeps its score
    assert_eq!(sys.delta(0), 0);
    assert_eq!(sys.delta(1), 0);
    assert_eq!(sys.delta(2), 0);
    assert_eq!(sys.delta(3), -2);
    for i in 0..4 {
        assert_eq!(rate(coupling, sys.delta(i), 2), 1.0);
    }
    assert_eq!(sum_of_rates(&sys, coupling), 4.0);

    for site in [0, 3, 1, 1, 2, 0] {
        sys.advance(site);
        assert_eq!(sum_of_rates(&sys, coupling), 4.0);
    }
}

#[test]
fn wave_ring_initial_sum() {
    // ring of 8, half-width 1, coupling 2.0, one wave period: the initial
    // total rate matches the manual computation
    let lat = Lattice::create_regular_ring(8, 1).unwrap();
    let states = vec![0, 0, 1, 1, 2, 2, 0, 0];
    let sys = System::initialize(lat, states).unwrap();
    let expected_deltas: [i64; 8] = [-2, 0, -1, 0, -1, 0, -1, -2];
    for i in 0..8 {
        assert_eq!(sys.delta(i), expected_deltas[i]);
    }
    let coupling = 2.0;
    // rate of site i is exp(2.0 * delta / 2) = exp(delta)
    let manual = 3.0 + 3.0 * (-1.0f64).exp() + 2.0 * (-2.0f64).exp();
    let computed = sum_of_rates(&sys, coupling);
    assert!((computed - manual).abs() <= 1e-12 * manual.abs());
}

#[test]
fn advance_wraps_cyclically() {
    let lat = Lattice::create_regular_ring(4, 1).unwrap();
    let mut sys = System::initialize(lat, vec![2, 2, 2, 2]).unwrap();
    sys.advance(0);
    assert_eq!(sys.state(0), 0);
    assert_eq!(sys.state(1), 2);
    sys.advance(0);
    assert_eq!(sys.state(0), 1);
    sys.advance(0);
    assert_eq!(sys.state(0), 2);
}

#[test]
fn incremental_scores_match_oracle() {
    // after an arbitrary sequence of transitions, every incrementally
    // maintained score equals the score recomputed from scratch, each site
    // holds a valid state, and each transition moves exactly one site
    // forward by one position
    let lat = Lattice::create_regular_ring(11, 2).unwrap();
    let states = ring_kmc::init::wave_states(11, 1);
    let mut sys = System::initialize(lat, states).unwrap();
    for t in 0..40usize {
        let site = (7 * t + 3) % 11;
        let before = sys.states_snapshot();
        sys.advance(site);
        let after = sys.states_snapshot();
        for i in 0..11 {
            assert!(after[i] < 3);
            if i == site {
                assert_eq!(after[i], (before[i] + 1) % 3);
            } else {
                assert_eq!(after[i], before[i]);
            }
            assert_eq!(sys.delta(i), sys.delta_from_scratch(i));
        }
    }
}

#[test]
fn incremental_rate_sum_matches_recomputation() {
    // the rates and their total maintained incrementally, the way a
    // simulation driver keeps them, agree with a from-scratch
    // recomputation after every transition
    let size = 12;
    let coupling = 1.3;
    let lat = Lattice::create_regular_ring(size, 2).unwrap();
    let n = lat.neighbor_count();
    let states = ring_kmc::init::wave_states(size, 2);
    let mut sys = System::initialize(lat, states).unwrap();

    let mut rates: Vec<f64> = (0..size).map(|i| rate(coupling, sys.delta(i), n)).collect();
    let mut rates_sum: f64 = rates.iter().sum();

    for t in 0..50usize {
        let site = (5 * t + 1) % size;
        sys.advance(site);
        let mut affected = sys.lattice().neighbors_of(site);
        affected.push(site);
        for v in affected {
            let new_rate = rate(coupling, sys.delta(v), n);
            rates_sum += new_rate - rates[v];
            rates[v] = new_rate;
        }
        let from_scratch = sum_of_rates(&sys, coupling);
        assert!((rates_sum - from_scratch).abs() <= 1e-9 * from_scratch.abs());
    }
}

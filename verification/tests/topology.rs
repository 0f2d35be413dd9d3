use ring_kmc::lattice::Lattice;

#[test]
fn ring_of_five_range_one() {
    let lat = Lattice::create_regular_ring(5, 1).unwrap();
    assert_eq!(lat.size(), 5);
    assert_eq!(lat.range(), 1);
    assert_eq!(lat.neighbor_count(), 2);
    assert_eq!(lat.neighbors_of(0), vec![4, 1]);
    assert_eq!(lat.neighbors_of(2), vec![1, 3]);
    assert_eq!(lat.neighbors_of(4), vec![3, 0]);
}

#[test]
fn ring_of_seven_range_two() {
    let lat = Lattice::create_regular_ring(7, 2).unwrap();
    assert_eq!(lat.neighbor_count(), 4);
    // slots: left offsets 1, 2 then right offsets 1, 2
    assert_eq!(lat.neighbors_of(0), vec![6, 5, 1, 2]);
    assert_eq!(lat.neighbors_of(3), vec![2, 1, 4, 5]);
    assert_eq!(lat.neighbors_of(6), vec![5, 4, 0, 1]);
}

#[test]
fn neighbor_matches_neighbors_of() {
    let lat = Lattice::create_regular_ring(9, 3).unwrap();
    for site in 0..9 {
        let list = lat.neighbors_of(site);
        assert_eq!(list.len(), 6);
        for j in 0..list.len() {
            assert_eq!(lat.neighbor(site, j), list[j]);
        }
    }
}

#[test]
fn symmetry_on_a_concrete_ring() {
    // every neighbor relation holds in both directions
    let lat = Lattice::create_regular_ring(10, 4).unwrap();
    for site in 0..10 {
        for v in lat.neighbors_of(site) {
            assert!(lat.neighbors_of(v).contains(&site));
        }
    }
}

#[test]
fn rejected_configurations() {
    assert!(Lattice::create_regular_ring(0, 1).is_none());
    assert!(Lattice::create_regular_ring(5, 0).is_none());
    // twice the half-width may not reach the ring size
    assert!(Lattice::create_regular_ring(4, 2).is_none());
    assert!(Lattice::create_regular_ring(8, 4).is_none());
    assert!(Lattice::create_regular_ring(2, 1).is_none());
    assert!(Lattice::create_regular_ring(9, 4).is_some());
    assert!(Lattice::create_regular_ring(3, 1).is_some());
}

use petri_trains::our_model::{
    fast_create_big_road, fast_create_road, fast_create_small_road, find_reverse_transmition,
    our_model, paint_example, reverse_transmition, reverse_transmition_by_cycle, transitions,
    transitions_example,
};
use petri_trains::petri_net_model::{Color, PetriNet, PetriNetTransition};

fn sparse(entries: Vec<(usize, i32)>) -> PetriNetTransition {
    let mut v = vec![0; 45];
    for (p, c) in entries {
        v[p] = c;
    }
    PetriNetTransition::new(v)
}

#[test]
fn color_test() {
    assert!(our_model().check_duality(&paint_example()))
}

#[test]
fn reversibility_test() {
    let witness = transitions_example();
    assert_eq!(witness.len(), 34);
}

#[test]
fn scenario_has_34_transitions_over_45_places() {
    let all = transitions();
    assert_eq!(all.len(), 34);
    for t in all {
        assert!(PetriNetTransition::compose(t, PetriNetTransition::id(45)).is_some());
    }
}

#[test]
fn small_road_moves() {
    let road = fast_create_small_road(4, 5);
    assert_eq!(road.len(), 2);
    assert!(road[0] == sparse(vec![(12, -1), (13, -1), (14, 1), (15, 1), (16, 1), (17, -1)]));
    assert!(road[1] == sparse(vec![(12, -1), (15, 1)]));
}

#[test]
fn medium_road_moves() {
    let road = fast_create_road(2, 3, 4);
    assert_eq!(road.len(), 4);
    assert!(road[0] == sparse(vec![(6, -1), (7, -1), (8, 1), (33, -1), (35, 1), (11, -1)]));
    assert!(road[1] == sparse(vec![(9, 1), (10, 1), (33, 1), (35, -1)]));
    assert!(road[2] == sparse(vec![(6, -1), (33, -1), (34, 1)]));
    assert!(road[3] == sparse(vec![(9, 1), (33, 1), (34, -1)]));
}

#[test]
fn medium_road_leaves_the_buffers_of_the_first_two_cities() {
    let road = fast_create_road(1, 0, 2);
    assert!(road[0] == sparse(vec![(3, -1), (4, -1), (27, -1), (29, 1)]));
    let road = fast_create_road(1, 5, 3);
    assert!(road[0] == sparse(vec![(3, -1), (4, -1), (30, -1), (32, 1), (17, -1)]));
    let road = fast_create_road(4, 0, 7);
    assert!(road[0] == sparse(vec![(12, -1), (13, -1), (14, 1), (42, -1), (44, 1)]));
}

#[test]
fn big_road_moves() {
    let road = fast_create_big_road(0, 2, 0);
    assert_eq!(road.len(), 6);
    assert!(road[0] == sparse(vec![(0, -1), (1, -1), (21, -1), (23, 1), (8, -1)]));
    assert!(road[1] == sparse(vec![(21, 1), (23, -1), (24, -1), (26, 1)]));
    assert!(road[2] == sparse(vec![(26, -1), (24, 1), (6, 1), (7, 1)]));
    assert!(road[3] == sparse(vec![(0, -1), (21, -1), (22, 1)]));
    assert!(road[4] == sparse(vec![(21, 1), (22, -1), (24, -1), (25, 1)]));
    assert!(road[5] == sparse(vec![(24, 1), (25, -1), (6, 1)]));
    let road = fast_create_big_road(3, 1, 5);
    assert!(road[0] == sparse(vec![(9, -1), (10, -1), (11, 1), (36, -1), (38, 1)]));
    assert!(road[5] == sparse(vec![(39, 1), (40, -1), (3, 1)]));
}

#[test]
fn scenario_lists_the_roads_in_order() {
    let all = transitions();
    let mut expected = fast_create_big_road(0, 2, 0);
    expected.extend(fast_create_road(1, 0, 2));
    expected.extend(fast_create_road(1, 5, 3));
    expected.extend(fast_create_road(2, 3, 4));
    expected.extend(fast_create_big_road(3, 1, 5));
    expected.extend(fast_create_road(4, 0, 7));
    expected.extend(fast_create_small_road(4, 5));
    expected.extend(fast_create_small_road(5, 6));
    expected.extend(fast_create_small_road(6, 4));
    assert!(all == expected);
    assert!(all[6] == fast_create_road(1, 0, 2)[0]);
    assert!(all[33] == sparse(vec![(18, -1), (12, 1)]));
}

#[test]
fn canonical_colouring_by_place() {
    let colors = paint_example();
    assert_eq!(colors.len(), 45);
    for x in 0..45 {
        let expected = if x < 21 {
            match x % 3 {
                0 => Color::Red,
                1 => Color::Blue,
                _ => Color::Blank,
            }
        } else {
            match x % 3 {
                1 => Color::Red,
                2 => Color::Purple,
                _ => Color::Blank,
            }
        };
        assert_eq!(colors[x], expected);
    }
    assert_eq!(colors[0], Color::Red);
    assert_eq!(colors[20], Color::Blank);
    assert_eq!(colors[21], Color::Blank);
    assert_eq!(colors[22], Color::Red);
    assert_eq!(colors[44], Color::Purple);
}

#[test]
fn every_transition_is_balanced_under_the_canonical_colouring() {
    let colors = paint_example();
    for t in transitions() {
        assert!(t.check_duality(&colors));
    }
}

#[test]
fn duality_breaks_under_a_swapped_colouring() {
    let mut colors = paint_example();
    colors[0] = Color::Blue;
    colors[1] = Color::Red;
    assert!(!our_model().check_duality(&colors));
}

#[test]
fn duality_holds_without_any_colour() {
    let colors = vec![Color::Blank; 45];
    assert!(our_model().check_duality(&colors));
    for t in transitions() {
        assert!(t.check_duality(&colors));
    }
}

#[test]
fn cycle_is_turned_past_the_transition() {
    let a = sparse(vec![(0, 1)]);
    let b = sparse(vec![(1, 1)]);
    let c = sparse(vec![(2, 1)]);
    let d = sparse(vec![(3, 1)]);
    let cycle = vec![a.clone(), b.clone(), c.clone(), d.clone()];
    let w = reverse_transmition_by_cycle(&b, cycle.clone());
    assert!(w == Some(vec![c.clone(), d.clone(), a.clone()]));
    let w = reverse_transmition_by_cycle(&a, cycle.clone());
    assert!(w == Some(vec![b.clone(), c.clone(), d.clone()]));
    let w = reverse_transmition_by_cycle(&d, cycle.clone());
    assert!(w == Some(vec![a.clone(), b.clone(), c.clone()]));
    let w = reverse_transmition_by_cycle(&a, vec![a.clone()]);
    assert!(w == Some(vec![]));
}

#[test]
fn cycle_is_turned_at_the_first_occurrence() {
    let a = sparse(vec![(0, 1)]);
    let b = sparse(vec![(1, 1)]);
    let c = sparse(vec![(2, 1)]);
    let cycle = vec![a.clone(), b.clone(), c.clone(), b.clone()];
    let w = reverse_transmition_by_cycle(&b, cycle);
    assert!(w == Some(vec![c.clone(), b.clone(), a.clone()]));
}

#[test]
fn cycle_without_the_transition_gives_nothing() {
    let a = sparse(vec![(0, 1)]);
    let b = sparse(vec![(1, 1)]);
    assert!(reverse_transmition_by_cycle(&b, vec![a.clone(), a.clone()]).is_none());
    assert!(reverse_transmition_by_cycle(&b, vec![]).is_none());
}

#[test]
fn witness_comes_from_the_first_cycle_with_the_transition() {
    let big = fast_create_big_road(0, 2, 0);
    let w = reverse_transmition(big[0].clone());
    let mut expected = vec![big[1].clone(), big[2].clone()];
    expected.extend(fast_create_road(2, 3, 4).drain(0..2));
    expected.extend(fast_create_big_road(3, 1, 5).drain(0..3));
    expected.extend(fast_create_road(1, 0, 2).drain(0..2));
    assert!(w == expected);

    let w = reverse_transmition(fast_create_small_road(5, 6)[1].clone());
    let mut expected = vec![fast_create_small_road(6, 4)[1].clone()];
    expected.extend(fast_create_road(4, 0, 7).drain(2..4));
    expected.extend(fast_create_big_road(0, 2, 0).drain(3..6));
    expected.extend(fast_create_road(2, 3, 4).drain(2..4));
    expected.extend(fast_create_big_road(3, 1, 5).drain(3..6));
    expected.extend(fast_create_road(1, 5, 3).drain(2..4));
    assert!(w == expected);

    let w = reverse_transmition(fast_create_small_road(4, 5)[0].clone());
    let expected =
        vec![fast_create_small_road(5, 6)[0].clone(), fast_create_small_road(6, 4)[0].clone()];
    assert!(w == expected);
}

#[test]
fn witnesses_follow_the_scenario() {
    let all = transitions();
    let witness = transitions_example();
    assert_eq!(witness.len(), all.len());
    for (t, w) in all.iter().zip(witness.iter()) {
        assert!(*w == reverse_transmition(t.clone()));
        assert!(!w.is_empty());
        assert!(!w.contains(t));
    }
}

#[test]
fn catalogue_witness_does_not_certify_the_scenario() {
    let net = our_model();
    assert!(!net.check_reversibility(transitions_example()));
}

#[test]
fn catalogue_witness_starts_with_a_consumer() {
    for w in transitions_example() {
        let first = w[0].clone();
        assert!(PetriNetTransition::compose(PetriNetTransition::id(45), first).is_none());
    }
}

#[test]
fn scenario_rejects_a_witness_with_a_flipped_coefficient() {
    let net = PetriNet::new(45, transitions());
    let mut witness = transitions_example();
    witness[3][0] = sparse(vec![(0, 1), (6, 1)]);
    assert!(!net.check_reversibility(witness));
}

fn fire_all(start: PetriNetTransition, list: &[PetriNetTransition]) -> Option<PetriNetTransition> {
    let mut acc = start;
    for t in list {
        acc = PetriNetTransition::compose_ref(&acc, t)?;
    }
    Some(acc)
}

#[test]
fn witness_then_transition_returns_every_token() {
    let stocked = PetriNetTransition::new(vec![1; 45]);
    for t in transitions() {
        let mut round = reverse_transmition(t.clone());
        round.push(t);
        assert!(fire_all(stocked.clone(), &round) == Some(stocked.clone()));
    }
}

#[test]
fn witness_alone_leaves_the_inverse_of_its_transition() {
    let stocked = PetriNetTransition::new(vec![1; 45]);
    let t = fast_create_small_road(4, 5)[1].clone();
    let after = fire_all(stocked.clone(), &reverse_transmition(t));
    let mut expected = vec![1; 45];
    expected[12] = 2;
    expected[15] = 0;
    assert!(after == Some(PetriNetTransition::new(expected)));

    let t = fast_create_big_road(0, 2, 0)[0].clone();
    let after = fire_all(stocked, &reverse_transmition(t));
    let mut expected = vec![1; 45];
    expected[0] = 2;
    expected[1] = 2;
    expected[21] = 2;
    expected[23] = 0;
    expected[8] = 2;
    assert!(after == Some(PetriNetTransition::new(expected)));
}

#[test]
fn cycles_do_not_fire_from_the_identity() {
    for t in transitions() {
        let mut round = reverse_transmition(t.clone());
        round.push(t);
        assert!(fire_all(PetriNetTransition::id(45), &round).is_none());
    }
}

#[test]
fn stranger_has_no_witness() {
    assert!(find_reverse_transmition(&PetriNetTransition::id(45)).is_none());
    assert!(find_reverse_transmition(&sparse(vec![(0, -1), (3, 1)])).is_none());
    assert!(find_reverse_transmition(&PetriNetTransition::new(vec![-1, 1])).is_none());
    let t = fast_create_road(1, 5, 3)[3].clone();
    assert!(find_reverse_transmition(&t) == Some(reverse_transmition(t)));
}

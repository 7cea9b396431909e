use petri_trains::petri_net_model::{Color, PetriNet, PetriNetStage, PetriNetTransition};

fn tr(v: Vec<i32>) -> PetriNetTransition {
    PetriNetTransition::new(v)
}

#[test]
fn stage_accepts_non_negative_tokens() {
    assert!(PetriNetStage::new(vec![0, 3, 1]).is_some());
    assert!(PetriNetStage::new(vec![]).is_some());
}

#[test]
fn stage_rejects_a_negative_token() {
    assert!(PetriNetStage::new(vec![0, -1, 1]).is_none());
    assert!(PetriNetStage::new(vec![-5]).is_none());
}

#[test]
fn identity_is_all_zero() {
    assert!(PetriNetTransition::id(4) == tr(vec![0, 0, 0, 0]));
    assert!(PetriNetTransition::id(0) == tr(vec![]));
    assert!(PetriNetTransition::id(3) != tr(vec![0, 0]));
}

#[test]
fn equality_is_by_coefficients() {
    assert!(tr(vec![1, -2, 3]) == tr(vec![1, -2, 3]));
    assert!(tr(vec![1, -2, 3]) != tr(vec![1, 2, 3]));
    assert!(tr(vec![1, -2]) != tr(vec![1, -2, 0]));
    let t = tr(vec![4, 5, -6]);
    assert!(t.clone() == t);
}

#[test]
fn compose_adds_place_by_place() {
    let c = PetriNetTransition::compose(tr(vec![2, 0, -1]), tr(vec![-1, 3, 0]));
    assert!(c == Some(tr(vec![1, 3, -1])));
    let d = PetriNetTransition::compose_ref(&tr(vec![1, 1]), &tr(vec![-1, -1]));
    assert!(d == Some(tr(vec![0, 0])));
}

#[test]
fn compose_fails_where_nothing_was_deposited() {
    let c = PetriNetTransition::compose(tr(vec![0, 0, 0]), tr(vec![-1, 0, 0]));
    assert!(c.is_none());
    let d = PetriNetTransition::compose(tr(vec![1, 5]), tr(vec![-2, 0]));
    assert!(d.is_none());
    let e = PetriNetTransition::compose(tr(vec![-3, 0]), tr(vec![1, 0]));
    assert!(e == Some(tr(vec![-2, 0])));
}

#[test]
fn compose_fails_on_different_lengths() {
    assert!(PetriNetTransition::compose(tr(vec![1, 2]), tr(vec![1, 2, 3])).is_none());
    assert!(PetriNetTransition::compose(tr(vec![1, 2, 3]), tr(vec![1, 2])).is_none());
}

#[test]
fn compose_fails_where_the_sum_is_no_coefficient() {
    assert!(PetriNetTransition::compose(tr(vec![i32::MAX]), tr(vec![1])).is_none());
    let c = PetriNetTransition::compose(tr(vec![i32::MAX - 1]), tr(vec![1]));
    assert!(c == Some(tr(vec![i32::MAX])));
    let d = PetriNetTransition::compose(tr(vec![i32::MIN]), tr(vec![0]));
    assert!(d == Some(tr(vec![i32::MIN])));
}

#[test]
fn identity_is_a_unit() {
    let t = tr(vec![3, -1, 0, 2]);
    let right = PetriNetTransition::compose(t.clone(), PetriNetTransition::id(4));
    assert!(right == Some(t.clone()));
    let left = PetriNetTransition::compose(PetriNetTransition::id(4), t.clone());
    assert!(left.is_none());
    let p = tr(vec![3, 1, 0, 2]);
    let left = PetriNetTransition::compose(PetriNetTransition::id(4), p.clone());
    assert!(left == Some(p));
}

#[test]
fn is_inverse_compares_coefficients() {
    assert!(PetriNetTransition::is_inverse(&tr(vec![1, -1]), &tr(vec![1, -1])));
    assert!(!PetriNetTransition::is_inverse(&tr(vec![1, -1]), &tr(vec![-1, 1])));
    assert!(!PetriNetTransition::is_inverse(&tr(vec![1, -1]), &tr(vec![1, -1, 0])));
    assert!(PetriNetTransition::is_inverse(&tr(vec![]), &tr(vec![])));
}

#[test]
fn duality_sums_by_colour() {
    let colors = vec![Color::Red, Color::Blue, Color::Purple, Color::Blank];
    assert!(tr(vec![1, 1, -1, 7]).check_duality(&colors));
    assert!(tr(vec![0, 0, 0, -3]).check_duality(&colors));
    assert!(!tr(vec![1, 0, -1, 0]).check_duality(&colors));
    assert!(!tr(vec![0, 1, -1, 0]).check_duality(&colors));
    assert!(!tr(vec![1, 1, 0, 0]).check_duality(&colors));
}

#[test]
fn duality_needs_one_colour_per_place() {
    let colors = vec![Color::Red, Color::Blue];
    assert!(!tr(vec![0, 0, 0]).check_duality(&colors));
    assert!(!tr(vec![0]).check_duality(&colors));
    assert!(tr(vec![0, 0]).check_duality(&colors));
}

#[test]
fn duality_holds_without_colours() {
    let colors = vec![Color::Blank, Color::Blank, Color::Blank];
    assert!(tr(vec![5, -7, 11]).check_duality(&colors));
    assert!(tr(vec![i32::MAX, i32::MAX, i32::MIN]).check_duality(&colors));
}

#[test]
fn duality_sums_do_not_wrap() {
    let colors = vec![Color::Red, Color::Red, Color::Red, Color::Red];
    assert!(!tr(vec![i32::MIN, i32::MIN, 0, 0]).check_duality(&colors));
    assert!(tr(vec![i32::MAX, i32::MIN, 1, 0]).check_duality(&colors));
}

#[test]
fn net_duality_asks_every_transition() {
    let colors = vec![Color::Red, Color::Red];
    let good = PetriNet::new(2, vec![tr(vec![1, -1]), tr(vec![-2, 2])]);
    assert!(good.check_duality(&colors));
    let bad = PetriNet::new(2, vec![tr(vec![1, -1]), tr(vec![1, 0])]);
    assert!(!bad.check_duality(&colors));
    let none = PetriNet::new(2, vec![]);
    assert!(none.check_duality(&colors));
}

fn growing_net() -> PetriNet {
    PetriNet::new(2, vec![tr(vec![1, 0]), tr(vec![1, 1]), tr(vec![2, 1]), tr(vec![0, 0])])
}

#[test]
fn reversibility_accepts_lists_that_fold_to_their_transition() {
    let witness = vec![
        vec![tr(vec![1, 0])],
        vec![tr(vec![1, 1])],
        vec![tr(vec![1, 0]), tr(vec![1, 1])],
        vec![],
    ];
    assert!(growing_net().check_reversibility(witness));
    let witness = vec![
        vec![tr(vec![0, 0]), tr(vec![1, 0]), tr(vec![0, 0])],
        vec![tr(vec![1, 1]), tr(vec![0, 0])],
        vec![tr(vec![1, 1]), tr(vec![1, 0])],
        vec![tr(vec![0, 0])],
    ];
    assert!(growing_net().check_reversibility(witness));
}

#[test]
fn reversibility_rejects_a_net_with_a_consumer() {
    let net = PetriNet::new(2, vec![tr(vec![1, 0]), tr(vec![-1, 1]), tr(vec![0, 1])]);
    let witness = vec![
        vec![tr(vec![1, 0])],
        vec![tr(vec![1, 0]), tr(vec![-1, 1]), tr(vec![-1, 1])],
        vec![tr(vec![1, 0]), tr(vec![-1, 1])],
    ];
    assert!(!net.check_reversibility(witness));
    let witness = vec![
        vec![tr(vec![1, 0])],
        vec![tr(vec![-1, 1])],
        vec![tr(vec![1, 0]), tr(vec![-1, 1])],
    ];
    assert!(!net.check_reversibility(witness));
}

#[test]
fn reversibility_rejects_a_stranger() {
    let swapped = vec![
        vec![tr(vec![1, 0])],
        vec![tr(vec![0, 1]), tr(vec![1, 0])],
        vec![tr(vec![1, 0]), tr(vec![1, 1])],
        vec![],
    ];
    assert!(!growing_net().check_reversibility(swapped));
    let split = vec![
        vec![tr(vec![1, 0])],
        vec![tr(vec![1, 1])],
        vec![tr(vec![2, 0]), tr(vec![0, 1])],
        vec![],
    ];
    assert!(!growing_net().check_reversibility(split));
}

#[test]
fn reversibility_rejects_an_undefined_composition() {
    let a = PetriNetTransition::id(2);
    let b = tr(vec![-1, 0]);
    assert!(PetriNetTransition::compose(a, b).is_none());
    let net = PetriNet::new(1, vec![tr(vec![1]), tr(vec![-1])]);
    assert!(!net.check_reversibility(vec![vec![tr(vec![1])], vec![tr(vec![-1])]]));
    assert!(!net.check_reversibility(vec![
        vec![tr(vec![1])],
        vec![tr(vec![1]), tr(vec![-1]), tr(vec![-1])],
    ]));
    assert!(net.check_reversibility(vec![vec![tr(vec![1])], vec![tr(vec![1]), tr(vec![-1])]]));
}

#[test]
fn reversibility_matches_as_many_transitions_as_places() {
    let net = PetriNet::new(1, vec![tr(vec![1]), tr(vec![2])]);
    assert!(net.check_reversibility(vec![vec![tr(vec![1])], vec![tr(vec![1])]]));
    assert!(net.check_reversibility(vec![vec![tr(vec![1])], vec![tr(vec![2])]]));
    assert!(!net.check_reversibility(vec![vec![tr(vec![2])], vec![tr(vec![2])]]));
}

#[test]
fn reversibility_rejects_a_net_with_more_places_than_transitions() {
    let net = PetriNet::new(3, vec![tr(vec![1, 0, 0]), tr(vec![0, 1, 0])]);
    assert!(!net.check_reversibility(vec![vec![tr(vec![1, 0, 0])], vec![tr(vec![0, 1, 0])]]));
    let empty = PetriNet::new(2, vec![]);
    assert!(!empty.check_reversibility(vec![]));
}

#[test]
fn reversibility_rejects_a_wrong_sum() {
    let net = PetriNet::new(2, vec![tr(vec![1, 0]), tr(vec![0, 1])]);
    assert!(net.check_reversibility(vec![vec![tr(vec![1, 0])], vec![tr(vec![0, 1])]]));
    assert!(!net.check_reversibility(vec![vec![tr(vec![0, 1])], vec![tr(vec![1, 0])]]));
    assert!(!net.check_reversibility(vec![vec![tr(vec![1, 0])], vec![]]));
}

#[test]
fn reversibility_needs_one_list_per_transition() {
    let net = PetriNet::new(2, vec![tr(vec![1, 0]), tr(vec![0, 1])]);
    assert!(!net.check_reversibility(vec![vec![tr(vec![1, 0])]]));
    assert!(!net.check_reversibility(vec![]));
    assert!(!net.check_reversibility(vec![
        vec![tr(vec![1, 0])],
        vec![tr(vec![0, 1])],
        vec![],
    ]));
}

#[test]
fn compose_is_associative_where_defined() {
    let a = tr(vec![2, 0, 1]);
    let b = tr(vec![1, 3, 0]);
    let c = tr(vec![-1, -2, 4]);
    let ab = PetriNetTransition::compose(a.clone(), b.clone()).unwrap();
    let left = PetriNetTransition::compose(ab, c.clone());
    let bc = PetriNetTransition::compose(b, c).unwrap();
    let right = PetriNetTransition::compose(a, bc);
    assert!(left == Some(tr(vec![2, 1, 5])));
    assert!(left == right);
}

//! What holds of the scenario: its roads are balanced, its cycles are
//! closed, and the witnesses read from them undo their transitions.

use crate::our_model::{
    PLACES, all_on_cycles, arrive_loaded, arrive_plain, big_road_spec, canonical_colouring,
    catalogue, catalogue_witness, city_base, cycle_witness, enter_loaded, enter_plain, half,
    is_first_position, leave_loaded, leave_plain, on_a_cycle, pass_loaded, pass_plain, road_spec,
    scenario, slot_base, small_loaded, small_plain, small_road_spec,
};
use crate::petri_net_laws::{
    group_coloured_sums, lemma_consumer_is_not_certified, lemma_fold_needs_tokens,
    lemma_rotation_total, lemma_total_concat,
};
use crate::petri_net_model::{all_balanced, balanced, certified_by, fold_compose, total_at};
use vstd::prelude::*;

verus! {

/// Both transitions of a small road between two different cities are
/// balanced under the canonical colouring.
pub proof fn lemma_small_road_balanced(from: int, to: int)
    requires
        0 <= from < 7,
        0 <= to < 7,
        from != to,
    ensures
        balanced(small_loaded(from, to), canonical_colouring()),
        balanced(small_plain(from, to), canonical_colouring()),
{
    broadcast use group_coloured_sums;
}

/// The transitions that a medium or a big road between two different cities
/// is made of are balanced under the canonical colouring.
pub proof fn lemma_road_moves_balanced(from: int, to: int, ind: int)
    requires
        0 <= from < 7,
        0 <= to < 7,
        from != to,
        0 <= ind < 8,
    ensures
        balanced(enter_loaded(from, to, slot_base(ind)), canonical_colouring()),
        balanced(leave_loaded(to, slot_base(ind)), canonical_colouring()),
        balanced(enter_plain(from, slot_base(ind)), canonical_colouring()),
        balanced(leave_plain(to, slot_base(ind)), canonical_colouring()),
        ind < 7 ==> balanced(pass_loaded(slot_base(ind)), canonical_colouring()),
        ind < 7 ==> balanced(arrive_loaded(to, slot_base(ind)), canonical_colouring()),
        ind < 7 ==> balanced(pass_plain(slot_base(ind)), canonical_colouring()),
        ind < 7 ==> balanced(arrive_plain(to, slot_base(ind)), canonical_colouring()),
{
    broadcast use group_coloured_sums;
}

/// A small road between two different cities is balanced under the
/// canonical colouring.
pub proof fn lemma_small_road_all_balanced(from: int, to: int)
    requires
        0 <= from < 7,
        0 <= to < 7,
        from != to,
    ensures
        small_road_spec(from, to).len() == 2,
        all_balanced(small_road_spec(from, to), canonical_colouring()),
{
    lemma_small_road_balanced(from, to);
}

/// A medium road between two different cities is balanced under the
/// canonical colouring.
pub proof fn lemma_road_all_balanced(from: int, to: int, ind: int)
    requires
        0 <= from < 7,
        0 <= to < 7,
        from != to,
        0 <= ind < 8,
    ensures
        road_spec(from, to, ind).len() == 4,
        all_balanced(road_spec(from, to, ind), canonical_colouring()),
{
    lemma_road_moves_balanced(from, to, ind);
}

/// A big road between two different cities is balanced under the canonical
/// colouring.
pub proof fn lemma_big_road_all_balanced(from: int, to: int, ind: int)
    requires
        0 <= from < 7,
        0 <= to < 7,
        from != to,
        0 <= ind < 7,
    ensures
        big_road_spec(from, to, ind).len() == 6,
        all_balanced(big_road_spec(from, to, ind), canonical_colouring()),
{
    lemma_road_moves_balanced(from, to, ind);
}

/// The scenario has 34 transitions, each with one coefficient per place.
pub proof fn lemma_scenario_shape()
    ensures
        scenario().len() == 34,
        forall|k: int| 0 <= k < 34 ==> (#[trigger] scenario()[k]).len() == PLACES,
{
    lemma_scenario_balanced();
}

/// Every transition of the scenario is balanced under the canonical
/// colouring.
pub proof fn lemma_scenario_balanced()
    ensures
        scenario().len() == 34,
        all_balanced(scenario(), canonical_colouring()),
{
    lemma_big_road_all_balanced(0, 2, 0);
    lemma_road_all_balanced(1, 0, 2);
    lemma_road_all_balanced(1, 5, 3);
    lemma_road_all_balanced(2, 3, 4);
    lemma_big_road_all_balanced(3, 1, 5);
    lemma_road_all_balanced(4, 0, 7);
    lemma_small_road_all_balanced(4, 5);
    lemma_small_road_all_balanced(5, 6);
    lemma_small_road_all_balanced(6, 4);
}

/// A vector is in two lists joined exactly if it is in one of the two.
pub broadcast proof fn lemma_contains_concat(a: Seq<Seq<i32>>, b: Seq<Seq<i32>>, x: Seq<i32>)
    ensures
        #[trigger] (a + b).contains(x) == (a.contains(x) || b.contains(x)),
{
    if a.contains(x) {
        let i = choose|i: int| 0 <= i < a.len() && a[i] == x;
        assert((a + b)[i] == x);
    }
    if b.contains(x) {
        let i = choose|i: int| 0 <= i < b.len() && b[i] == x;
        assert((a + b)[a.len() + i] == x);
    }
    if (a + b).contains(x) {
        let i = choose|i: int| 0 <= i < (a + b).len() && (a + b)[i] == x;
        if i < a.len() {
            assert(a[i] == x);
        } else {
            assert(b[i - a.len()] == x);
        }
    }
}

/// Each transition of a road is in one of the road's two halves.
pub proof fn lemma_halves_cover(road: Seq<Seq<i32>>, k: int)
    requires
        0 <= k < road.len(),
    ensures
        k < road.len() / 2 ==> half(road, true).contains(road[k]),
        k >= road.len() / 2 ==> half(road, false).contains(road[k]),
{
    let n = (road.len() / 2) as int;
    if k < n {
        assert(half(road, true)[k] == road[k]);
    } else {
        assert(half(road, false)[k - n] == road[k]);
    }
}

/// A road whose loaded half lies on cycle `up` and whose other half lies on
/// cycle `low` has all its transitions on cycles of the catalogue.
pub proof fn lemma_road_on_cycles(road: Seq<Seq<i32>>, up: int, low: int)
    requires
        0 <= up < 6,
        0 <= low < 6,
        forall|x: Seq<i32>| half(road, true).contains(x) ==> catalogue()[up].contains(x),
        forall|x: Seq<i32>| half(road, false).contains(x) ==> catalogue()[low].contains(x),
    ensures
        all_on_cycles(road),
{
    assert forall|k: int| 0 <= k < road.len() implies on_a_cycle(#[trigger] road[k]) by {
        lemma_halves_cover(road, k);
        if k < road.len() / 2 {
            assert(catalogue()[up].contains(road[k]));
        } else {
            assert(catalogue()[low].contains(road[k]));
        }
    }
}

/// A transition that is on a cycle of the catalogue at or after position
/// `lo` has a witness from there on.
pub proof fn lemma_member_has_witness(cat: Seq<Seq<Seq<i32>>>, t: Seq<i32>, lo: int, i: int)
    requires
        0 <= lo <= i < cat.len(),
        cat[i].contains(t),
    ensures
        catalogue_witness(cat, t, lo).is_some(),
    decreases i - lo,
{
    if lo < i && !cat[lo].contains(t) {
        lemma_member_has_witness(cat, t, lo + 1, i);
    }
}

/// Every transition of the scenario is on a cycle of the catalogue, and so
/// has a witness.
pub proof fn lemma_scenario_on_cycles()
    ensures
        all_on_cycles(scenario()),
        forall|k: int|
            0 <= k < scenario().len() ==> catalogue_witness(
                catalogue(),
                #[trigger] scenario()[k],
                0,
            ).is_some(),
{
    broadcast use lemma_contains_concat;

    lemma_road_on_cycles(big_road_spec(0, 2, 0), 0, 3);
    lemma_road_on_cycles(road_spec(1, 0, 2), 0, 3);
    lemma_road_on_cycles(road_spec(1, 5, 3), 1, 4);
    lemma_road_on_cycles(road_spec(2, 3, 4), 0, 3);
    lemma_road_on_cycles(big_road_spec(3, 1, 5), 0, 3);
    lemma_road_on_cycles(road_spec(4, 0, 7), 1, 4);
    lemma_road_on_cycles(small_road_spec(4, 5), 2, 5);
    lemma_road_on_cycles(small_road_spec(5, 6), 1, 4);
    lemma_road_on_cycles(small_road_spec(6, 4), 1, 4);
    assert(all_on_cycles(scenario()));
    assert forall|k: int| 0 <= k < scenario().len() implies catalogue_witness(
        catalogue(),
        #[trigger] scenario()[k],
        0,
    ).is_some() by {
        let t = scenario()[k];
        assert(on_a_cycle(t));
        let i = choose|i: int| 0 <= i < catalogue().len() && (#[trigger] catalogue()[i]).contains(t);
        lemma_member_has_witness(catalogue(), t, 0, i);
    }
}

/// 1 where the two places are the same one, 0 elsewhere.
pub open spec fn unit_at(place: int, p: int) -> int {
    if p == place {
        1
    } else {
        0
    }
}

/// What a train with the source that travels from `from` to `to` changes
/// at place `p`, once it has left the road: it and its source move, and the
/// buffers of the cities that keep one follow.
pub open spec fn loaded_effect(from: int, to: int, p: int) -> int {
    unit_at(city_base(to), p) + unit_at(city_base(to) + 1, p) - unit_at(city_base(from), p)
        - unit_at(city_base(from) + 1, p) + (if from > 1 {
        unit_at(city_base(from) + 2, p)
    } else {
        0
    }) - (if to > 1 {
        unit_at(city_base(to) + 2, p)
    } else {
        0
    })
}

/// What a train alone that travels from `from` to `to` changes at place
/// `p`, once it has left the road.
pub open spec fn plain_effect(from: int, to: int, p: int) -> int {
    unit_at(city_base(to), p) - unit_at(city_base(from), p)
}

/// What a journey from `from` to `to` changes at place `p`.
pub open spec fn journey_effect(from: int, to: int, loaded: bool, p: int) -> int {
    if loaded {
        loaded_effect(from, to, p)
    } else {
        plain_effect(from, to, p)
    }
}

/// The totals of lists of one, two and three vectors.
proof fn lemma_total_of_few(s: Seq<Seq<i32>>, p: int)
    ensures
        s.len() == 1 ==> total_at(s, p) == s[0][p],
        s.len() == 2 ==> total_at(s, p) == s[0][p] + s[1][p],
        s.len() == 3 ==> total_at(s, p) == s[0][p] + s[1][p] + s[2][p],
{
    reveal_with_fuel(total_at, 4);
}

/// Either half of a small road between two different cities that keep a
/// buffer comes to the journey's effect.
pub proof fn lemma_small_road_effect(from: int, to: int, loaded: bool, p: int)
    requires
        2 <= from < 7,
        2 <= to < 7,
        from != to,
        0 <= p < 45,
    ensures
        total_at(half(small_road_spec(from, to), loaded), p) == journey_effect(from, to, loaded, p),
{
    let h = half(small_road_spec(from, to), loaded);
    lemma_total_of_few(h, p);
    assert(h.len() == 1);
    assert(h[0] == if loaded {
        small_loaded(from, to)
    } else {
        small_plain(from, to)
    });
}

/// Either half of a medium road between two different cities comes to the
/// journey's effect: what happens on the road cancels.
pub proof fn lemma_road_effect(from: int, to: int, ind: int, loaded: bool, p: int)
    requires
        0 <= from < 7,
        0 <= to < 7,
        from != to,
        0 <= ind < 8,
        0 <= p < 45,
    ensures
        total_at(half(road_spec(from, to, ind), loaded), p) == journey_effect(from, to, loaded, p),
{
    let road = road_spec(from, to, ind);
    let h = half(road, loaded);
    lemma_total_of_few(h, p);
    assert(h.len() == 2);
    if loaded {
        assert(h[0] == road[0] && h[1] == road[1]);
    } else {
        assert(h[0] == road[2] && h[1] == road[3]);
    }
}

/// Either half of a big road between two different cities comes to the
/// journey's effect: what happens on the road cancels.
pub proof fn lemma_big_road_effect(from: int, to: int, ind: int, loaded: bool, p: int)
    requires
        0 <= from < 7,
        0 <= to < 7,
        from != to,
        0 <= ind < 7,
        0 <= p < 45,
    ensures
        total_at(half(big_road_spec(from, to, ind), loaded), p) == journey_effect(
            from,
            to,
            loaded,
            p,
        ),
{
    let road = big_road_spec(from, to, ind);
    let h = half(road, loaded);
    lemma_total_of_few(h, p);
    assert(h.len() == 3);
    if loaded {
        assert(h[0] == road[0] && h[1] == road[1] && h[2] == road[2]);
    } else {
        assert(h[0] == road[3] && h[1] == road[4] && h[2] == road[5]);
    }
}

/// Every cycle of the catalogue is closed: over the whole cycle each place
/// gets back what it gave.
pub proof fn lemma_cycles_sum_to_zero(i: int, p: int)
    requires
        0 <= i < catalogue().len(),
        0 <= p < 45,
    ensures
        total_at(catalogue()[i], p) == 0,
{
    broadcast use lemma_total_concat;

    let loaded = i < 3;
    lemma_big_road_effect(0, 2, 0, loaded, p);
    lemma_road_effect(2, 3, 4, loaded, p);
    lemma_big_road_effect(3, 1, 5, loaded, p);
    lemma_road_effect(1, 0, 2, loaded, p);
    lemma_road_effect(1, 5, 3, loaded, p);
    lemma_small_road_effect(5, 6, loaded, p);
    lemma_small_road_effect(6, 4, loaded, p);
    lemma_road_effect(4, 0, 7, loaded, p);
    lemma_small_road_effect(4, 5, loaded, p);
}

/// The witness that a cycle gives for a transition on it changes each place
/// by what the whole cycle changes there less what the transition does.
pub proof fn lemma_cycle_witness_total(c: Seq<Seq<i32>>, t: Seq<i32>, p: int)
    requires
        c.contains(t),
    ensures
        cycle_witness(c, t).is_some(),
        total_at(cycle_witness(c, t).unwrap(), p) + t[p] == total_at(c, p),
{
    lemma_first_position(c, t, c.len() as int);
    let j = choose|j: int| is_first_position(c, t, j);
    lemma_rotation_total(c, j, p);
}

/// A vector that occurs in `c` before position `n` has a first position.
pub proof fn lemma_first_position(c: Seq<Seq<i32>>, t: Seq<i32>, n: int)
    requires
        0 <= n <= c.len(),
        exists|i: int| 0 <= i < n && c[i] == t,
    ensures
        exists|j: int| is_first_position(c, t, j),
    decreases n,
{
    if exists|i: int| 0 <= i < n - 1 && c[i] == t {
        lemma_first_position(c, t, n - 1);
    } else {
        assert(is_first_position(c, t, n - 1));
    }
}

/// The witness that any cycle of the catalogue gives for a transition on it
/// undoes the transition: place by place, the two sum to zero.
pub proof fn lemma_cycle_witness_undoes(i: int, t: Seq<i32>, p: int)
    requires
        0 <= i < catalogue().len(),
        catalogue()[i].contains(t),
        0 <= p < 45,
    ensures
        cycle_witness(catalogue()[i], t).is_some(),
        total_at(cycle_witness(catalogue()[i], t).unwrap(), p) + t[p] == 0,
{
    lemma_cycle_witness_total(catalogue()[i], t, p);
    lemma_cycles_sum_to_zero(i, p);
}

/// The witness of a transition undoes it: place by place, the witness that
/// the catalogue gives for a transition on one of its cycles and the
/// transition itself sum to zero.
pub proof fn lemma_witness_undoes(t: Seq<i32>, p: int)
    requires
        on_a_cycle(t),
        0 <= p < 45,
    ensures
        catalogue_witness(catalogue(), t, 0).is_some(),
        total_at(catalogue_witness(catalogue(), t, 0).unwrap(), p) + t[p] == 0,
{
    let i = choose|i: int| 0 <= i < catalogue().len() && (#[trigger] catalogue()[i]).contains(t);
    lemma_witness_undoes_from(t, p, 0, i);
}

/// The same, for the search of the catalogue from position `lo` on.
proof fn lemma_witness_undoes_from(t: Seq<i32>, p: int, lo: int, i: int)
    requires
        0 <= lo <= i < catalogue().len(),
        catalogue()[i].contains(t),
        0 <= p < 45,
    ensures
        catalogue_witness(catalogue(), t, lo).is_some(),
        total_at(catalogue_witness(catalogue(), t, lo).unwrap(), p) + t[p] == 0,
    decreases i - lo,
{
    if catalogue()[lo].contains(t) {
        lemma_cycle_witness_undoes(lo, t, p);
    } else {
        lemma_witness_undoes_from(t, p, lo + 1, i);
    }
}

/// No cycle of the catalogue folds from the identity: each starts with a
/// train that leaves a city, and the identity has put no train there.
pub proof fn lemma_cycles_do_not_fold(i: int)
    requires
        0 <= i < catalogue().len(),
    ensures
        fold_compose(45, catalogue()[i]).is_none(),
{
    let c = catalogue()[i];
    let start = if i % 3 == 2 {
        12
    } else {
        0
    };
    assert(c[0][start] < 0) by {
        if i == 0 || i == 1 {
            assert(c[0] == big_road_spec(0, 2, 0)[0]);
        } else if i == 3 || i == 4 {
            assert(c[0] == big_road_spec(0, 2, 0)[3]);
        } else if i == 2 {
            assert(c[0] == small_road_spec(4, 5)[0]);
        } else {
            assert(c[0] == small_road_spec(4, 5)[1]);
        }
    }
    lemma_fold_needs_tokens(45, c, start);
}

/// No witness certifies the scenario: its first transition takes a train
/// from city 0, and no fold from the identity takes anything. (Nor has the
/// scenario as many transitions as places.)
pub proof fn lemma_scenario_not_certified(w: Seq<Seq<Seq<i32>>>)
    ensures
        !certified_by(45, scenario(), w),
{
    assert(scenario()[0] == big_road_spec(0, 2, 0)[0]);
    assert(scenario()[0][0] < 0);
    lemma_consumer_is_not_certified(45, scenario(), w, 0, 0);
}

} // verus!

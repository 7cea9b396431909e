//! The fixed scenario: seven cities joined by nine one-way roads of three
//! sizes, the canonical colouring of its places, and the catalogue of cycles
//! from which the reverse witnesses are read.

use crate::our_model_laws::{
    lemma_scenario_balanced, lemma_scenario_on_cycles, lemma_scenario_shape,
};
use crate::petri_net_laws::lemma_views_concat;
use crate::petri_net_model::{
    Color, PetriNet, PetriNetTransition, all_balanced, views, witness_views, zeros,
};
use vstd::prelude::*;

verus! {

/// The number of places of the scenario.
pub const PLACES: usize = 45;

/// The number of cities.
pub const CITIES: usize = 7;

/// The places of one city: trains, trains that carry the source, buffer.
pub const PLACES_PER_CITY: usize = 3;

/// The places of one slot of a road.
pub const PLACES_PER_SLOT: usize = 3;

/// The number of slots that the roads share.
pub const SLOTS: usize = 8;

/// The first place of city `city`.
pub open spec fn city_base(city: int) -> int {
    3 * city
}

/// The first place of road slot `ind`.
pub open spec fn slot_base(ind: int) -> int {
    21 + 3 * ind
}

/// `t` with the coefficient `v` at place `p`, where the city takes part in
/// the buffer bookkeeping, and `t` itself where it does not.
pub open spec fn buffered(t: Seq<i32>, city: int, p: int, v: i32) -> Seq<i32> {
    if city > 1 {
        t.update(p, v)
    } else {
        t
    }
}

/// The move over a small road that carries the source along.
pub open spec fn small_loaded(from: int, to: int) -> Seq<i32> {
    let first = city_base(from);
    let second = city_base(to);
    zeros(45).update(first, -1i32).update(first + 1, -1i32).update(first + 2, 1i32).update(
        second,
        1i32,
    ).update(second + 1, 1i32).update(second + 2, -1i32)
}

/// The move of a train alone over a small road.
pub open spec fn small_plain(from: int, to: int) -> Seq<i32> {
    zeros(45).update(city_base(from), -1i32).update(city_base(to), 1i32)
}

/// The two transitions of a small road.
pub open spec fn small_road_spec(from: int, to: int) -> Seq<Seq<i32>> {
    seq![small_loaded(from, to), small_plain(from, to)]
}

/// A train with the source leaves `from` and enters the road at `addr`.
pub open spec fn enter_loaded(from: int, to: int, addr: int) -> Seq<i32> {
    let first = city_base(from);
    let second = city_base(to);
    let left = zeros(45).update(first, -1i32).update(first + 1, -1i32);
    let entered = buffered(left, from, first + 2, 1i32).update(addr, -1i32).update(addr + 2, 1i32);
    buffered(entered, to, second + 2, -1i32)
}

/// A train with the source leaves the road segment at `addr` and arrives.
pub open spec fn leave_loaded(to: int, addr: int) -> Seq<i32> {
    let second = city_base(to);
    zeros(45).update(second, 1i32).update(second + 1, 1i32).update(addr, 1i32).update(addr + 2, -1i32)
}

/// A train alone leaves `from` and enters the road at `addr`.
pub open spec fn enter_plain(from: int, addr: int) -> Seq<i32> {
    zeros(45).update(city_base(from), -1i32).update(addr, -1i32).update(addr + 1, 1i32)
}

/// A train alone leaves the road segment at `addr` and arrives.
pub open spec fn leave_plain(to: int, addr: int) -> Seq<i32> {
    zeros(45).update(city_base(to), 1i32).update(addr, 1i32).update(addr + 1, -1i32)
}

/// The four transitions of a medium road.
pub open spec fn road_spec(from: int, to: int, ind: int) -> Seq<Seq<i32>> {
    let addr = slot_base(ind);
    seq![
        enter_loaded(from, to, addr),
        leave_loaded(to, addr),
        enter_plain(from, addr),
        leave_plain(to, addr),
    ]
}

/// A train with the source passes from the first segment to the second.
pub open spec fn pass_loaded(addr: int) -> Seq<i32> {
    zeros(45).update(addr, 1i32).update(addr + 2, -1i32).update(addr + 3, -1i32).update(addr + 5, 1i32)
}

/// A train with the source leaves the second segment and arrives.
pub open spec fn arrive_loaded(to: int, addr: int) -> Seq<i32> {
    let second = city_base(to);
    zeros(45).update(addr + 5, -1i32).update(addr + 3, 1i32).update(second, 1i32).update(second + 1, 1i32)
}

/// A train alone passes from the first segment to the second.
pub open spec fn pass_plain(addr: int) -> Seq<i32> {
    zeros(45).update(addr, 1i32).update(addr + 1, -1i32).update(addr + 3, -1i32).update(addr + 4, 1i32)
}

/// A train alone leaves the second segment and arrives.
pub open spec fn arrive_plain(to: int, addr: int) -> Seq<i32> {
    zeros(45).update(addr + 3, 1i32).update(addr + 4, -1i32).update(city_base(to), 1i32)
}

/// The six transitions of a big road.
pub open spec fn big_road_spec(from: int, to: int, ind: int) -> Seq<Seq<i32>> {
    let addr = slot_base(ind);
    seq![
        enter_loaded(from, to, addr),
        pass_loaded(addr),
        arrive_loaded(to, addr),
        enter_plain(from, addr),
        pass_plain(addr),
        arrive_plain(to, addr),
    ]
}

/// The colour of place `x` in the canonical colouring.
pub open spec fn color_at(x: int) -> Color {
    if x < 21 {
        if x % 3 == 0 {
            Color::Red
        } else if x % 3 == 1 {
            Color::Blue
        } else {
            Color::Blank
        }
    } else {
        if x % 3 == 1 {
            Color::Red
        } else if x % 3 == 2 {
            Color::Purple
        } else {
            Color::Blank
        }
    }
}

/// The canonical colouring of the 45 places.
pub open spec fn canonical_colouring() -> Seq<Color> {
    Seq::new(45, |x: int| color_at(x))
}

/// A vector of zeros, one per place of the scenario.
fn blank_vector() -> (v: Vec<i32>)
    ensures
        v@ == zeros(45),
{
    let mut v: Vec<i32> = Vec::new();
    let mut i: usize = 0;
    while i < PLACES
        invariant
            i <= PLACES,
            v@ == zeros(i as nat),
        decreases PLACES - i,
    {
        v.push(0);
        assert(v@ =~= zeros((i + 1) as nat));
        i += 1;
    }
    v
}

/// The two transitions of the small road from city `from` to city `to`.
pub fn fast_create_small_road(from: usize, to: usize) -> (r: Vec<PetriNetTransition>)
    requires
        from < CITIES,
        to < CITIES,
    ensures
        views(r@) == small_road_spec(from as int, to as int),
{
    let first: usize = from * PLACES_PER_CITY;
    let second: usize = to * PLACES_PER_CITY;
    let mut t1 = blank_vector();
    t1.set(first, -1);
    t1.set(first + 1, -1);
    t1.set(first + 2, 1);
    t1.set(second, 1);
    t1.set(second + 1, 1);
    t1.set(second + 2, -1);
    let mut t2 = blank_vector();
    t2.set(first, -1);
    t2.set(second, 1);
    let mut r: Vec<PetriNetTransition> = Vec::new();
    r.push(PetriNetTransition::new(t1));
    r.push(PetriNetTransition::new(t2));
    assert(views(r@) =~= small_road_spec(from as int, to as int));
    r
}

/// The four transitions of the medium road from city `from` to city `to`
/// that runs through road slot `ind`.
pub fn fast_create_road(from: usize, to: usize, ind: usize) -> (r: Vec<PetriNetTransition>)
    requires
        from < CITIES,
        to < CITIES,
        ind < SLOTS,
    ensures
        views(r@) == road_spec(from as int, to as int, ind as int),
{
    let first: usize = from * PLACES_PER_CITY;
    let second: usize = to * PLACES_PER_CITY;
    let addr: usize = PLACES_PER_CITY * CITIES + PLACES_PER_SLOT * ind;

    let mut t1 = blank_vector();
    t1.set(first, -1);
    t1.set(first + 1, -1);
    if from > 1 {
        t1.set(first + 2, 1);
    }
    t1.set(addr, -1);
    t1.set(addr + 2, 1);
    if to > 1 {
        t1.set(second + 2, -1);
    }

    let mut t2 = blank_vector();
    t2.set(second, 1);
    t2.set(second + 1, 1);
    t2.set(addr, 1);
    t2.set(addr + 2, -1);

    let mut t3 = blank_vector();
    t3.set(first, -1);
    t3.set(addr, -1);
    t3.set(addr + 1, 1);

    let mut t4 = blank_vector();
    t4.set(second, 1);
    t4.set(addr, 1);
    t4.set(addr + 1, -1);

    let mut r: Vec<PetriNetTransition> = Vec::new();
    r.push(PetriNetTransition::new(t1));
    r.push(PetriNetTransition::new(t2));
    r.push(PetriNetTransition::new(t3));
    r.push(PetriNetTransition::new(t4));
    assert(views(r@) =~= road_spec(from as int, to as int, ind as int));
    r
}

/// The six transitions of the big road from city `from` to city `to` that
/// runs through the road slots `ind` and `ind + 1`.
pub fn fast_create_big_road(from: usize, to: usize, ind: usize) -> (r: Vec<PetriNetTransition>)
    requires
        from < CITIES,
        to < CITIES,
        ind + 1 < SLOTS,
    ensures
        views(r@) == big_road_spec(from as int, to as int, ind as int),
{
    let first: usize = from * PLACES_PER_CITY;
    let second: usize = to * PLACES_PER_CITY;
    let addr: usize = PLACES_PER_CITY * CITIES + PLACES_PER_SLOT * ind;

    let mut t1 = blank_vector();
    t1.set(first, -1);
    t1.set(first + 1, -1);
    if from > 1 {
        t1.set(first + 2, 1);
    }
    t1.set(addr, -1);
    t1.set(addr + 2, 1);
    if to > 1 {
        t1.set(second + 2, -1);
    }
    let mut t2 = blank_vector();
    t2.set(addr, 1);
    t2.set(addr + 2, -1);
    t2.set(addr + 3, -1);
    t2.set(addr + 5, 1);
    let mut t3 = blank_vector();
    t3.set(addr + 5, -1);
    t3.set(addr + 3, 1);
    t3.set(second, 1);
    t3.set(second + 1, 1);
    let mut t4 = blank_vector();
    t4.set(first, -1);
    t4.set(addr, -1);
    t4.set(addr + 1, 1);
    let mut t5 = blank_vector();
    t5.set(addr, 1);
    t5.set(addr + 1, -1);
    t5.set(addr + 3, -1);
    t5.set(addr + 4, 1);
    let mut t6 = blank_vector();
    t6.set(addr + 3, 1);
    t6.set(addr + 4, -1);
    t6.set(second, 1);

    let mut r: Vec<PetriNetTransition> = Vec::new();
    r.push(PetriNetTransition::new(t1));
    r.push(PetriNetTransition::new(t2));
    r.push(PetriNetTransition::new(t3));
    r.push(PetriNetTransition::new(t4));
    r.push(PetriNetTransition::new(t5));
    r.push(PetriNetTransition::new(t6));
    assert(views(r@) =~= big_road_spec(from as int, to as int, ind as int));
    r
}

/// The canonical colouring: in a city the trains are red and the trains
/// with the source blue; on a road the trains are red and the trains with
/// the source purple.
pub fn paint_example() -> (r: Vec<Color>)
    ensures
        r@ == canonical_colouring(),
{
    let mut r: Vec<Color> = Vec::new();
    let mut x: usize = 0;
    while x < PLACES
        invariant
            x <= PLACES,
            r@.len() == x,
            forall|i: int| 0 <= i < x ==> r@[i] == color_at(i),
        decreases PLACES - x,
    {
        let c = if x < CITIES * PLACES_PER_CITY {
            if x % PLACES_PER_CITY == 0 {
                Color::Red
            } else if x % PLACES_PER_CITY == 1 {
                Color::Blue
            } else {
                Color::Blank
            }
        } else {
            if x % PLACES_PER_SLOT == 1 {
                Color::Red
            } else if x % PLACES_PER_SLOT == 2 {
                Color::Purple
            } else {
                Color::Blank
            }
        };
        r.push(c);
        x += 1;
    }
    assert(r@ =~= canonical_colouring());
    r
}

/// The transitions of the scenario: the roads of the fixed graph, one after
/// the other.
pub open spec fn scenario() -> Seq<Seq<i32>> {
    big_road_spec(0, 2, 0) + road_spec(1, 0, 2) + road_spec(1, 5, 3) + road_spec(2, 3, 4)
        + big_road_spec(3, 1, 5) + road_spec(4, 0, 7) + small_road_spec(4, 5) + small_road_spec(
        5,
        6,
    ) + small_road_spec(6, 4)
}

/// The transitions of the scenario, road by road in the order of the graph.
pub fn transitions() -> (r: Vec<PetriNetTransition>)
    ensures
        views(r@) == scenario(),
        r@.len() == 34,
        forall|k: int| 0 <= k < r@.len() ==> (#[trigger] r@[k])@.len() == PLACES,
{
    broadcast use lemma_views_concat;

    let mut all = fast_create_big_road(0, 2, 0);
    let mut t_1_0 = fast_create_road(1, 0, 2);
    let mut t_1_5 = fast_create_road(1, 5, 3);
    let mut t_2_3 = fast_create_road(2, 3, 4);
    let mut t_3_1 = fast_create_big_road(3, 1, 5);
    let mut t_4_0 = fast_create_road(4, 0, 7);
    let mut t_4_5 = fast_create_small_road(4, 5);
    let mut t_5_6 = fast_create_small_road(5, 6);
    let mut t_6_4 = fast_create_small_road(6, 4);
    all.append(&mut t_1_0);
    all.append(&mut t_1_5);
    all.append(&mut t_2_3);
    all.append(&mut t_3_1);
    all.append(&mut t_4_0);
    all.append(&mut t_4_5);
    all.append(&mut t_5_6);
    all.append(&mut t_6_4);
    proof {
        lemma_scenario_shape();
        assert(views(all@).len() == all@.len());
        assert forall|k: int| 0 <= k < all@.len() implies (#[trigger] all@[k])@.len() == PLACES by {
            assert(views(all@)[k] == all@[k]@);
        }
    }
    all
}

/// The net of the scenario: 45 places and the 34 transitions of the roads,
/// every one of them balanced under the canonical colouring.
pub fn our_model() -> (r: PetriNet)
    ensures
        r.wf(),
        r.places() == PLACES,
        r@ == scenario(),
        all_balanced(r@, canonical_colouring()),
{
    proof {
        lemma_scenario_balanced();
    }
    PetriNet::new(PLACES, transitions())
}

/// `j` is the first position of `t` in `c`.
pub open spec fn is_first_position(c: Seq<Seq<i32>>, t: Seq<i32>, j: int) -> bool {
    &&& 0 <= j < c.len()
    &&& c[j] == t
    &&& forall|i: int| 0 <= i < j ==> c[i] != t
}

/// The cycle `c` from the position after `j` round to the one before `j`.
pub open spec fn rotation_tail(c: Seq<Seq<i32>>, j: int) -> Seq<Seq<i32>> {
    c.subrange(j + 1, c.len() as int) + c.subrange(0, j)
}

/// The witness that the cycle `c` gives for `t`: the rest of the cycle,
/// read from the first occurrence of `t` onwards. None where `t` is not on
/// the cycle.
pub open spec fn cycle_witness(c: Seq<Seq<i32>>, t: Seq<i32>) -> Option<Seq<Seq<i32>>> {
    if c.contains(t) {
        Some(rotation_tail(c, choose|j: int| is_first_position(c, t, j)))
    } else {
        None
    }
}

/// The witness for `t` of the first cycle, from cycle `i` of `cat` on, that
/// `t` is on.
pub open spec fn catalogue_witness(cat: Seq<Seq<Seq<i32>>>, t: Seq<i32>, i: int) -> Option<
    Seq<Seq<i32>>,
>
    decreases cat.len() - i,
{
    if i < 0 || i >= cat.len() {
        None
    } else {
        match cycle_witness(cat[i], t) {
            Some(w) => Some(w),
            None => catalogue_witness(cat, t, i + 1),
        }
    }
}

/// The half of a road's transitions that moves the trains with the source
/// (`loaded`), or the half that moves the trains alone.
pub open spec fn half(road: Seq<Seq<i32>>, loaded: bool) -> Seq<Seq<i32>> {
    if loaded {
        road.subrange(0, (road.len() / 2) as int)
    } else {
        road.subrange((road.len() / 2) as int, road.len() as int)
    }
}

/// The cycle over the cities 0, 2, 3, 1.
pub open spec fn short_cycle(loaded: bool) -> Seq<Seq<i32>> {
    half(big_road_spec(0, 2, 0), loaded) + half(road_spec(2, 3, 4), loaded) + half(
        big_road_spec(3, 1, 5),
        loaded,
    ) + half(road_spec(1, 0, 2), loaded)
}

/// The cycle over the cities 0, 2, 3, 1, 5, 6, 4.
pub open spec fn long_cycle(loaded: bool) -> Seq<Seq<i32>> {
    half(big_road_spec(0, 2, 0), loaded) + half(road_spec(2, 3, 4), loaded) + half(
        big_road_spec(3, 1, 5),
        loaded,
    ) + half(road_spec(1, 5, 3), loaded) + half(small_road_spec(5, 6), loaded) + half(
        small_road_spec(6, 4),
        loaded,
    ) + half(road_spec(4, 0, 7), loaded)
}

/// The cycle over the cities 4, 5, 6.
pub open spec fn small_cycle(loaded: bool) -> Seq<Seq<i32>> {
    half(small_road_spec(4, 5), loaded) + half(small_road_spec(5, 6), loaded) + half(
        small_road_spec(6, 4),
        loaded,
    )
}

/// The catalogue of cycles, in the order in which they are searched.
pub open spec fn catalogue() -> Seq<Seq<Seq<i32>>> {
    seq![
        short_cycle(true),
        long_cycle(true),
        small_cycle(true),
        short_cycle(false),
        long_cycle(false),
        small_cycle(false),
    ]
}

/// The witness for `t` from the cycle `c`: the cycle turned so that the
/// first occurrence of `t` comes last, without that occurrence. None where
/// `t` is not on the cycle.
pub fn reverse_transmition_by_cycle(t: &PetriNetTransition, c: Vec<PetriNetTransition>) -> (r:
    Option<Vec<PetriNetTransition>>)
    ensures
        r.is_some() <==> views(c@).contains(t@),
        match r {
            Some(w) => cycle_witness(views(c@), t@) == Some(views(w@)),
            None => cycle_witness(views(c@), t@).is_none(),
        },
{
    let ghost cycle = views(c@);
    let mut head = c;
    let mut j: usize = 0;
    while j < head.len() && !PetriNetTransition::is_inverse(&head[j], t)
        invariant
            j <= head.len(),
            cycle == views(head@),
            forall|i: int| 0 <= i < j ==> cycle[i] != t@,
        decreases head.len() - j,
    {
        j += 1;
    }
    if j == head.len() {
        return None;
    }
    proof {
        assert(cycle[j as int] == t@);
        assert(is_first_position(cycle, t@, j as int));
        let found = choose|k: int| is_first_position(cycle, t@, k);
        assert(found == j);
    }
    let mut tail = head.split_off(j + 1);
    head.pop();
    tail.append(&mut head);
    assert(views(tail@) =~= rotation_tail(cycle, j as int));
    Some(tail)
}

/// One half of a road's transitions.
fn half_of(road: Vec<PetriNetTransition>, loaded: bool) -> (r: Vec<PetriNetTransition>)
    ensures
        views(r@) == half(views(road@), loaded),
{
    let mut first = road;
    let n: usize = first.len() / 2;
    let second = first.split_off(n);
    if loaded {
        assert(views(first@) =~= half(views(road@), loaded));
        first
    } else {
        assert(views(second@) =~= half(views(road@), loaded));
        second
    }
}

/// The cycle of the catalogue at position `i`.
fn cycle(i: usize) -> (r: Vec<PetriNetTransition>)
    requires
        i < 6,
    ensures
        views(r@) == catalogue()[i as int],
{
    broadcast use lemma_views_concat;

    let loaded = i < 3;
    if i % 3 == 0 {
        let mut c = half_of(fast_create_big_road(0, 2, 0), loaded);
        let mut t_2_3 = half_of(fast_create_road(2, 3, 4), loaded);
        let mut t_3_1 = half_of(fast_create_big_road(3, 1, 5), loaded);
        let mut t_1_0 = half_of(fast_create_road(1, 0, 2), loaded);
        c.append(&mut t_2_3);
        c.append(&mut t_3_1);
        c.append(&mut t_1_0);
        c
    } else if i % 3 == 1 {
        let mut c = half_of(fast_create_big_road(0, 2, 0), loaded);
        let mut t_2_3 = half_of(fast_create_road(2, 3, 4), loaded);
        let mut t_3_1 = half_of(fast_create_big_road(3, 1, 5), loaded);
        let mut t_1_5 = half_of(fast_create_road(1, 5, 3), loaded);
        let mut t_5_6 = half_of(fast_create_small_road(5, 6), loaded);
        let mut t_6_4 = half_of(fast_create_small_road(6, 4), loaded);
        let mut t_4_0 = half_of(fast_create_road(4, 0, 7), loaded);
        c.append(&mut t_2_3);
        c.append(&mut t_3_1);
        c.append(&mut t_1_5);
        c.append(&mut t_5_6);
        c.append(&mut t_6_4);
        c.append(&mut t_4_0);
        c
    } else {
        let mut c = half_of(fast_create_small_road(4, 5), loaded);
        let mut t_5_6 = half_of(fast_create_small_road(5, 6), loaded);
        let mut t_6_4 = half_of(fast_create_small_road(6, 4), loaded);
        c.append(&mut t_5_6);
        c.append(&mut t_6_4);
        c
    }
}

/// The witness for `t` that the first cycle of the catalogue with `t` on it
/// gives. None where `t` is on no cycle of the catalogue.
pub fn find_reverse_transmition(t: &PetriNetTransition) -> (r: Option<Vec<PetriNetTransition>>)
    ensures
        r.is_some() <==> on_a_cycle(t@),
        match r {
            Some(w) => catalogue_witness(catalogue(), t@, 0) == Some(views(w@)),
            None => catalogue_witness(catalogue(), t@, 0).is_none(),
        },
{
    let mut i: usize = 0;
    while i < 6
        invariant
            i <= 6,
            catalogue().len() == 6,
            catalogue_witness(catalogue(), t@, 0) == catalogue_witness(catalogue(), t@, i as int),
            forall|j: int| 0 <= j < i ==> !(#[trigger] catalogue()[j]).contains(t@),
        decreases 6 - i,
    {
        match reverse_transmition_by_cycle(t, cycle(i)) {
            Some(w) => {
                assert(catalogue()[i as int].contains(t@));
                return Some(w);
            },
            None => {},
        }
        i += 1;
    }
    None
}

/// The witness for a transition on a cycle of the catalogue: the one that
/// the first cycle with `t` on it gives.
pub fn reverse_transmition(t: PetriNetTransition) -> (r: Vec<PetriNetTransition>)
    requires
        on_a_cycle(t@),
    ensures
        catalogue_witness(catalogue(), t@, 0) == Some(views(r@)),
{
    find_reverse_transmition(&t).unwrap()
}

/// `t` is on one of the cycles of the catalogue.
pub open spec fn on_a_cycle(t: Seq<i32>) -> bool {
    exists|i: int| 0 <= i < catalogue().len() && (#[trigger] catalogue()[i]).contains(t)
}

/// Every vector of `s` is on one of the cycles of the catalogue.
pub open spec fn all_on_cycles(s: Seq<Seq<i32>>) -> bool {
    forall|k: int| 0 <= k < s.len() ==> on_a_cycle(#[trigger] s[k])
}

/// The witnesses of the scenario: for each of its transitions, in order,
/// the witness that the catalogue gives for it.
pub fn transitions_example() -> (r: Vec<Vec<PetriNetTransition>>)
    ensures
        r@.len() == scenario().len(),
        forall|k: int|
            0 <= k < r@.len() ==> catalogue_witness(catalogue(), scenario()[k], 0) == Some(
                #[trigger] witness_views(r@)[k],
            ),
{
    let all = transitions();
    let mut r: Vec<Vec<PetriNetTransition>> = Vec::new();
    let mut k: usize = 0;
    proof {
        lemma_scenario_on_cycles();
    }
    while k < all.len()
        invariant
            k <= all.len(),
            views(all@) == scenario(),
            r@.len() == k,
            all_on_cycles(scenario()),
            forall|j: int|
                0 <= j < k ==> catalogue_witness(catalogue(), scenario()[j], 0) == Some(
                    #[trigger] witness_views(r@)[j],
                ),
        decreases all.len() - k,
    {
        let t = all[k].clone();
        assert(t@ == scenario()[k as int]) by {
            assert(views(all@)[k as int] == all@[k as int]@);
        }
        let w = reverse_transmition(t);
        let ghost before = witness_views(r@);
        r.push(w);
        assert forall|j: int| 0 <= j < k + 1 implies catalogue_witness(
            catalogue(),
            scenario()[j],
            0,
        ) == Some(#[trigger] witness_views(r@)[j]) by {
            if j < k {
                assert(witness_views(r@)[j] == before[j]);
            }
        }
        k += 1;
    }
    assert(views(all@).len() == all@.len());
    r
}

} // verus!

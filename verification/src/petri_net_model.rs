//! The algebra of the net: markings, transitions as integer vectors, guarded
//! composition, and the two static checks.

use crate::petri_net_laws::lemma_fold_prefix_fails;
use vstd::prelude::*;

verus! {

/// The tag of a place. `Blank` counts in neither dimension, `Purple` in both
/// the red and the blue one.
#[derive(Clone, Copy, Debug, PartialEq, Eq, Structural)]
pub enum Color {
    Blank,
    Red,
    Blue,
    Purple,
}

/// What a coefficient `v` at a place of colour `c` adds to the red sum.
pub open spec fn red_part(c: Color, v: int) -> int {
    match c {
        Color::Red | Color::Purple => v,
        _ => 0,
    }
}

/// What a coefficient `v` at a place of colour `c` adds to the blue sum.
pub open spec fn blue_part(c: Color, v: int) -> int {
    match c {
        Color::Blue | Color::Purple => v,
        _ => 0,
    }
}

/// The red sum of `t` over the first `n` places.
pub open spec fn red_sum(t: Seq<i32>, colors: Seq<Color>, n: nat) -> int
    decreases n,
{
    if n == 0 {
        0
    } else {
        red_sum(t, colors, (n - 1) as nat) + red_part(colors[n - 1], t[n - 1] as int)
    }
}

/// The blue sum of `t` over the first `n` places.
pub open spec fn blue_sum(t: Seq<i32>, colors: Seq<Color>, n: nat) -> int
    decreases n,
{
    if n == 0 {
        0
    } else {
        blue_sum(t, colors, (n - 1) as nat) + blue_part(colors[n - 1], t[n - 1] as int)
    }
}

/// A transition is balanced under a colouring of its places when both of its
/// coloured sums vanish. A colouring of another length balances nothing.
pub open spec fn balanced(t: Seq<i32>, colors: Seq<Color>) -> bool {
    &&& t.len() == colors.len()
    &&& red_sum(t, colors, t.len()) == 0
    &&& blue_sum(t, colors, t.len()) == 0
}

/// The all-zero vector over `n` places.
pub open spec fn zeros(n: nat) -> Seq<i32> {
    Seq::new(n, |i: int| 0i32)
}

/// Firing `b` after `a` is possible at place `i`: where `b` consumes, `a` has
/// deposited at least as much, and the sum is a coefficient again.
pub open spec fn place_ok(a: Seq<i32>, b: Seq<i32>, i: int) -> bool {
    &&& b[i] >= 0 || a[i] + b[i] >= 0
    &&& a[i] + b[i] <= i32::MAX
}

/// `b` can be fired after `a`: same places, and possible at each of them.
pub open spec fn composable(a: Seq<i32>, b: Seq<i32>) -> bool {
    &&& a.len() == b.len()
    &&& forall|i: int| 0 <= i < a.len() ==> #[trigger] place_ok(a, b, i)
}

/// The element-wise sum of two vectors over the places of `a`.
pub open spec fn pointwise_sum(a: Seq<i32>, b: Seq<i32>) -> Seq<i32> {
    Seq::new(a.len(), |i: int| (a[i] + b[i]) as i32)
}

/// Guarded composition: the element-wise sum where `b` can be fired after `a`.
pub open spec fn compose_spec(a: Seq<i32>, b: Seq<i32>) -> Option<Seq<i32>> {
    if composable(a, b) {
        Some(pointwise_sum(a, b))
    } else {
        None
    }
}

/// The left fold of `compose_spec` over `s`, started at the zero vector over
/// `n` places. `None` as soon as one step is not defined.
pub open spec fn fold_compose(n: nat, s: Seq<Seq<i32>>) -> Option<Seq<i32>>
    decreases s.len(),
{
    if s.len() == 0 {
        Some(zeros(n))
    } else {
        match fold_compose(n, s.drop_last()) {
            Some(acc) => compose_spec(acc, s.last()),
            None => None,
        }
    }
}

/// The coefficient vectors of a list of transitions.
pub open spec fn views(v: Seq<PetriNetTransition>) -> Seq<Seq<i32>> {
    Seq::new(v.len(), |i: int| v[i]@)
}

/// The coefficient vectors of a list of lists of transitions.
pub open spec fn witness_views(w: Seq<Vec<PetriNetTransition>>) -> Seq<Seq<Seq<i32>>> {
    Seq::new(w.len(), |k: int| views(w[k]@))
}

/// Every vector listed anywhere in `w` is one of `ts`.
pub open spec fn drawn_from(ts: Seq<Seq<i32>>, w: Seq<Seq<Seq<i32>>>) -> bool {
    forall|k: int, j: int| 0 <= k < w.len() && 0 <= j < w[k].len() ==> ts.contains(#[trigger] w[k][j])
}

/// The `k`-th list of `w` folds to the `k`-th vector of `ts`.
pub open spec fn matched_at(n: nat, ts: Seq<Seq<i32>>, w: Seq<Seq<Seq<i32>>>, k: int) -> bool {
    fold_compose(n, w[k]) == Some(ts[k])
}

/// The `k`-th list of `w` folds.
pub open spec fn folds_at(n: nat, w: Seq<Seq<Seq<i32>>>, k: int) -> bool {
    fold_compose(n, w[k]).is_some()
}

/// `w` certifies the transitions `ts` over `n` places: it has one list per
/// transition, in the same order; every vector that it lists is one of
/// `ts`; every list folds; and each of the first `n` lists folds to its
/// transition, of which there are at least `n`.
pub open spec fn certified_by(n: nat, ts: Seq<Seq<i32>>, w: Seq<Seq<Seq<i32>>>) -> bool {
    &&& w.len() == ts.len()
    &&& n <= ts.len()
    &&& drawn_from(ts, w)
    &&& forall|k: int| 0 <= k < w.len() ==> #[trigger] folds_at(n, w, k)
    &&& forall|k: int| 0 <= k < n ==> #[trigger] matched_at(n, ts, w, k)
}

/// A marking: tokens per place, none of them negative.
pub struct PetriNetStage {
    tokens: Vec<i32>,
}

impl PetriNetStage {
    /// The tokens per place.
    pub closed spec fn view(&self) -> Seq<i32> {
        self.tokens@
    }

    /// No place holds a negative number of tokens.
    pub open spec fn wf(&self) -> bool {
        forall|i: int| 0 <= i < self@.len() ==> #[trigger] self@[i] >= 0
    }

    /// Accepts `v` as a marking unless one of its components is negative.
    pub fn new(v: Vec<i32>) -> (r: Option<PetriNetStage>)
        ensures
            r.is_some() <==> (forall|i: int| 0 <= i < v@.len() ==> #[trigger] v@[i] >= 0),
            r.is_some() ==> r.unwrap()@ == v@ && r.unwrap().wf(),
    {
        let mut i: usize = 0;
        while i < v.len()
            invariant
                i <= v.len(),
                forall|j: int| 0 <= j < i ==> #[trigger] v@[j] >= 0,
            decreases v.len() - i,
        {
            if v[i] < 0 {
                return None;
            }
            i += 1;
        }
        Some(PetriNetStage { tokens: v })
    }
}

/// A transition: the change of tokens per place.
#[derive(Debug)]
pub struct PetriNetTransition {
    coeffs: Vec<i32>,
}

impl Clone for PetriNetTransition {
    fn clone(&self) -> (r: Self)
        ensures
            r@ == self@,
    {
        let mut coeffs: Vec<i32> = Vec::new();
        let mut i: usize = 0;
        while i < self.coeffs.len()
            invariant
                i <= self.coeffs.len(),
                coeffs@ == self.coeffs@.take(i as int),
            decreases self.coeffs.len() - i,
        {
            coeffs.push(self.coeffs[i]);
            assert(coeffs@ =~= self.coeffs@.take(i + 1));
            i += 1;
        }
        assert(coeffs@ =~= self.coeffs@);
        PetriNetTransition { coeffs }
    }
}

impl PartialEq for PetriNetTransition {
    fn eq(&self, other: &Self) -> (r: bool) {
        PetriNetTransition::is_inverse(self, other)
    }
}

impl Eq for PetriNetTransition {

}

impl vstd::std_specs::cmp::PartialEqSpecImpl for PetriNetTransition {
    open spec fn obeys_eq_spec() -> bool {
        true
    }

    open spec fn eq_spec(&self, other: &Self) -> bool {
        self@ == other@
    }
}

impl PetriNetTransition {
    /// The coefficient per place.
    pub closed spec fn view(&self) -> Seq<i32> {
        self.coeffs@
    }

    /// The transition with the given coefficients.
    pub fn new(coeffs: Vec<i32>) -> (r: PetriNetTransition)
        ensures
            r@ == coeffs@,
    {
        PetriNetTransition { coeffs }
    }

    /// The identity over `size` places: every coefficient is zero.
    pub fn id(size: usize) -> (r: PetriNetTransition)
        ensures
            r@ == zeros(size as nat),
    {
        let mut coeffs: Vec<i32> = Vec::new();
        let mut i: usize = 0;
        while i < size
            invariant
                i <= size,
                coeffs@ == zeros(i as nat),
            decreases size - i,
        {
            coeffs.push(0);
            assert(coeffs@ =~= zeros((i + 1) as nat));
            i += 1;
        }
        PetriNetTransition { coeffs }
    }

    /// Guarded composition of two borrowed transitions.
    pub fn compose_ref(a: &PetriNetTransition, b: &PetriNetTransition) -> (r: Option<
        PetriNetTransition,
    >)
        ensures
            r.is_some() <==> composable(a@, b@),
            r.is_some() ==> r.unwrap()@ == pointwise_sum(a@, b@),
    {
        if a.coeffs.len() != b.coeffs.len() {
            return None;
        }
        let n: usize = a.coeffs.len();
        let mut coeffs: Vec<i32> = Vec::new();
        let mut i: usize = 0;
        while i < n
            invariant
                i <= n,
                n == a.coeffs.len(),
                n == b.coeffs.len(),
                coeffs@.len() == i,
                forall|j: int| 0 <= j < i ==> #[trigger] place_ok(a@, b@, j),
                forall|j: int| 0 <= j < i ==> #[trigger] coeffs@[j] == a@[j] + b@[j],
            decreases n - i,
        {
            let x: i64 = a.coeffs[i] as i64;
            let y: i64 = b.coeffs[i] as i64;
            let sum: i64 = x + y;
            if (y < 0 && sum < 0) || sum > 0x7fff_ffff {
                assert(!place_ok(a@, b@, i as int));
                return None;
            }
            coeffs.push(sum as i32);
            i += 1;
        }
        assert(coeffs@ =~= pointwise_sum(a@, b@));
        Some(PetriNetTransition { coeffs })
    }

    /// Guarded composition, `a` then `b`: the element-wise sum, defined only
    /// where the two have the same places and, at every place, `b` consumes
    /// no more than `a` has deposited.
    pub fn compose(a: PetriNetTransition, b: PetriNetTransition) -> (r: Option<PetriNetTransition>)
        ensures
            r.is_some() <==> composable(a@, b@),
            r.is_some() ==> r.unwrap()@ == pointwise_sum(a@, b@),
    {
        PetriNetTransition::compose_ref(&a, &b)
    }

    /// Whether the two transitions have the same coefficients, place by place.
    pub fn is_inverse(a: &PetriNetTransition, b: &PetriNetTransition) -> (r: bool)
        ensures
            r == (a@ == b@),
            r == (a@.len() == b@.len() && forall|i: int| 0 <= i < a@.len() ==> a@[i] == b@[i]),
    {
        if a.coeffs.len() != b.coeffs.len() {
            return false;
        }
        let n: usize = a.coeffs.len();
        let mut i: usize = 0;
        while i < n
            invariant
                i <= n,
                n == a.coeffs.len(),
                n == b.coeffs.len(),
                forall|j: int| 0 <= j < i ==> a@[j] == b@[j],
            decreases n - i,
        {
            if a.coeffs[i] != b.coeffs[i] {
                return false;
            }
            i += 1;
        }
        assert(a@ =~= b@);
        true
    }

    /// Whether the transition is balanced under the colouring: scanning the
    /// places in order, the red and the blue sum both end at zero.
    pub fn check_duality(&self, colors: &Vec<Color>) -> (r: bool)
        ensures
            r == balanced(self@, colors@),
    {
        if self.coeffs.len() != colors.len() {
            return false;
        }
        let n: usize = self.coeffs.len();
        let mut red: i128 = 0;
        let mut blue: i128 = 0;
        let mut i: usize = 0;
        while i < n
            invariant
                i <= n,
                n == self.coeffs.len(),
                n == colors.len(),
                red == red_sum(self@, colors@, i as nat),
                blue == blue_sum(self@, colors@, i as nat),
                -0x8000_0000 * i <= red <= 0x8000_0000 * i,
                -0x8000_0000 * i <= blue <= 0x8000_0000 * i,
            decreases n - i,
        {
            let v: i128 = self.coeffs[i] as i128;
            match colors[i] {
                Color::Blank => {},
                Color::Red => {
                    red = red + v;
                },
                Color::Blue => {
                    blue = blue + v;
                },
                Color::Purple => {
                    red = red + v;
                    blue = blue + v;
                },
            }
            i += 1;
        }
        red == 0 && blue == 0
    }
}

/// A net: the number of places and the transitions over them.
pub struct PetriNet {
    size: usize,
    transitions: Vec<PetriNetTransition>,
}

impl PetriNet {
    /// The number of places.
    pub closed spec fn places(&self) -> nat {
        self.size as nat
    }

    /// The coefficient vectors of the transitions, in order.
    pub closed spec fn view(&self) -> Seq<Seq<i32>> {
        views(self.transitions@)
    }

    /// There is at least one place, and every transition has one coefficient
    /// per place.
    pub open spec fn wf(&self) -> bool {
        &&& self.places() > 0
        &&& forall|i: int| 0 <= i < self@.len() ==> (#[trigger] self@[i]).len() == self.places()
    }

    /// The net over `size` places with the given transitions.
    pub fn new(size: usize, transitions: Vec<PetriNetTransition>) -> (r: PetriNet)
        requires
            size > 0,
            forall|i: int| 0 <= i < transitions@.len() ==> (#[trigger] transitions@[i])@.len() == size,
        ensures
            r.places() == size,
            r@ == views(transitions@),
            r.wf(),
    {
        PetriNet { size, transitions }
    }

    /// Whether `t` is one of the net's transitions, by its coefficients.
    fn has_transition(&self, t: &PetriNetTransition) -> (r: bool)
        ensures
            r == self@.contains(t@),
    {
        let mut i: usize = 0;
        while i < self.transitions.len()
            invariant
                i <= self.transitions.len(),
                forall|j: int| 0 <= j < i ==> self@[j] != t@,
            decreases self.transitions.len() - i,
        {
            if PetriNetTransition::is_inverse(&self.transitions[i], t) {
                assert(self@[i as int] == t@);
                return true;
            }
            i += 1;
        }
        false
    }

    /// Whether every transition listed in `reverse` is one of the net's.
    fn check_membership(&self, reverse: &Vec<Vec<PetriNetTransition>>) -> (r: bool)
        ensures
            r == drawn_from(self@, witness_views(reverse@)),
    {
        let ghost w = witness_views(reverse@);
        let mut k: usize = 0;
        while k < reverse.len()
            invariant
                k <= reverse.len(),
                w == witness_views(reverse@),
                forall|a: int, b: int|
                    0 <= a < k && 0 <= b < w[a].len() ==> self@.contains(#[trigger] w[a][b]),
            decreases reverse.len() - k,
        {
            let list = &reverse[k];
            let mut j: usize = 0;
            while j < list.len()
                invariant
                    j <= list.len(),
                    k < reverse.len(),
                    w == witness_views(reverse@),
                    list@ == reverse@[k as int]@,
                    forall|b: int| 0 <= b < j ==> self@.contains(#[trigger] w[k as int][b]),
                decreases list.len() - j,
            {
                if !self.has_transition(&list[j]) {
                    assert(w[k as int][j as int] == list@[j as int]@);
                    return false;
                }
                assert(w[k as int][j as int] == list@[j as int]@);
                j += 1;
            }
            k += 1;
        }
        true
    }

    /// Folds `list` with guarded composition, starting from the identity.
    fn fold_list(&self, list: &Vec<PetriNetTransition>) -> (r: Option<PetriNetTransition>)
        ensures
            r.is_some() <==> fold_compose(self.places(), views(list@)).is_some(),
            r.is_some() ==> fold_compose(self.places(), views(list@)) == Some(r.unwrap()@),
    {
        let ghost s = views(list@);
        let mut acc = PetriNetTransition::id(self.size);
        let mut j: usize = 0;
        assert(s.take(0) =~= Seq::<Seq<i32>>::empty());
        while j < list.len()
            invariant
                j <= list.len(),
                s == views(list@),
                fold_compose(self.places(), s.take(j as int)) == Some(acc@),
            decreases list.len() - j,
        {
            proof {
                assert(s.take(j + 1).drop_last() =~= s.take(j as int));
                assert(s.take(j + 1).last() == list@[j as int]@);
            }
            match PetriNetTransition::compose_ref(&acc, &list[j]) {
                Some(next) => {
                    acc = next;
                },
                None => {
                    proof {
                        lemma_fold_prefix_fails(self.places(), s, j + 1);
                    }
                    return None;
                },
            }
            j += 1;
        }
        assert(s.take(j as int) =~= s);
        Some(acc)
    }

    /// Whether `reverse` certifies the net. It does where it lists one
    /// sequence per transition, in the net's order; every transition that it
    /// lists is one of the net's; every sequence folds from the identity
    /// under guarded composition; and, for as many transitions as the net
    /// has places, counted from the first, the sequence folds to the
    /// coefficients of its transition. A net with fewer transitions than
    /// places is not certified.
    pub fn check_reversibility(&self, reverse: Vec<Vec<PetriNetTransition>>) -> (r: bool)
        ensures
            r == certified_by(self.places(), self@, witness_views(reverse@)),
    {
        let ghost w = witness_views(reverse@);
        if reverse.len() != self.transitions.len() || self.size > self.transitions.len() {
            return false;
        }
        if !self.check_membership(&reverse) {
            return false;
        }
        let mut k: usize = 0;
        while k < reverse.len()
            invariant
                k <= reverse.len(),
                reverse.len() == self.transitions.len(),
                w == witness_views(reverse@),
                forall|a: int| 0 <= a < k ==> #[trigger] folds_at(self.places(), w, a),
                forall|a: int|
                    0 <= a < k && a < self.places() ==> #[trigger] matched_at(
                        self.places(),
                        self@,
                        w,
                        a,
                    ),
            decreases reverse.len() - k,
        {
            assert(w[k as int] == views(reverse@[k as int]@));
            match self.fold_list(&reverse[k]) {
                Some(c) => {
                    if k < self.size && !PetriNetTransition::is_inverse(&self.transitions[k], &c) {
                        assert(!matched_at(self.places(), self@, w, k as int));
                        return false;
                    }
                },
                None => {
                    assert(!folds_at(self.places(), w, k as int));
                    return false;
                },
            }
            k += 1;
        }
        true
    }

    /// Whether every transition of the net is balanced under the colouring.
    pub fn check_duality(&self, colors: &Vec<Color>) -> (r: bool)
        ensures
            r == all_balanced(self@, colors@),
    {
        let mut i: usize = 0;
        while i < self.transitions.len()
            invariant
                i <= self.transitions.len(),
                forall|j: int| 0 <= j < i ==> balanced(#[trigger] self@[j], colors@),
            decreases self.transitions.len() - i,
        {
            if !self.transitions[i].check_duality(colors) {
                assert(self@[i as int] == self.transitions@[i as int]@);
                return false;
            }
            assert(self@[i as int] == self.transitions@[i as int]@);
            i += 1;
        }
        true
    }
}

/// Every vector of `s` is balanced under `colors`.
pub open spec fn all_balanced(s: Seq<Seq<i32>>, colors: Seq<Color>) -> bool {
    forall|k: int| 0 <= k < s.len() ==> balanced(#[trigger] s[k], colors)
}

/// The sum of the coefficients at place `p` over all vectors of `s`: what
/// firing them all changes at `p`, whatever the order.
pub open spec fn total_at(s: Seq<Seq<i32>>, p: int) -> int
    decreases s.len(),
{
    if s.len() == 0 {
        0
    } else {
        total_at(s.drop_last(), p) + s.last()[p]
    }
}

} // verus!

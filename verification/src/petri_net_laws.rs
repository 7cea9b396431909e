//! What holds of guarded composition, of folds, and of the coloured sums.

use crate::petri_net_model::{
    Color, PetriNetTransition, balanced, blue_part, blue_sum, certified_by, composable,
    compose_spec, fold_compose, folds_at, matched_at, place_ok, pointwise_sum, red_part, red_sum,
    total_at, views, zeros,
};
use vstd::prelude::*;

verus! {

/// Once a prefix of `s` fails to fold, so does `s`.
pub proof fn lemma_fold_prefix_fails(n: nat, s: Seq<Seq<i32>>, j: int)
    requires
        0 <= j <= s.len(),
        fold_compose(n, s.take(j)).is_none(),
    ensures
        fold_compose(n, s).is_none(),
    decreases s.len(),
{
    if j == s.len() {
        assert(s.take(j) =~= s);
    } else {
        assert(s.drop_last().take(j) =~= s.take(j));
        lemma_fold_prefix_fails(n, s.drop_last(), j);
    }
}

/// Composition, where it is defined, keeps the places and adds the
/// coefficients place by place.
pub proof fn lemma_compose_is_sum(a: Seq<i32>, b: Seq<i32>)
    requires
        compose_spec(a, b).is_some(),
    ensures
        a.len() == b.len(),
        compose_spec(a, b).unwrap().len() == a.len(),
        forall|i: int| 0 <= i < a.len() ==> compose_spec(a, b).unwrap()[i] == a[i] + b[i],
{
    assert forall|i: int| 0 <= i < a.len() implies compose_spec(a, b).unwrap()[i] == a[i] + b[i] by {
        assert(place_ok(a, b, i));
    }
}

/// Composition is associative wherever both ways of bracketing are defined.
pub proof fn lemma_compose_associative(a: Seq<i32>, b: Seq<i32>, c: Seq<i32>)
    requires
        composable(a, b),
        composable(pointwise_sum(a, b), c),
        composable(b, c),
        composable(a, pointwise_sum(b, c)),
    ensures
        pointwise_sum(pointwise_sum(a, b), c) == pointwise_sum(a, pointwise_sum(b, c)),
{
    assert forall|i: int| 0 <= i < a.len() implies pointwise_sum(pointwise_sum(a, b), c)[i]
        == pointwise_sum(a, pointwise_sum(b, c))[i] by {
        assert(place_ok(a, b, i));
        assert(place_ok(b, c, i));
        assert(place_ok(pointwise_sum(a, b), c, i));
        assert(place_ok(a, pointwise_sum(b, c), i));
    }
    assert(pointwise_sum(pointwise_sum(a, b), c) =~= pointwise_sum(a, pointwise_sum(b, c)));
}

/// The identity is a right unit: a transition followed by the identity over
/// its places is always defined, and is that transition.
pub proof fn lemma_compose_identity_right(t: Seq<i32>)
    ensures
        compose_spec(t, zeros(t.len())) == Some(t),
{
    let z = zeros(t.len());
    assert forall|i: int| 0 <= i < t.len() implies #[trigger] place_ok(t, z, i) by {}
    assert(pointwise_sum(t, z) =~= t);
}

/// The identity is a left unit wherever the composition is defined, and it
/// is defined exactly for the transitions that consume nothing: after the
/// identity no place holds anything to consume.
pub proof fn lemma_compose_identity_left(t: Seq<i32>)
    ensures
        compose_spec(zeros(t.len()), t).is_some() <==> (forall|i: int|
            0 <= i < t.len() ==> #[trigger] t[i] >= 0),
        compose_spec(zeros(t.len()), t).is_some() ==> compose_spec(zeros(t.len()), t) == Some(t),
{
    let z = zeros(t.len());
    if composable(z, t) {
        assert forall|i: int| 0 <= i < t.len() implies #[trigger] t[i] >= 0 by {
            assert(place_ok(z, t, i));
        }
        assert(pointwise_sum(z, t) =~= t);
    }
    if forall|i: int| 0 <= i < t.len() ==> #[trigger] t[i] >= 0 {
        assert forall|i: int| 0 <= i < z.len() implies #[trigger] place_ok(z, t, i) by {
            assert(t[i] >= 0);
        }
    }
}

/// Under a colouring that tags no place, the coloured sums over any number
/// of places are zero.
pub proof fn lemma_blank_sums(t: Seq<i32>, colors: Seq<Color>, n: nat)
    requires
        n <= colors.len(),
        forall|i: int| 0 <= i < colors.len() ==> colors[i] == Color::Blank,
    ensures
        red_sum(t, colors, n) == 0,
        blue_sum(t, colors, n) == 0,
    decreases n,
{
    if n > 0 {
        lemma_blank_sums(t, colors, (n - 1) as nat);
    }
}

/// Every transition is balanced under the colouring of its places that tags
/// none of them.
pub proof fn lemma_blank_colouring_balances(t: Seq<i32>, colors: Seq<Color>)
    requires
        colors.len() == t.len(),
        forall|i: int| 0 <= i < colors.len() ==> colors[i] == Color::Blank,
    ensures
        balanced(t, colors),
{
    lemma_blank_sums(t, colors, t.len());
}

/// A list that starts with a transition that consumes at some place does
/// not fold: from the identity there is nothing to consume.
pub proof fn lemma_fold_needs_tokens(n: nat, s: Seq<Seq<i32>>, p: int)
    requires
        s.len() > 0,
        0 <= p < s[0].len(),
        s[0][p] < 0,
    ensures
        fold_compose(n, s).is_none(),
{
    let first = s.take(1);
    assert(first.drop_last() =~= Seq::<Seq<i32>>::empty());
    assert(first.last() == s[0]);
    assert(fold_compose(n, first.drop_last()) == Some(zeros(n)));
    if composable(zeros(n), s[0]) {
        assert(place_ok(zeros(n), s[0], p));
    }
    lemma_fold_prefix_fails(n, s, 1);
}

/// The red sum of the zero vector is zero.
pub broadcast proof fn lemma_zero_red_sum(m: nat, colors: Seq<Color>, n: nat)
    requires
        n <= m,
    ensures
        #[trigger] red_sum(zeros(m), colors, n) == 0,
    decreases n,
{
    if n > 0 {
        lemma_zero_red_sum(m, colors, (n - 1) as nat);
    }
}

/// The blue sum of the zero vector is zero.
pub broadcast proof fn lemma_zero_blue_sum(m: nat, colors: Seq<Color>, n: nat)
    requires
        n <= m,
    ensures
        #[trigger] blue_sum(zeros(m), colors, n) == 0,
    decreases n,
{
    if n > 0 {
        lemma_zero_blue_sum(m, colors, (n - 1) as nat);
    }
}

/// Replacing the coefficient at place `p` moves the red sum by the red share
/// of the change at `p`, where the sum runs over `p` at all.
pub broadcast proof fn lemma_update_red_sum(
    t: Seq<i32>,
    colors: Seq<Color>,
    n: nat,
    p: int,
    v: i32,
)
    requires
        0 <= p < t.len(),
        n <= t.len(),
    ensures
        #[trigger] red_sum(t.update(p, v), colors, n) == red_sum(t, colors, n) + (if p < n {
            red_part(colors[p], v - t[p])
        } else {
            0
        }),
    decreases n,
{
    if n > 0 {
        lemma_update_red_sum(t, colors, (n - 1) as nat, p, v);
    }
}

/// Replacing the coefficient at place `p` moves the blue sum by the blue
/// share of the change at `p`, where the sum runs over `p` at all.
pub broadcast proof fn lemma_update_blue_sum(
    t: Seq<i32>,
    colors: Seq<Color>,
    n: nat,
    p: int,
    v: i32,
)
    requires
        0 <= p < t.len(),
        n <= t.len(),
    ensures
        #[trigger] blue_sum(t.update(p, v), colors, n) == blue_sum(t, colors, n) + (if p < n {
            blue_part(colors[p], v - t[p])
        } else {
            0
        }),
    decreases n,
{
    if n > 0 {
        lemma_update_blue_sum(t, colors, (n - 1) as nat, p, v);
    }
}

/// What the coloured sums of a vector built by single updates come to.
pub broadcast group group_coloured_sums {
    lemma_zero_red_sum,
    lemma_zero_blue_sum,
    lemma_update_red_sum,
    lemma_update_blue_sum,
}

/// The coefficient vectors of two lists joined are those of the first,
/// then those of the second.
pub broadcast proof fn lemma_views_concat(a: Seq<PetriNetTransition>, b: Seq<PetriNetTransition>)
    ensures
        #[trigger] views(a + b) == views(a) + views(b),
{
    assert(views(a + b) =~= views(a) + views(b));
}

/// The total of two lists joined is the sum of their totals.
pub broadcast proof fn lemma_total_concat(a: Seq<Seq<i32>>, b: Seq<Seq<i32>>, p: int)
    ensures
        #[trigger] total_at(a + b, p) == total_at(a, p) + total_at(b, p),
    decreases b.len(),
{
    if b.len() == 0 {
        assert(a + b =~= a);
    } else {
        assert((a + b).drop_last() =~= a + b.drop_last());
        lemma_total_concat(a, b.drop_last(), p);
    }
}

/// A fold that is defined is a vector over the `n` places that holds, at
/// each place, the total of the list there, and that total is not negative:
/// guarded composition never takes what was not deposited.
pub proof fn lemma_fold_is_total(n: nat, s: Seq<Seq<i32>>)
    requires
        fold_compose(n, s).is_some(),
    ensures
        fold_compose(n, s).unwrap().len() == n,
        forall|p: int|
            0 <= p < n ==> (#[trigger] fold_compose(n, s).unwrap()[p]) == total_at(s, p),
        forall|p: int| 0 <= p < n ==> total_at(s, p) >= 0,
    decreases s.len(),
{
    if s.len() > 0 {
        let acc = fold_compose(n, s.drop_last()).unwrap();
        lemma_fold_is_total(n, s.drop_last());
        assert forall|p: int| 0 <= p < n implies (#[trigger] fold_compose(n, s).unwrap()[p])
            == total_at(s, p) && total_at(s, p) >= 0 by {
            assert(place_ok(acc, s.last(), p));
            assert(acc[p] == total_at(s.drop_last(), p));
        }
        assert forall|p: int| 0 <= p < n implies #[trigger] total_at(s, p) >= 0 by {
            assert(fold_compose(n, s).unwrap()[p] == total_at(s, p));
        }
    }
}

/// A cycle without its transition at position `j`, read from the position
/// after `j` round to the one before it, changes each place by what the
/// whole cycle changes there less what that transition does.
pub proof fn lemma_rotation_total(c: Seq<Seq<i32>>, j: int, p: int)
    requires
        0 <= j < c.len(),
    ensures
        total_at(c.subrange(j + 1, c.len() as int) + c.subrange(0, j), p) + c[j][p] == total_at(
            c,
            p,
        ),
{
    let before = c.subrange(0, j);
    let after = c.subrange(j + 1, c.len() as int);
    let at = c.subrange(0, j + 1);
    assert(at.drop_last() =~= before);
    assert(at.last() == c[j]);
    assert(at + after =~= c);
    lemma_total_concat(at, after, p);
    lemma_total_concat(after, before, p);
}

/// A net with a consumer among the transitions that are matched is
/// certified by no witness: no fold from the identity has a negative
/// coefficient.
pub proof fn lemma_consumer_is_not_certified(
    n: nat,
    ts: Seq<Seq<i32>>,
    w: Seq<Seq<Seq<i32>>>,
    k: int,
    p: int,
)
    requires
        0 <= k < ts.len(),
        k < n,
        0 <= p < n,
        ts[k][p] < 0,
    ensures
        !certified_by(n, ts, w),
{
    if certified_by(n, ts, w) {
        assert(matched_at(n, ts, w, k));
        lemma_fold_is_total(n, w[k]);
        assert(fold_compose(n, w[k]).unwrap()[p] == total_at(w[k], p));
    }
}

/// A witness that lists a sequence which starts with a consumer certifies
/// nothing, whichever transition the sequence stands for.
pub proof fn lemma_consumer_first_is_not_certified(
    n: nat,
    ts: Seq<Seq<i32>>,
    w: Seq<Seq<Seq<i32>>>,
    k: int,
    p: int,
)
    requires
        0 <= k < w.len(),
        w[k].len() > 0,
        0 <= p < w[k][0].len(),
        w[k][0][p] < 0,
    ensures
        !certified_by(n, ts, w),
{
    lemma_fold_needs_tokens(n, w[k], p);
    assert(!folds_at(n, w, k));
}

} // verus!

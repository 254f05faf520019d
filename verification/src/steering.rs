//! What walking is for: Wander follows its path and keeps off walls, a turn goes away from the
//! nearer side, and every behaviour that turns turns towards what it is after.

use vstd::prelude::*;

use crate::active::{aim_along, Act};
use crate::arbiter::Mind;
use crate::behaviours::{Kind, Limits};
use crate::dice::{chance, reseeded};
use crate::heading::{candidate_visits, candidate_yaw, is_refused, searched};
use crate::units::{law_wrap_takes_whole_turns, reaches, wrapped};
use crate::world::World;

verus! {

/// Point `k` of a path is at least 0.35 m from the duck.
pub open spec fn is_off(path: Seq<(int, int)>, w: World, k: int) -> bool {
    let (dx, dy) = (path[k].0 - w.odom@[0], path[k].1 - w.odom@[1]);
    dx * dx + dy * dy >= 122_500_000_000_000_000
}

proof fn lemma_aim(path: Seq<(int, int)>, w: World, k: nat, first: int)
    requires
        k <= path.len(),
        0 < path.len(),
        k <= first <= path.len(),
        first < path.len() ==> is_off(path, w, first),
        forall|j: int| k <= j < first ==> !is_off(path, w, j),
    ensures
        ({
            let at = if first < path.len() {
                path[first]
            } else {
                path.last()
            };
            aim_along(path, w, k) == Some((at.0 - w.odom@[0], at.1 - w.odom@[1]))
        }),
    decreases path.len() - k,
{
    if k < path.len() {
        assert(350_000_000int * 350_000_000int == 122_500_000_000_000_000);
        let (dx, dy) = (path[k as int].0 - w.odom@[0], path[k as int].1 - w.odom@[1]);
        assert(reaches(dx, dy, 350_000_000) <==> is_off(path, w, k as int));
        if k < first {
            lemma_aim(path, w, k + 1, first);
        }
    }
}

/// Wander steers at the first point of its path that is at least 0.35 m away: every earlier one
/// is nearer. Only if none is that far does it steer at the last, and without a path at none.
pub proof fn law_wander_follows_its_path(a: Act, w: World, path: Seq<(int, int)>, first: int)
    requires
        a.kind is Wander,
        a.readied(w).plan == Some(path),
        path.len() > 0,
        0 <= first <= path.len(),
        first < path.len() ==> is_off(path, w, first),
        forall|j: int| 0 <= j < first ==> !is_off(path, w, j),
    ensures
        first < path.len() ==> a.sights(w) == Some(
            (path[first].0 - w.odom@[0], path[first].1 - w.odom@[1]),
        ),
        first == path.len() ==> a.sights(w) == Some(
            (path.last().0 - w.odom@[0], path.last().1 - w.odom@[1]),
        ),
{
    lemma_aim(path, w, 0, first);
}

/// The path is planned anew from where the duck stands when it is more than two seconds old, to
/// an edge of the unknown at least half a metre away, and kept until then; nothing else plans.
pub proof fn law_wander_plans_every_two_seconds(a: Act, w: World)
    ensures
        ({
            let r = a.readied(w);
            let old = a.planned_at matches Some(t) ==> w.t - t > 2_000_000_000;
            &&& a.kind is Wander && old ==> r.planned_at == Some(w.t) && r.plan
                == w.room@.frontier_path((w.odom@[0], w.odom@[1]), 500_000_000)
            &&& !(a.kind is Wander) || !old ==> r == a
            &&& !(a.kind is Wander) ==> a.sights(w) is None
            &&& a.kind is Wander && r.plan is None ==> a.sights(w) is None
        }),
{
}

/// What Wander is steering for: the bearing it was told, or the heading it chose.
pub open spec fn aim_of(a: Act, bearing: Option<i64>) -> i64 {
    match bearing {
        Some(b) => b,
        None => a.target_yaw,
    }
}

/// `a` is half as much again as `b`, rounded down, unless that is more than 0.6 rad/s.
pub open spec fn is_steering(a: i64, b: int) -> bool {
    ||| 2 * a <= 3 * b < 2 * a + 2
    ||| a == 600_000_000 && 3 * b >= 1_200_000_000
    ||| a == -600_000_000 && 3 * b < -1_200_000_000
}

/// Wander turns the way its aim lies, harder the further off it is, and looks there too: left of
/// the heading is a turn and a look to the left. It walks at full speed with 0.7 m of room, at
/// half with less, and not at all under 0.35 m; it goes neither backwards nor sideways, and
/// ends after forty seconds or, past the first, at a wall.
pub proof fn law_wander_steers_at_its_aim(
    a: Act,
    w: World,
    limits: Limits,
    seed: u64,
    bearing: Option<i64>,
)
    requires
        a.kind is Wander,
    ensures
        ({
            let o = a.advanced(w, limits, seed, bearing);
            let err = wrapped(aim_of(a, bearing) - w.yaw);
            let t = o.intents.twist;
            let look = o.intents.head->0[2].base;
            let near = w.obstacles.center matches Some(r) && r < 350_000_000;
            let close = w.obstacles.center matches Some(r) && r < 700_000_000;
            &&& is_steering(t[2], err)
            &&& err > 0 ==> t[2] > 0 && look >= 0
            &&& err < 0 ==> t[2] < 0 && look < 0
            &&& err == 0 ==> t[2] == 0 && look == 0
            &&& -800_000_000 <= look <= 800_000_000
            &&& 2 * look <= err || look == -800_000_000
            &&& err < 2 * look + 2 || look == 800_000_000
            &&& near ==> t[0] == 0
            &&& close && !near ==> t[0] == limits.linear as int / 2
            &&& !close ==> t[0] == limits.linear
            &&& t[1] == 0
            &&& o.done <==> a.age(w) > 40_000_000_000 || near && a.age(w) > 1_000_000_000
            &&& o.intents.sound is None && o.intents.skill is None && o.intents.pose is None
        }),
{
    let err = wrapped(aim_of(a, bearing) - w.yaw);
    law_wrap_takes_whole_turns(aim_of(a, bearing) - w.yaw);
}

/// With a path, Wander keeps the bearing it was told as its heading; without one it keeps its
/// heading for five seconds, and then may choose another as it did when it began.
pub proof fn law_wander_keeps_its_heading(
    a: Act,
    w: World,
    limits: Limits,
    seed: u64,
    bearing: Option<i64>,
)
    requires
        a.kind is Wander,
    ensures
        ({
            let o = a.advanced(w, limits, seed, bearing);
            &&& a.plan is Some || a.age(w) <= 5_000_000_000 ==> o.act.target_yaw == aim_of(
                a,
                bearing,
            ) && o.seed == seed
            &&& o.act.plan == a.plan && o.act.planned_at == a.planned_at
        }),
{
}

/// A heading is chosen among the eight points of the compass around the duck: none that the
/// sensor calls blocked, left, right or ahead; and of the rest one whose ground is visited least.
pub proof fn law_wander_heads_for_new_ground(w: World, seed: u64, other: int)
    requires
        0 <= other < 8,
        candidate_visits(w, other) < u32::MAX,
        other == 4 ==> !(w.obstacles.center matches Some(r) && r < 700_000_000),
        other == 5 ==> !(w.obstacles.left matches Some(r) && r < 500_000_000),
        other == 3 ==> !(w.obstacles.right matches Some(r) && r < 500_000_000),
    ensures
        exists|k: int|
            {
                &&& 0 <= k < 8
                &&& #[trigger] candidate_yaw(w, k) == searched(w, seed, 8).yaw
                &&& candidate_visits(w, k) <= candidate_visits(w, other)
                &&& k == 4 ==> !(w.obstacles.center matches Some(r) && r < 700_000_000)
                &&& k == 5 ==> !(w.obstacles.left matches Some(r) && r < 500_000_000)
                &&& k == 3 ==> !(w.obstacles.right matches Some(r) && r < 500_000_000)
            },
{
    crate::heading::law_heading_is_least_visited(w, seed, other);
    let k = choose|k: int|
        0 <= k < 8 && !is_refused(w, k) && searched(w, seed, 8).yaw == candidate_yaw(w, k)
            && #[trigger] candidate_visits(w, k) == searched(w, seed, 8).visits;
    assert(candidate_yaw(w, k) == searched(w, seed, 8).yaw);
}

/// Without a path and past its first five seconds, Wander throws once a tick, and at one in a
/// hundred takes a heading as it would if it began now.
pub proof fn law_wander_changes_its_mind_now_and_then(
    a: Act,
    w: World,
    limits: Limits,
    seed: u64,
    bearing: Option<i64>,
)
    requires
        a.kind is Wander,
        a.plan is None,
        w.t - a.since > 5_000_000_000,
    ensures
        ({
            let o = a.advanced(w, limits, seed, bearing);
            let anew = Act::entered(Kind::Wander, w, reseeded(seed));
            &&& 100 * chance(seed) < 4_503_599_627_370_496 ==> o.act.target_yaw == anew.target_yaw
                && o.seed == Act::seed_entered(Kind::Wander, w, reseeded(seed))
            &&& 100 * chance(seed) >= 4_503_599_627_370_496 ==> o.act.target_yaw == aim_of(
                a,
                bearing,
            ) && o.seed == reseeded(seed)
        }),
{
}

/// How far east a wandering duck is bound.
pub open spec fn end_x(m: Mind) -> int {
    match m.bound_for() {
        Some(p) => p.0,
        None => 0,
    }
}

/// How far north a wandering duck is bound.
pub open spec fn end_y(m: Mind) -> int {
    match m.bound_for() {
        Some(p) => p.1,
        None => 0,
    }
}

/// A wandering duck is bound for the end of its path, and steers there once it has passed all
/// before; any other duck is bound for nowhere.
pub proof fn law_wander_is_bound_for_the_end_of_its_path(m: Mind, w: World)
    ensures
        m.kind() != Some(Kind::Wander) ==> m.bound_for() is None,
        m.active matches Some(a) ==> (a.kind is Wander && a.readied(w) == a && a.plan is Some
            && a.plan->0.len() > 0 && (forall|j: int|
            0 <= j < a.plan->0.len() - 1 ==> !is_off(a.plan->0, w, j)) ==> m.bound_for() is Some
            && a.sights(w) == Some(
            (end_x(m) - w.odom@[0], end_y(m) - w.odom@[1]),
        )),
        m.active matches Some(a) ==> (a.plan is None ==> m.bound_for() is None),
{
    if m.active is Some && m.active->0.kind is Wander && m.active->0.plan is Some {
        let path = m.active->0.plan->0;
        if path.len() > 0 && (forall|j: int| 0 <= j < path.len() - 1 ==> !is_off(path, w, j)) {
            if is_off(path, w, path.len() - 1) {
                lemma_aim(path, w, 0, path.len() - 1);
            } else {
                lemma_aim(path, w, 0, path.len() as int);
            }
        }
    }
}

} // verus!

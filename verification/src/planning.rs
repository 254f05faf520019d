//! What the explorer and the mission plan for: the first way of several, the one thing that comes
//! before another, and how a stalled walk is helped.

use vstd::prelude::*;

use crate::active::Act;
use crate::behaviours::{Kind, Limits};
use crate::maze::{beyond, first, preference, quarter, turned, Dir, Maze, Plan, Side};
use crate::mission::{edge_range, localised, Quest};
use crate::proto::SoundTag;
use crate::questing::{bin_at, is_recent, side_angle};
use crate::units::wrapped;
use crate::world::World;

verus! {

/// Where a direction stands in the order of preference: left, straight on, right, back.
pub open spec fn place_in(facing: Dir, d: Dir) -> int {
    (1 - (quarter(d) - quarter(facing))) % 4
}

/// `d` is the most preferred direction that is wanted.
pub open spec fn is_foremost(facing: Dir, d: Dir, wanted: spec_fn(Dir) -> bool) -> bool {
    &&& wanted(d)
    &&& forall|e: Dir| #[trigger] wanted(e) ==> place_in(facing, d) <= place_in(facing, e)
}

proof fn lemma_places(facing: Dir, d: Dir)
    ensures
        0 <= place_in(facing, d) < 4,
        preference(facing)[place_in(facing, d)] == d,
        preference(facing).len() == 4,
        place_in(facing, d) == 3 <==> d == turned(facing, 2),
        forall|i: int| 0 <= i < 4 ==> place_in(facing, #[trigger] preference(facing)[i]) == i,
{
    let p = preference(facing);
    assert(p[0] == turned(facing, 1) && p[1] == facing && p[2] == turned(facing, 3) && p[3]
        == turned(facing, 2));
    assert forall|i: int| 0 <= i < 4 implies place_in(facing, #[trigger] p[i]) == i by {
        assert(i == 0 || i == 1 || i == 2 || i == 3);
    }
}

proof fn lemma_first_of(order: Seq<Dir>, wanted: spec_fn(Dir) -> bool) -> (k: int)
    ensures
        0 <= k <= order.len(),
        forall|i: int| 0 <= i < k ==> !wanted(#[trigger] order[i]),
        k < order.len() ==> wanted(order[k]) && first(order, wanted) == Some(order[k]),
        k == order.len() ==> first(order, wanted) is None,
    decreases order.len(),
{
    if order.len() == 0 || wanted(order[0]) {
        0
    } else {
        let rest = order.skip(1);
        let k = lemma_first_of(rest, wanted);
        assert forall|i: int| 0 <= i < k + 1 implies !wanted(#[trigger] order[i]) by {
            if i > 0 {
                assert(rest[i - 1] == order[i]);
            }
        }
        k + 1
    }
}

/// The most preferred of the first `n` directions that is wanted, or none.
proof fn lemma_foremost(facing: Dir, n: int, wanted: spec_fn(Dir) -> bool)
    requires
        0 <= n <= 4,
    ensures
        match first(preference(facing).take(n), wanted) {
            Some(d) => {
                &&& wanted(d)
                &&& place_in(facing, d) < n
                &&& forall|e: Dir|
                    #[trigger] wanted(e) ==> place_in(facing, d) <= place_in(facing, e)
            },
            None => forall|e: Dir| place_in(facing, e) < n ==> !#[trigger] wanted(e),
        },
{
    let p = preference(facing);
    let order = p.take(n);
    let k = lemma_first_of(order, wanted);
    lemma_places(facing, facing);
    assert forall|e: Dir| #[trigger] wanted(e) implies k <= place_in(facing, e) by {
        lemma_places(facing, e);
        let i = place_in(facing, e);
        if i < k {
            assert(order[i] == p[i]);
        }
    }
    if k < n {
        assert(order[k] == p[k]);
    }
}

/// The way outside comes first; then a cell never visited, left, straight on or right; then a
/// side never looked at, in the same order; then a cell never visited behind.
pub proof fn law_plan_prefers_what_is_new(m: Maze, d: Dir)
    ensures
        ({
            let outside = |e: Dir| m.here(e) is Outside;
            let ahead_new = |e: Dir| m.fresh(e) && e != turned(m.facing, 2);
            let ahead_unseen = |e: Dir| m.here(e) is Unknown && e != turned(m.facing, 2);
            let none_outside = forall|e: Dir| !(#[trigger] m.here(e) is Outside);
            let none_new = forall|e: Dir| #[trigger] m.fresh(e) ==> e == turned(m.facing, 2);
            let none_unseen = forall|e: Dir|
                #[trigger] m.here(e) is Unknown ==> e == turned(m.facing, 2);
            &&& is_foremost(m.facing, d, outside) ==> m.planned() == Plan::Exit(d)
            &&& none_outside && is_foremost(m.facing, d, ahead_new) ==> m.planned() == Plan::Go(d)
            &&& none_outside && none_new && is_foremost(m.facing, d, ahead_unseen)
                ==> m.planned() == Plan::Look(d)
            &&& none_outside && none_new && none_unseen && d == turned(m.facing, 2) && m.fresh(d)
                ==> m.planned() == Plan::Go(d)
        }),
{
    let f = m.facing;
    let p = preference(f);
    let outside = |e: Dir| m.here(e) == Side::Outside;
    let fresh = |e: Dir| m.fresh(e);
    let unseen = |e: Dir| m.here(e) == Side::Unknown;
    lemma_places(f, d);
    assert(p.take(4) =~= p);
    lemma_foremost(f, 4, outside);
    lemma_foremost(f, 3, fresh);
    lemma_foremost(f, 3, unseen);
    let out_ = |e: Dir| m.here(e) is Outside;
    let new_ = |e: Dir| m.fresh(e) && e != turned(f, 2);
    let un_ = |e: Dir| m.here(e) is Unknown && e != turned(f, 2);
    assert forall|e: Dir| 0 <= #[trigger] place_in(f, e) < 4 && (place_in(f, e) == 3 <==> e
        == turned(f, 2)) by {
        lemma_places(f, e);
    }
    assert forall|a: Dir, b: Dir|
        #[trigger] place_in(f, a) == #[trigger] place_in(f, b) implies a == b by {
        lemma_places(f, a);
        lemma_places(f, b);
    }
    let r = first(p, outside);
    assert(m.first_side(p, Side::Outside) == r);
    let q = first(p.take(3), fresh);
    assert(m.first_fresh(p.take(3)) == q);
    let u = first(p.take(3), unseen);
    assert(m.first_side(p.take(3), Side::Unknown) == u);
    if is_foremost(f, d, out_) {
        assert(out_(d));
        assert(outside(d));
        assert(r is Some);
        assert(outside(r->0));
        assert(out_(r->0));
    }
    let none_outside = forall|e: Dir| !(#[trigger] m.here(e) is Outside);
    if none_outside {
        assert(r is None) by {
            if r is Some {
                assert(outside(r->0));
                assert(m.here(r->0) is Outside);
            }
        }
        if is_foremost(f, d, new_) {
            assert(new_(d));
            assert(fresh(d));
            assert(q is Some);
            assert(fresh(q->0));
            assert(new_(q->0));
        }
        if forall|e: Dir| #[trigger] m.fresh(e) ==> e == turned(f, 2) {
            assert(q is None) by {
                if q is Some {
                    assert(fresh(q->0));
                    assert(m.fresh(q->0));
                }
            }
            if is_foremost(f, d, un_) {
                assert(un_(d));
                assert(unseen(d));
                assert(u is Some);
                assert(unseen(u->0));
                assert(un_(u->0));
            }
            if forall|e: Dir| #[trigger] m.here(e) is Unknown ==> e == turned(f, 2) {
                assert(u is None) by {
                    if u is Some {
                        assert(unseen(u->0));
                        assert(m.here(u->0) is Unknown);
                    }
                }
            }
        }
    }
}

/// With nothing new in sight the duck goes back along its trail, if that way is not shut. If it
/// is, it goes where it has been least, the most preferred way of several, and looks behind only
/// where no way is open.
pub proof fn law_plan_goes_back_when_nothing_is_new(m: Maze, d: Dir)
    requires
        forall|e: Dir| !(#[trigger] m.here(e) is Outside) && !m.fresh(e),
        forall|e: Dir| #[trigger] m.here(e) is Unknown ==> e == turned(m.facing, 2),
    ensures
        ({
            let back = m.trail.len() > 0 && beyond(m.at, d) == m.trail.last();
            let no_way_back = forall|e: Dir|
                m.trail.len() > 0 && #[trigger] beyond(m.at, e) == m.trail.last() ==> m.here(
                    e,
                ) is Wall;
            let given_up = m.trail.len() == 0 && m.explored();
            let least = |e: Dir| m.least_visited(e);
            &&& back && !(m.here(d) is Wall) ==> m.planned() == Plan::Go(d)
            &&& given_up ==> m.planned() is Stuck
            &&& no_way_back && !given_up && is_foremost(m.facing, d, least) ==> m.planned()
                == Plan::Go(d)
            &&& no_way_back && !given_up && (forall|e: Dir| !(#[trigger] m.here(e) is Open)) && d
                == turned(m.facing, 2) && m.here(d) is Unknown ==> m.planned() == Plan::Look(d)
        }),
{
    let f = m.facing;
    let p = preference(f);
    let outside = |e: Dir| m.here(e) == Side::Outside;
    let fresh = |e: Dir| m.fresh(e);
    let unseen = |e: Dir| m.here(e) == Side::Unknown;
    let least = |e: Dir| m.least_visited(e);
    assert(p.take(4) =~= p);
    assert forall|e: Dir| 0 <= #[trigger] place_in(f, e) < 4 && (place_in(f, e) == 3 <==> e
        == turned(f, 2)) by {
        lemma_places(f, e);
    }
    assert forall|a: Dir, b: Dir|
        #[trigger] place_in(f, a) == #[trigger] place_in(f, b) implies a == b by {
        lemma_places(f, a);
        lemma_places(f, b);
    }
    lemma_foremost(f, 4, outside);
    lemma_foremost(f, 3, fresh);
    lemma_foremost(f, 3, unseen);
    lemma_foremost(f, 4, least);
    let r = first(p, outside);
    assert(m.first_side(p, Side::Outside) == r);
    assert(r is None) by {
        if r is Some {
            assert(outside(r->0));
            assert(m.here(r->0) is Outside);
        }
    }
    let q = first(p.take(3), fresh);
    assert(m.first_fresh(p.take(3)) == q);
    assert(q is None) by {
        if q is Some {
            assert(fresh(q->0));
            assert(!(m.here(q->0) is Outside) && !m.fresh(q->0));
        }
    }
    let u = first(p.take(3), unseen);
    assert(m.first_side(p.take(3), Side::Unknown) == u);
    assert(u is None) by {
        if u is Some {
            assert(unseen(u->0));
            assert(m.here(u->0) is Unknown);
        }
    }
    assert(!(m.here(turned(f, 2)) is Outside) && !m.fresh(turned(f, 2)));
    let l = first(p, least);
    assert(m.first_least(p) == l);
    let all = seq![Dir::East, Dir::North, Dir::West, Dir::South];
    let to_back = |e: Dir| beyond(m.at, e) == m.trail.last();
    let k = lemma_first_of(all, to_back);
    if m.trail.len() > 0 {
        assert(m.way_back() == first(all, to_back));
        assert forall|e: Dir| #[trigger] beyond(m.at, e) == m.trail.last() implies m.way_back()
            == Some(e) by {
            assert(to_back(e));
            assert(all[0] == e || all[1] == e || all[2] == e || all[3] == e);
            assert(k < 4);
            assert(to_back(all[k]));
        }
        if k < 4 {
            assert(to_back(all[k]));
            assert(beyond(m.at, all[k]) == m.trail.last());
        }
    }
    if is_foremost(f, d, least) {
        assert(least(d));
        assert(l is Some);
        assert(least(l->0));
    }
    if forall|e: Dir| !(#[trigger] m.here(e) is Open) {
        assert(l is None) by {
            if l is Some {
                assert(least(l->0));
                assert(m.here(l->0) is Open);
            }
        }
    }
}

/// With a deep side seen in this cell, every side is looked at before the duck moves on, left,
/// straight on and right; with none seen it goes as planned.
pub proof fn law_deep_sides_make_it_look_around(q: Quest, d: Dir)
    requires
        q.map.planned() == Plan::Go(d),
    ensures
        q.deep_sides == 0 ==> q.cautious_plan() == Plan::Go(d),
        q.deep_sides > 0 && (exists|e: Dir|
            #[trigger] q.map.here(e) is Unknown && e != turned(q.map.facing, 2))
            ==> (q.cautious_plan() matches Plan::Look(e) && q.map.here(e) is Unknown),
        (forall|e: Dir| #[trigger] q.map.here(e) is Unknown ==> e == turned(q.map.facing, 2))
            ==> q.cautious_plan() == Plan::Go(d),
{
    let m = q.map;
    let f = m.facing;
    let unseen = |e: Dir| m.here(e) == Side::Unknown;
    lemma_foremost(f, 3, unseen);
    let u = first(preference(f).take(3), unseen);
    assert(m.unlooked() == u);
    assert forall|e: Dir| 0 <= #[trigger] place_in(f, e) < 4 && (place_in(f, e) == 3 <==> e
        == turned(f, 2)) by {
        lemma_places(f, e);
    }
    if u is Some {
        assert(unseen(u->0));
        assert(m.here(u->0) is Unknown);
    } else if exists|e: Dir| #[trigger] m.here(e) is Unknown && e != turned(f, 2) {
        let e = choose|e: Dir| #[trigger] m.here(e) is Unknown && e != turned(f, 2);
        assert(place_in(f, e) < 3);
        assert(unseen(e));
    }
}

/// Back in a cell for the fifth time and more the walls are forgotten and the visits are not,
/// if the mission has recoveries left and has not done so since it came there.
pub proof fn law_mission_doubts_its_map_when_it_circles(q: Quest, w: World, limits: Limits)
    requires
        q.phase is Planning,
        q.deep_sides == 0,
        ({
            let n = localised(q.map, q.pos(w), w.yaw as int);
            &&& -150_000_000 <= wrapped(crate::maze::axis_yaw(n.facing) - w.yaw) <= 150_000_000
            &&& n.cell(n.at).visits > 4
        }),
        q.stucks < 3,
        0 <= q.map.moves <= u32::MAX,
        q.forgot_at != Some(q.map.moves as u32),
    ensures
        ({
            let next = q.step(w, limits).quest;
            let n = localised(q.map, q.pos(w), w.yaw as int);
            &&& next.stucks == q.stucks + 1
            &&& next.map.here(Dir::East) is Unknown
            &&& next.map.here(Dir::North) is Unknown
            &&& next.map.here(Dir::West) is Unknown
            &&& next.map.here(Dir::South) is Unknown
            &&& next.map.cell(n.at).visits == n.cell(n.at).visits
            &&& next.phase is Glancing
            &&& !q.step(w, limits).done
        }),
{
    let n = localised(q.map, q.pos(w), w.yaw as int);
    let m = n.forgot_walls();
    crate::exploration::law_forgetting_keeps_the_visits(n, n.at, Dir::East);
    crate::exploration::law_forgetting_keeps_the_visits(n, n.at, Dir::North);
    crate::exploration::law_forgetting_keeps_the_visits(n, n.at, Dir::West);
    crate::exploration::law_forgetting_keeps_the_visits(n, n.at, Dir::South);
    let f = n.facing;
    assert forall|e: Dir| !(#[trigger] m.here(e) is Outside) && m.here(e) is Unknown && !m.fresh(
        e,
    ) by {
        crate::exploration::law_forgetting_keeps_the_visits(n, n.at, e);
    }
    let left = turned(f, 1);
    lemma_places(f, left);
    let un = |e: Dir| m.here(e) is Unknown && e != turned(m.facing, 2);
    assert(is_foremost(m.facing, left, un)) by {
        assert forall|e: Dir| #[trigger] un(e) implies place_in(f, left) <= place_in(f, e) by {
            lemma_places(f, e);
        }
    }
    law_plan_prefers_what_is_new(m, left);
}

/// A walk that has not moved 0.05 m in two and a half seconds is given a nudge to the left, for
/// 0.6 s from then; one that has moved is not, and a walk that starts has not been nudged.
pub proof fn law_stalled_walk_is_nudged(q: Quest, w: World, limits: Limits)
    requires
        q.phase is Walking,
        q.step(w, limits).quest.phase is Walking,
        -4_000_000_000_000_000_000 <= w.odom@[0] <= 4_000_000_000_000_000_000,
        -4_000_000_000_000_000_000 <= w.odom@[1] <= 4_000_000_000_000_000_000,
        -4_000_000_000_000_000_000 <= q.odom_fix.0 <= 4_000_000_000_000_000_000,
        -4_000_000_000_000_000_000 <= q.odom_fix.1 <= 4_000_000_000_000_000_000,
    ensures
        ({
            let leg = q.step(w, limits);
            let (dx, dy) = (q.pos(w).0 - q.checked.0, q.pos(w).1 - q.checked.1);
            let moved = dx * dx + dy * dy >= 2_500_000_000_000_000;
            let starts = w.t - q.phase_since < 100_000_000;
            let due = !starts && w.t - q.checked_at > 2_500_000_000;
            &&& starts ==> !leg.quest.kicked && leg.quest.checked_at == w.t
            &&& due && !moved ==> leg.quest.kicked && leg.quest.checked_at == w.t
            &&& due && moved ==> leg.quest.kicked == q.kicked && leg.quest.checked_at == w.t
            &&& !starts && !due ==> leg.quest.kicked == q.kicked && leg.quest.checked_at
                == q.checked_at
            &&& !starts && q.kicked && w.t - q.checked_at < 600_000_000 ==> leg.intents.twist[2]
                == 600_000_000
        }),
{
    assert(50_000_000int * 50_000_000int == 2_500_000_000_000_000);
}

/// A behaviour starts as new: now, having said and done nothing, without a plan, and a mission
/// at the entrance with everything still to find out.
pub proof fn law_behaviours_start_as_new(kind: Kind, w: World, seed: u64)
    ensures
        ({
            let a = Act::entered(kind, w, seed);
            let q = a.mission;
            &&& a.kind == kind
            &&& a.since == w.t
            &&& a.head_at == w.t
            &&& !a.fired
            &&& a.phase == 0
            &&& a.plan is None
            &&& a.planned_at is None
            &&& !(kind is Greet) ==> !a.stranger
            &&& !(kind is Wander) && !(kind is TurnInPlace) ==> a.target_yaw == w.yaw
            &&& !(kind is LookAround) ==> a.head_target == seq![0i64, 0, 0, 0]
            &&& q.phase is Planning
            &&& q.map == Maze::entrance()
            &&& q.odom_fix == (0i64, 0i64)
            &&& q.stucks == 0
            &&& q.deep_sides == 0
            &&& q.retries == 0
            &&& !q.exiting
            &&& q.go is None
            &&& q.forgot_at is None
        }),
{
}

/// A mission that is stuck doubts a little more each time: first the sides of the cell it stands
/// in, then every side it knows, and after the third time it gives up; where it has been, it
/// remembers.
pub proof fn law_stuck_mission_doubts_step_by_step(
    q: Quest,
    w: World,
    limits: Limits,
    c: (int, int),
    d: Dir,
)
    requires
        q.phase is Planning,
        q.deep_sides == 0,
        ({
            let n = localised(q.map, q.pos(w), w.yaw as int);
            &&& -150_000_000 <= wrapped(crate::maze::axis_yaw(n.facing) - w.yaw) <= 150_000_000
            &&& n.cell(n.at).visits <= 4
            &&& n.planned() is Stuck
        }),
    ensures
        ({
            let leg = q.step(w, limits);
            let next = leg.quest;
            let n = localised(q.map, q.pos(w), w.yaw as int);
            &&& q.stucks == 0 ==> {
                &&& next.map.here(d) is Unknown
                &&& c != n.at ==> next.map.cell(c) == n.cell(c)
            }
            &&& q.stucks == 1 || q.stucks == 2 ==> next.map.cell(c).looks(d) is Unknown
            &&& q.stucks < 3 ==> next.stucks == q.stucks + 1 && next.map.trail.len() == 0
                && !leg.done
            &&& q.stucks >= 3 ==> leg.done && next.map == n
            &&& next.map.cell(c).visits == n.cell(c).visits
            &&& next.map.at == n.at
            &&& next.map.path == n.path
            &&& leg.intents.sound is None
        }),
{
    let n = localised(q.map, q.pos(w), w.yaw as int);
    crate::exploration::law_forgetting_keeps_the_visits(n, c, d);
}

/// Two sides open further than two and a half metres, three moves in, and the mission is out: it
/// says so and is done.
pub proof fn law_open_country_ends_the_mission(q: Quest, w: World, limits: Limits)
    requires
        q.phase is Planning,
        ({
            let n = localised(q.map, q.pos(w), w.yaw as int);
            -150_000_000 <= wrapped(crate::maze::axis_yaw(n.facing) - w.yaw) <= 150_000_000
        }),
    ensures
        q.deep_sides >= 2 && q.map.moves >= 3 ==> q.step(w, limits).done && q.step(
            w,
            limits,
        ).intents.sound == Some(SoundTag::Wheee),
        q.deep_sides < 2 || q.map.moves < 3 ==> q.step(w, limits).intents.sound is None,
{
}

/// A glance that sees further than two and a half metres counts as one deep side, up to two, and
/// no other does.
pub proof fn law_deep_sides_are_counted(q: Quest, w: World, limits: Limits, d: Dir)
    requires
        q.phase is Glancing,
        q.look == Some(d),
        -1 <= side_angle(q.map, d) <= 1,
        q.step(w, limits).quest.phase is Planning,
    ensures
        ({
            let bin = bin_at(side_angle(q.map, d));
            let deep = is_recent(w, bin) && w.radar.far@[bin] > 2_500_000_000;
            let next = q.step(w, limits).quest;
            &&& deep && q.deep_sides < 2 ==> next.deep_sides == q.deep_sides + 1
            &&& !deep || q.deep_sides >= 2 ==> next.deep_sides == q.deep_sides
        }),
{
}

/// Through what looked like the exit, the first open side is counted already; anywhere else the
/// count starts again.
pub proof fn law_exit_is_believed_after_a_look(q: Quest, w: World, limits: Limits, d: Dir)
    requires
        q.phase is Walking,
        q.go == Some(d),
        q.step(w, limits).quest.phase is Planning,
    ensures
        ({
            let next = q.step(w, limits).quest;
            let home = localised(q.map, q.pos(w), w.yaw as int).at == beyond(q.map.at, d);
            &&& home && q.exiting ==> next.deep_sides == 1 && !next.exiting
            &&& home && !q.exiting ==> next.deep_sides == 0 && !next.exiting
            &&& !home ==> next.deep_sides == 0 && next.exiting == q.exiting
            &&& next.phase_since == w.t
        }),
{
}

/// `v`, but no less than `lo` and no more than `hi`.
pub open spec fn between(v: int, lo: int, hi: int) -> int {
    if v <= lo {
        lo
    } else if v >= hi {
        hi
    } else {
        v
    }
}

/// A walk steers by its heading, half as much again, and by half of what it is off the middle, a
/// quarter at most; it never turns faster than 0.6 rad/s, and looks a little down.
pub proof fn law_walk_steers_by_heading_and_middle(q: Quest, w: World, limits: Limits, d: Dir)
    requires
        q.phase is Walking,
        q.go == Some(d),
        q.step(w, limits).quest.phase is Walking,
        !q.step(w, limits).quest.kicked,
    ensures
        ({
            let i = q.step(w, limits).intents;
            let err = wrapped(q.target_yaw - w.yaw);
            let off = edge_range(q.map, turned(d, 1), q.pos(w)) - edge_range(
                q.map,
                turned(d, 3),
                q.pos(w),
            );
            &&& i.twist[2] == between(
                3 * err / 2 + between(off / 2, -250_000_000, 250_000_000),
                -600_000_000,
                600_000_000,
            )
            &&& i.twist[1] == 0
            &&& i.head->0[1].base == 100_000_000
            &&& i.head->0[2].base == 0
        }),
{
}

/// A mission begins in the doorway of a maze, facing in: walls behind it and to both sides, and
/// what is ahead not yet seen; a map without a doorway knows nothing of its first cell.
pub proof fn law_mission_begins_in_the_doorway(d: Dir, c: (int, int))
    ensures
        ({
            let m = Maze::entrance();
            &&& m.at == (0int, 0int)
            &&& m.facing is East
            &&& m.here(d) is Unknown <==> d is East
            &&& !(d is East) ==> m.here(d) is Wall
            &&& m.planned() == Plan::Look(Dir::East)
            &&& m.moves == 0 && m.trail.len() == 0 && m.path == seq![(0int, 0int)]
            &&& c != (0int, 0int) ==> m.cell(c).visits == 0 && m.cell(c).looks(d) is Unknown
            &&& m.cell((0, 0)).visits == 1
        }),
        Maze::start().here(d) is Unknown,
        Maze::start().cell((0, 0)).visits == 1,
        Maze::start().at == (0int, 0int),
{
    let m = Maze::entrance();
    law_plan_prefers_what_is_new(m, Dir::East);
    let ahead_unseen = |e: Dir| m.here(e) is Unknown && e != turned(m.facing, 2);
    assert(forall|e: Dir| #[trigger] m.here(e) is Unknown ==> e is East);
    assert(is_foremost(m.facing, Dir::East, ahead_unseen));
}

/// A side is what its two cells say of it, the more open of them: outside before open, open
/// before a wall, and unknown only if neither knows.
pub proof fn law_sides_are_what_either_cell_knows(m: Maze, c: (int, int), d: Dir)
    ensures
        ({
            let (one, two) = (m.cell(c).looks(d), m.cell(beyond(c, d)).looks(turned(d, 2)));
            let e = m.edge(c, d);
            &&& e == one || e == two
            &&& one is Outside || two is Outside <==> e is Outside
            &&& e is Wall ==> !(one is Open) && !(two is Open)
            &&& e is Unknown ==> one is Unknown && two is Unknown
        }),
{
}

} // verus!

//! What the mission is for: it looks where it looks, believes what it sees there, measures itself
//! by the walls, turns to where it goes and walks there in the middle of the way.

use vstd::arithmetic::div_mod::lemma_fundamental_div_mod;
use vstd::prelude::*;

use crate::behaviours::Limits;
use crate::mapping::law_rounding_is_to_the_nearest;
use crate::maze::{axis_yaw, beyond, heading, quarter, snapped, turned, Dir, Maze, Plan, Side};
use crate::mission::{edge_range, glance_bin, judged, localised, reading, Quest};
use crate::units::{rounded, wrapped, FRAC_PI_2};
use crate::world::World;

verus! {

/// The angle from the body to the side looked at, in quarter turns to the left.
pub open spec fn side_angle(m: Maze, d: Dir) -> int {
    let q = (quarter(d) - quarter(m.facing)) % 4;
    if q == 3 {
        -1
    } else {
        q
    }
}

/// The radar bin whose middle lies at that angle: thirty degrees a bin, the fourth dead ahead.
pub open spec fn bin_at(angle: int) -> int {
    3 + 3 * angle
}

/// The bin was covered within the last three seconds.
pub open spec fn is_recent(w: World, bin: int) -> bool {
    w.radar.at@[bin] matches Some(t) && w.t - t <= 3_000_000_000
}

/// How far the side is that the duck looks at: to the edge of its cell, at least 0.05 m.
pub open spec fn side_range(q: Quest, w: World, d: Dir) -> int {
    let e = edge_range(q.map, d, q.pos(w));
    if e < 50_000_000 {
        50_000_000
    } else {
        e
    }
}

/// What is to be seen in a bin of a side that far: a wall near the edge of the cell, or past it
/// an opening, or nothing at all within reach, which is the outside.
pub open spec fn is_wall_seen(w: World, bin: int, far: int) -> bool {
    ||| w.radar.axis@[bin] matches Some(n) && n <= far + 300_000_000
    ||| w.radar.axis@[bin] is Some && w.radar.far@[bin] <= far + 450_000_000
    ||| w.radar.axis@[bin] is None && w.radar.far@[bin] <= far + 450_000_000
        && w.radar.far@[bin] < 3_990_000_000
}

pub open spec fn is_outside_seen(w: World, bin: int) -> bool {
    w.radar.axis@[bin] is None && w.radar.far@[bin] >= 3_990_000_000
}

proof fn lemma_side(m: Maze, d: Dir)
    requires
        -1 <= side_angle(m, d) <= 1,
    ensures
        glance_bin(m, d) == bin_at(side_angle(m, d)),
        side_angle(m, d) == 1 <==> d == turned(m.facing, 1),
        side_angle(m, d) == -1 <==> d == turned(m.facing, 3),
        0 <= glance_bin(m, d) <= 6,
{
}

proof fn lemma_noted(m: Maze, d: Dir, side: Side)
    ensures
        m.noted(d, side).here(d) == side,
        m.noted(d, side).at == m.at,
{
    assert(beyond(m.at, d) != m.at);
}

proof fn lemma_judged(w: World, bin: int, far: int)
    requires
        0 <= bin <= 6,
        far >= 0,
    ensures
        ({
            let side = judged(reading(w, bin).0, reading(w, bin).1, far);
            &&& is_outside_seen(w, bin) ==> side is Outside
            &&& !is_outside_seen(w, bin) && is_wall_seen(w, bin, far) ==> side is Wall
            &&& !is_outside_seen(w, bin) && !is_wall_seen(w, bin, far) ==> side is Open
        }),
{
}

/// A glance is judged by the bin that covers the side it looks at: a wall seen there, at the
/// angle the head is turned to, is recorded as that side, and so are an opening and the outside.
/// The head turns left for the left side, right for the right and not for the one ahead.
pub proof fn law_glance_reads_the_side_it_looks_at(q: Quest, w: World, limits: Limits, d: Dir)
    requires
        q.phase is Glancing,
        q.look == Some(d),
        -1 <= side_angle(q.map, d) <= 1,
        w.t - q.phase_since >= 900_000_000,
        is_recent(w, bin_at(side_angle(q.map, d))),
    ensures
        ({
            let leg = q.step(w, limits);
            let angle = side_angle(q.map, d);
            let bin = bin_at(angle);
            let far = side_range(q, w, d);
            let seen = leg.quest.map.here(d);
            let yaw = leg.intents.head->0[2].base;
            &&& leg.quest.phase is Planning
            &&& leg.quest.map.at == q.map.at
            &&& is_outside_seen(w, bin) ==> seen is Outside
            &&& !is_outside_seen(w, bin) && is_wall_seen(w, bin, far) ==> seen is Wall
            &&& !is_outside_seen(w, bin) && !is_wall_seen(w, bin, far) ==> seen is Open
            &&& yaw == 1_400_000_000 * angle
            &&& leg.intents.twist@ == seq![0i64, 0, 0]
        }),
{
    let leg = q.step(w, limits);
    assert(leg == q.glancing(w));
    let bin = bin_at(side_angle(q.map, d));
    let far = side_range(q, w, d);
    lemma_side(q.map, d);
    lemma_judged(w, bin, far);
    let side = judged(reading(w, bin).0, reading(w, bin).1, far);
    assert(q.verdict(w, d) == Some(side));
    lemma_noted(q.map, d, side);
    assert(leg.intents.twist@ =~= seq![0i64, 0, 0]);
}

/// Until the head has settled nothing is recorded, and without a recent reading nothing for two
/// seconds more; then the side is taken for a wall. The head is held to the side meanwhile.
pub proof fn law_glance_waits_for_a_reading(q: Quest, w: World, limits: Limits, d: Dir)
    requires
        q.phase is Glancing,
        q.look == Some(d),
        -1 <= side_angle(q.map, d) <= 1,
        w.t - q.phase_since < 900_000_000 || !is_recent(w, bin_at(side_angle(q.map, d))),
    ensures
        ({
            let leg = q.step(w, limits);
            &&& w.t - q.phase_since <= 2_900_000_000 ==> leg.quest == q
            &&& w.t - q.phase_since > 2_900_000_000 ==> leg.quest.map.here(d) is Wall
                && leg.quest.phase is Planning
            &&& leg.quest.odom_fix == q.odom_fix
            &&& leg.intents.head->0[2].base == 1_400_000_000 * side_angle(q.map, d)
        }),
{
    let leg = q.step(w, limits);
    assert(leg == q.glancing(w));
    lemma_side(q.map, d);
    if w.t - q.phase_since > 2_900_000_000 {
        assert(q.verdict(w, d) == Some(Side::Wall));
        lemma_noted(q.map, d, Side::Wall);
        assert(leg.quest.odom_fix == q.ruled(w, d, Side::Wall));
    } else {
        assert(q.verdict(w, d) is None);
    }
}

/// A wall is a ruler: after one is seen, the odometry is corrected so that the duck stands just
/// as far from that edge of its cell as the wall was seen; along the other axis it stays.
pub proof fn law_walls_correct_the_odometry(q: Quest, w: World, limits: Limits, d: Dir)
    requires
        q.phase is Glancing,
        q.look == Some(d),
        -1 <= side_angle(q.map, d) <= 1,
        w.t - q.phase_since >= 900_000_000,
        is_recent(w, bin_at(side_angle(q.map, d))),
        q.step(w, limits).quest.map.here(d) is Wall,
        edge_range(q.map, d, q.pos(w)) >= 50_000_000,
        w.radar.axis@[bin_at(side_angle(q.map, d))] is Some,
        ({
            let near = w.radar.axis@[bin_at(side_angle(q.map, d))]->0;
            let e = edge_range(q.map, d, q.pos(w));
            near < 900_000_000 && -250_000_000 <= near - e <= 250_000_000
        }),
        -4_000_000_000_000_000_000 <= w.odom@[0] <= 4_000_000_000_000_000_000,
        -4_000_000_000_000_000_000 <= w.odom@[1] <= 4_000_000_000_000_000_000,
        -4_000_000_000_000_000_000 <= q.odom_fix.0 <= 4_000_000_000_000_000_000,
        -4_000_000_000_000_000_000 <= q.odom_fix.1 <= 4_000_000_000_000_000_000,
    ensures
        ({
            let next = q.step(w, limits).quest;
            let near = w.radar.axis@[bin_at(side_angle(q.map, d))]->0;
            &&& edge_range(q.map, d, next.pos(w)) == near
            &&& d is East || d is West ==> next.odom_fix.1 == q.odom_fix.1
            &&& d is North || d is South ==> next.odom_fix.0 == q.odom_fix.0
        }),
{
    let leg = q.step(w, limits);
    assert(leg == q.glancing(w));
    let bin = bin_at(side_angle(q.map, d));
    lemma_side(q.map, d);
    let side = judged(reading(w, bin).0, reading(w, bin).1, side_range(q, w, d));
    assert(q.verdict(w, d) == Some(side));
    lemma_noted(q.map, d, side);
    assert(leg.quest.odom_fix == q.ruled(w, d, side));
    law_position_is_corrected_odometry(q, w);
    law_position_is_corrected_odometry(leg.quest, w);
}

/// A wall a long way from where it should be moves the odometry by a quarter of a metre and no
/// more; what is no wall, or is further than 0.9 m, does not move it.
pub proof fn law_walls_correct_the_odometry_a_little(q: Quest, w: World, limits: Limits, d: Dir)
    requires
        q.phase is Glancing,
        q.look == Some(d),
        -1 <= side_angle(q.map, d) <= 1,
        q.step(w, limits).quest.phase is Planning,
        -4_000_000_000_000_000_000 <= w.odom@[0] <= 4_000_000_000_000_000_000,
        -4_000_000_000_000_000_000 <= w.odom@[1] <= 4_000_000_000_000_000_000,
        -4_000_000_000_000_000_000 <= q.odom_fix.0 <= 4_000_000_000_000_000_000,
        -4_000_000_000_000_000_000 <= q.odom_fix.1 <= 4_000_000_000_000_000_000,
    ensures
        ({
            let bin = bin_at(side_angle(q.map, d));
            let next = q.step(w, limits).quest;
            let e = edge_range(q.map, d, q.pos(w));
            let after = edge_range(q.map, d, next.pos(w));
            let wall = next.map.here(d) is Wall && is_recent(w, bin);
            let near = w.radar.axis@[bin];
            &&& !wall || near is None || near->0 >= 900_000_000 ==> next.odom_fix == q.odom_fix
            &&& wall && e >= 50_000_000 && near is Some && near->0 < 900_000_000 && near->0 - e
                > 250_000_000 ==> after == e + 250_000_000
            &&& wall && e >= 50_000_000 && near is Some && near->0 < 900_000_000 && near->0 - e
                < -250_000_000 ==> after == e - 250_000_000
        }),
{
    let leg = q.step(w, limits);
    assert(leg == q.glancing(w));
    let bin = bin_at(side_angle(q.map, d));
    lemma_side(q.map, d);
    assert(glance_bin(q.map, d) == bin);
    assert(q.verdict(w, d) is Some);
    let side = q.verdict(w, d)->0;
    lemma_noted(q.map, d, side);
    assert(leg.quest.map.here(d) == side);
    assert(leg.quest.odom_fix == q.ruled(w, d, side));
    law_position_is_corrected_odometry(q, w);
    law_position_is_corrected_odometry(leg.quest, w);
}

/// The position is the odometry with the correction added.
pub proof fn law_position_is_corrected_odometry(q: Quest, w: World)
    requires
        -4_100_000_000_000_000_000 <= w.odom@[0] <= 4_100_000_000_000_000_000,
        -4_100_000_000_000_000_000 <= w.odom@[1] <= 4_100_000_000_000_000_000,
        -4_100_000_000_000_000_000 <= q.odom_fix.0 <= 4_100_000_000_000_000_000,
        -4_100_000_000_000_000_000 <= q.odom_fix.1 <= 4_100_000_000_000_000_000,
    ensures
        q.pos(w) == (w.odom@[0] + q.odom_fix.0, w.odom@[1] + q.odom_fix.1),
{
}

/// In the middle of a cell all four edges are 0.4 m away. A step towards one brings it nearer by
/// as much, takes the opposite one away by as much and leaves the two others.
pub proof fn law_edges_are_around_the_duck(m: Maze, d: Dir, pos: (int, int), by: int)
    ensures
        edge_range(m, d, (m.at.0 * 800_000_000, m.at.1 * 800_000_000)) == 400_000_000,
        ({
            let to = (
                pos.0 + by * (beyond((0, 0), d).0),
                pos.1 + by * (beyond((0, 0), d).1),
            );
            &&& edge_range(m, d, to) == edge_range(m, d, pos) - by
            &&& edge_range(m, turned(d, 2), to) == edge_range(m, turned(d, 2), pos) + by
            &&& edge_range(m, turned(d, 1), to) == edge_range(m, turned(d, 1), pos)
            &&& edge_range(m, turned(d, 3), to) == edge_range(m, turned(d, 3), pos)
        }),
{
    assert(by * 1 == by && by * 0 == 0 && by * -1 == -by);
}

/// The neighbour in a direction lies where its yaw points: along the first axis, a quarter turn
/// to the left of it, behind, a quarter turn to the right; and directions have different yaws.
pub proof fn law_directions_lie_where_they_point(c: (int, int), d: Dir, e: Dir)
    ensures
        axis_yaw(d) == 0 <==> beyond(c, d) == (c.0 + 1, c.1),
        axis_yaw(d) == 1_570_796_327 <==> beyond(c, d) == (c.0, c.1 + 1),
        axis_yaw(d) == 3_141_592_654 <==> beyond(c, d) == (c.0 - 1, c.1),
        axis_yaw(d) == -1_570_796_327 <==> beyond(c, d) == (c.0, c.1 - 1),
        axis_yaw(d) == axis_yaw(e) ==> d == e,
        wrapped(axis_yaw(turned(d, 1)) - axis_yaw(d)) == 1_570_796_327,
        wrapped(axis_yaw(turned(d, 3)) - axis_yaw(d)) == -1_570_796_327,
{
}

proof fn lemma_snapped(v: int)
    requires
        -1_000_000_000_000_000_000 <= v <= 1_000_000_000_000_000_000,
    ensures
        -400_000_000 <= v - 800_000_000 * snapped(v) <= 400_000_000,
{
    law_rounding_is_to_the_nearest(v, 800_000_000);
}

/// The duck is in the cell whose centre is nearest, and faces the axis that is nearest: each
/// within half of what lies between two.
pub proof fn law_localising_is_to_the_nearest(m: Maze, pos: (int, int), yaw: int)
    requires
        -1_000_000_000_000_000_000 <= pos.0 <= 1_000_000_000_000_000_000,
        -1_000_000_000_000_000_000 <= pos.1 <= 1_000_000_000_000_000_000,
    ensures
        ({
            let n = localised(m, pos, yaw);
            let off = wrapped(yaw - axis_yaw(n.facing));
            &&& -400_000_000 <= pos.0 - 800_000_000 * n.at.0 <= 400_000_000
            &&& -400_000_000 <= pos.1 - 800_000_000 * n.at.1 <= 400_000_000
            &&& -785_398_164 <= off <= 785_398_164
            &&& n.cells == m.cells
            &&& n.trail == m.trail
            &&& n.moves == m.moves
            &&& n.path == m.path
        }),
{
    lemma_snapped(pos.0);
    lemma_snapped(pos.1);
    let r = rounded(yaw, FRAC_PI_2 as int);
    law_rounding_is_to_the_nearest(yaw, FRAC_PI_2 as int);
    let e = yaw - 1_570_796_327 * r;
    let d = heading(r);
    lemma_fundamental_div_mod(r, 4);
    let turns = r / 4 + (if d is South {
        1int
    } else {
        0
    });
    assert(yaw - axis_yaw(d) == e + 6_283_185_308 * turns);
    lemma_wrap_off(e, turns);
}

proof fn lemma_wrap_off(e: int, turns: int)
    requires
        -1_000_000_000 <= e <= 1_000_000_000,
    ensures
        wrapped(e + 6_283_185_308 * turns) == e,
{
    let x = e + 6_283_185_308 * turns + 3_141_592_654;
    vstd::arithmetic::div_mod::lemma_fundamental_div_mod_converse(
        x,
        6_283_185_308,
        turns,
        e + 3_141_592_654,
    );
}

/// Planning squares up to the nearest axis before anything else, where the body is more than
/// 0.15 rad off it.
pub proof fn law_mission_squares_up_first(q: Quest, w: World, limits: Limits)
    requires
        q.phase is Planning,
    ensures
        ({
            let leg = q.step(w, limits);
            let n = localised(q.map, q.pos(w), w.yaw as int);
            let off = wrapped(axis_yaw(n.facing) - w.yaw);
            off > 150_000_000 || off < -150_000_000 ==> {
                &&& leg.quest.phase is Turning
                &&& leg.quest.go is None
                &&& leg.quest.target_yaw == axis_yaw(n.facing)
                &&& leg.quest.map == n
                &&& !leg.done
            }
        }),
{
}

/// The plan is carried out: for a move the duck turns to the way of it, for a glance it looks
/// there, and it turns round to look behind.
pub proof fn law_mission_does_what_it_plans(q: Quest, w: World, limits: Limits)
    requires
        q.phase is Planning,
        q.deep_sides == 0,
        ({
            let n = localised(q.map, q.pos(w), w.yaw as int);
            &&& -150_000_000 <= wrapped(axis_yaw(n.facing) - w.yaw) <= 150_000_000
            &&& n.cell(n.at).visits <= 4
        }),
    ensures
        ({
            let leg = q.step(w, limits);
            let n = localised(q.map, q.pos(w), w.yaw as int);
            let next = leg.quest;
            match n.planned() {
                Plan::Go(d) => {
                    &&& next.phase is Turning
                    &&& next.go == Some(d)
                    &&& next.target_yaw == axis_yaw(d)
                    &&& !next.exiting
                    &&& next.map == n
                    &&& !leg.done
                },
                Plan::Exit(d) => {
                    &&& next.phase is Turning
                    &&& next.go == Some(d)
                    &&& next.target_yaw == axis_yaw(d)
                    &&& next.exiting
                    &&& next.map == n
                    &&& !leg.done
                },
                Plan::Look(d) => {
                    &&& d != turned(n.facing, 2) ==> next.phase is Glancing && next.look == Some(d)
                    &&& d == turned(n.facing, 2) ==> next.phase is Turning && next.go is None
                        && next.target_yaw == axis_yaw(d)
                    &&& next.map == n
                    &&& !leg.done
                },
                Plan::Stuck => {
                    &&& next.stucks > q.stucks || leg.done
                    &&& leg.done <==> q.stucks >= 3
                },
            }
        }),
{
}

/// A turn goes the way its target lies: to the left in place, to the right as an arc ahead, and
/// almost round again to the left. Within 0.12 rad it is over, and so it is after fourteen
/// seconds: a walk follows if one was planned, else planning.
pub proof fn law_turn_ends_at_its_target(q: Quest, w: World, limits: Limits)
    requires
        q.phase is Turning,
    ensures
        ({
            let leg = q.step(w, limits);
            let err = wrapped(q.target_yaw - w.yaw);
            let late = w.t - q.phase_since > 14_000_000_000;
            let there = -120_000_000 < err < 120_000_000 || late;
            let t = leg.intents.twist;
            &&& there && q.go is Some ==> leg.quest.phase is Walking
            &&& there && q.go is None ==> leg.quest.phase is Planning
            &&& there ==> t[0] == 0 && t[2] == 0 && leg.quest.phase_since == w.t
            &&& !there ==> leg.quest == q
            &&& !there && err > 0 ==> t[0] == 0 && t[2] == 1_000_000_000
            &&& !there && -2_600_000_000 <= err <= 0 ==> t[0] == limits.linear && t[2]
                == -600_000_000
            &&& !there && err < -2_600_000_000 ==> t[0] == 0 && t[2] == 1_000_000_000
            &&& leg.quest.map == q.map
            &&& leg.quest.go == q.go
        }),
{
}

/// Something stands within 0.3 m ahead, across the whole of the bin dead ahead.
pub open spec fn is_shut(w: World) -> bool {
    &&& is_recent(w, 3)
    &&& w.radar.far@[3] < 700_000_000
    &&& w.radar.axis@[3] matches Some(r)
    &&& r < 300_000_000
}

/// Something stands within 0.6 m ahead, across the whole of the bin dead ahead.
pub open spec fn is_narrow(w: World) -> bool {
    &&& is_recent(w, 3)
    &&& w.radar.far@[3] < 700_000_000
    &&& w.radar.axis@[3] matches Some(r)
    &&& r < 600_000_000
}

/// How far it is to the centre of the next cell in direction `d`.
pub open spec fn left_to_go(q: Quest, w: World, d: Dir) -> int {
    edge_range(q.map, d, q.pos(w)) + 400_000_000
}

/// A walk goes on until the next cell's centre is within 0.06 m, the way has been shut for
/// 0.3 s, or twelve seconds are over; it is at full speed, but at three fifths in front of
/// something, and straight on otherwise.
pub proof fn law_walk_goes_to_the_next_cell(q: Quest, w: World, limits: Limits, d: Dir)
    requires
        q.phase is Walking,
        q.go == Some(d),
        limits.linear >= 0,
    ensures
        ({
            let leg = q.step(w, limits);
            let t = leg.intents.twist;
            let shut = is_shut(w) && (q.blocked_since matches Some(s) && w.t - s >= 300_000_000);
            let over = left_to_go(q, w, d) <= 60_000_000 || shut || w.t - q.phase_since
                > 12_000_000_000;
            &&& over ==> leg.quest.phase is Planning && t[0] == 0 && t[2] == 0
            &&& !over ==> leg.quest.phase is Walking && leg.quest.map == q.map && leg.quest.go
                == q.go
            &&& !over && !is_narrow(w) ==> t[0] == limits.linear
            &&& !over && is_narrow(w) ==> 3 * limits.linear <= 5 * t[0] < 3 * limits.linear + 5
            &&& !over && is_shut(w) ==> leg.quest.blocked_since is Some
            &&& !is_shut(w) && !over ==> leg.quest.blocked_since is None
        }),
{
}

/// The walk steers for its heading and for the middle of the way: to the left if the heading
/// lies to the left and the duck is no further left than the middle, to the right if the other
/// way round; only a gait that has not started gets a nudge to the left instead.
pub proof fn law_walk_keeps_to_the_middle(q: Quest, w: World, limits: Limits, d: Dir)
    requires
        q.phase is Walking,
        q.go == Some(d),
        q.step(w, limits).quest.phase is Walking,
        !q.step(w, limits).quest.kicked,
    ensures
        ({
            let yaw = q.step(w, limits).intents.twist[2];
            let err = wrapped(q.target_yaw - w.yaw);
            let room_left = edge_range(q.map, turned(d, 1), q.pos(w));
            let room_right = edge_range(q.map, turned(d, 3), q.pos(w));
            &&& err > 0 && room_left >= room_right ==> yaw > 0
            &&& err >= 0 && room_left > room_right + 1 ==> yaw > 0
            &&& err < 0 && room_left <= room_right ==> yaw < 0
            &&& err <= 0 && room_left < room_right ==> yaw < 0
            &&& err == 0 && room_left == room_right ==> yaw == 0
            &&& -600_000_000 <= yaw <= 600_000_000
        }),
{
}

/// A walk that ends in the cell it was for is a move there; one that was shut out, or has failed
/// three times, leaves a wall on the map where it had seen an opening; any other is tried again.
pub proof fn law_walk_lands_where_it_is(q: Quest, w: World, limits: Limits, d: Dir)
    requires
        q.phase is Walking,
        q.go == Some(d),
        q.step(w, limits).quest.phase is Planning,
        0 <= q.retries <= 2,
    ensures
        ({
            let next = q.step(w, limits).quest;
            let here = localised(q.map, q.pos(w), w.yaw as int);
            let shut = is_shut(w) && (q.blocked_since matches Some(s) && w.t - s >= 300_000_000);
            let home = here.at == beyond(q.map.at, d);
            &&& home ==> {
                &&& next.map.moves == q.map.moves + 1
                &&& next.map.at == here.at
                &&& next.map.path == q.map.path.push(here.at)
                &&& next.map.facing == d
                &&& next.retries == 0
                &&& !next.exiting || q.exiting
            }
            &&& !home ==> next.map.moves == q.map.moves && next.map.at == here.at
                && next.map.path == q.map.path
            &&& !home && (shut || q.retries == 2) ==> next.map.cell(q.map.at).looks(d) is Wall
                && next.retries == 0
            &&& !home && !shut && q.retries < 2 ==> next.map.cells == q.map.cells && next.retries
                == q.retries + 1
            &&& next.go is None
        }),
{
}

} // verus!

//! What holds of the brain as a whole: when it is silent, whom it yields to, what outbids
//! what, how long things last, and what it never commands.

use vstd::prelude::*;

use crate::active::{is_bearing, Act, Outcome};
use crate::arbiter::{cooling, differs, head_strays, rank, Mind, Status, YIELD_S};
use crate::behaviours::{
    alarmed, applies, bid, jitter, points, scored, share, Intents, Kind, Level, Limits,
};
use crate::dice::STEPS;
use crate::drives::{Drives, ONE};
use crate::mission::{localised, Quest};
use crate::proto::{EventKind, RobotEvent, Skill, SoundTag};
use crate::units::magnitude;
use crate::world::{Novelty, Senses, World, FADE_S};

verus! {

/// While the robot is not standing nothing bids but a nap, and a nap does not either while
/// someone holds it, it is finding its way home, or it is down.
pub proof fn law_only_nap_bids_while_down(
    kind: Kind,
    w: World,
    d: Drives,
    prev_center: Option<i64>,
    seed: u64,
)
    requires
        !w.is_standing(),
    ensures
        !(kind is Nap) ==> scored(kind, w, d, prev_center, seed) is None,
        w.fallen || w.limp || w.policy@ == "held"@ || w.policy@ == "homing"@ ==> scored(
            kind,
            w,
            d,
            prev_center,
            seed,
        ) is None,
{
}

/// A stale depth frame is no evidence: nothing that walks, turns or picks bids on it, and only
/// a noise startles.
pub proof fn law_stale_frame_is_no_evidence(w: World, d: Drives, prev_center: Option<i64>)
    requires
        !w.obstacles.is_fresh(),
    ensures
        !applies(Kind::Wander, w, d, prev_center),
        !applies(Kind::TurnInPlace, w, d, prev_center),
        !applies(Kind::Zoomies, w, d, prev_center),
        !applies(Kind::GroundPick, w, d, prev_center),
        !applies(Kind::Maze, w, d, prev_center),
        applies(Kind::Startle, w, d, prev_center) ==> alarmed(w),
{
}

proof fn lemma_share(h: int, drive: int)
    requires
        0 <= h <= 60,
        0 <= drive <= ONE,
    ensures
        0 <= share(h, drive) <= points(h),
{
    assert(0 <= h * drive * STEPS <= h * ONE * STEPS) by (nonlinear_arith)
        requires
            0 <= h,
            0 <= drive <= ONE,
            STEPS == 4_503_599_627_370_496,
    ;
}

proof fn lemma_share_below(h: int, drive: int, most: int)
    requires
        0 < h <= 60,
        0 <= drive < most,
    ensures
        share(h, drive) < share(h, most),
{
    assert(h * drive * STEPS < h * most * STEPS) by (nonlinear_arith)
        requires
            0 < h,
            0 <= drive < most,
            STEPS == 4_503_599_627_370_496,
    ;
}

proof fn lemma_jitter(h: int, k: int)
    requires
        0 < h <= 60,
        0 <= k < STEPS,
    ensures
        0 <= jitter(h, k) < points(h),
{
    assert(0 <= h * ONE * k < h * ONE * STEPS) by (nonlinear_arith)
        requires
            0 < h,
            0 <= k < STEPS,
            ONE == 36_000_000_000_000,
    ;
}

proof fn lemma_points(h: int)
    ensures
        points(h) == h * 162_129_586_585_337_856_000_000_000_000,
{
    assert(h * ONE * STEPS == h * 162_129_586_585_337_856_000_000_000_000) by (nonlinear_arith)
        requires
            ONE == 36_000_000_000_000,
            STEPS == 4_503_599_627_370_496,
    ;
}

/// Points for the hundredths that the bids are made of.
proof fn lemma_all_points()
    ensures
        forall|h: int| #[trigger] points(h) == h * 162_129_586_585_337_856_000_000_000_000,
{
    assert forall|h: int| #[trigger]
        points(h) == h * 162_129_586_585_337_856_000_000_000_000 by {
        lemma_points(h);
    }
}

/// No behaviour bids less than nothing, and none but the mission bids two.
proof fn lemma_bid_bounds(kind: Kind, w: World, d: Drives, k: int)
    requires
        d.in_range(),
        0 <= k < STEPS,
    ensures
        0 < bid(kind, w, d, k),
        !(kind is Maze) ==> bid(kind, w, d, k) <= points(160),
        !(kind is Maze || kind is Petted || kind is Startle || kind is Greet || kind is Dance)
            ==> bid(kind, w, d, k) < points(115),
{
    lemma_all_points();
    let tired = ONE - d.energy;
    lemma_share(30, tired);
    lemma_share(25, tired);
    lemma_share(30, d.curiosity as int);
    lemma_share(55, d.curiosity as int);
    lemma_share(20, d.curiosity as int);
    lemma_share(20, d.energy as int);
    lemma_share(45, d.energy as int);
    lemma_share(10, d.comfort as int);
    lemma_jitter(5, k);
    lemma_jitter(10, k);
    lemma_jitter(15, k);
    lemma_jitter(20, k);
    lemma_jitter(25, k);
    lemma_jitter(30, k);
    lemma_jitter(35, k);
    lemma_jitter(45, k);
}

/// A mission outbids everything, reflexes included, whatever the dice say.
pub proof fn law_mission_outbids_everything(kind: Kind, w: World, d: Drives, k: int, j: int)
    requires
        d.in_range(),
        0 <= k < STEPS,
        !(kind is Maze),
    ensures
        bid(Kind::Maze, w, d, j) > bid(kind, w, d, k),
{
    lemma_bid_bounds(kind, w, d, k);
    lemma_all_points();
}

/// A hand on the back outbids everything but the mission, a startle among them; and while it
/// is there a noise does not startle at all.
pub proof fn law_petting_outbids_a_startle(kind: Kind, w: World, d: Drives, k: int, j: int)
    requires
        d.in_range(),
        0 <= k < STEPS,
    ensures
        !(kind is Maze) && !(kind is Petted) ==> bid(Kind::Petted, w, d, j) > bid(kind, w, d, k),
        w.petting_since is Some ==> !alarmed(w),
{
    lemma_all_points();
    let tired = ONE - d.energy;
    lemma_bid_bounds(kind, w, d, k);
    lemma_share(20, d.energy as int);
    lemma_jitter(10, k);
}

/// A tired duck naps: with energy under a quarter, a nap outbids everything but the mission,
/// the reflexes and a dance.
pub proof fn law_tired_duck_naps(
    kind: Kind,
    w: World,
    d: Drives,
    prev_center: Option<i64>,
    k: int,
    j: int,
)
    requires
        d.in_range(),
        d.energy < 9_000_000_000_000,
        0 <= k < STEPS,
        applies(kind, w, d, prev_center),
        !(kind is Nap || kind is Maze || kind.reflex() || kind is Dance),
    ensures
        bid(Kind::Nap, w, d, j) > bid(kind, w, d, k),
{
    lemma_all_points();
    let tired = ONE - d.energy;
    lemma_share(30, tired);
    lemma_share(30, d.curiosity as int);
    lemma_share(55, d.curiosity as int);
    lemma_share(20, d.curiosity as int);
    lemma_share_below(20, d.energy as int, 9_000_000_000_000);
    assert(share(20, 9_000_000_000_000) == 20 * 9_000_000_000_000 * STEPS);
    lemma_share(10, d.comfort as int);
    lemma_jitter(10, k);
    lemma_jitter(15, k);
    lemma_jitter(20, k);
    lemma_jitter(25, k);
    lemma_jitter(30, k);
    lemma_jitter(35, k);
    lemma_jitter(45, k);
}

/// A twist that the gait can be trusted with: never sideways, and with any speed ahead a turn
/// within 0.6 rad/s.
pub open spec fn is_trusted(i: Intents) -> bool {
    &&& i.twist[1] == 0
    &&& i.twist[0] != 0 ==> -600_000_000 <= i.twist[2] <= 600_000_000
}

proof fn lemma_mission_is_trusted(q: Quest, w: World, limits: Limits)
    ensures
        is_trusted(q.step(w, limits).intents),
{
}

/// What the mission commands is within what the gait can do: ahead or still, turning between
/// 0.6 rad/s to the right and 1 rad/s to the left, never to the right in place and never hard
/// while walking. It leaves the body pose and the mouth alone and asks for no skill.
pub proof fn law_mission_walks_within_its_gait(q: Quest, w: World, limits: Limits)
    requires
        limits.linear > 0,
    ensures
        ({
            let i = q.step(w, limits).intents;
            &&& 0 <= i.twist[0] <= limits.linear
            &&& i.twist[1] == 0
            &&& -600_000_000 <= i.twist[2] <= 1_000_000_000
            &&& i.twist[2] < 0 ==> i.twist[0] > 0
            &&& i.twist[0] > 0 ==> -600_000_000 <= i.twist[2] <= 600_000_000
            &&& i.pose is None
            &&& i.skill is None
            &&& i.mouth is None
        }),
{
}

/// No behaviour ever commands what the gait cannot be trusted with.
pub proof fn law_twists_are_trusted(
    a: Act,
    w: World,
    limits: Limits,
    seed: u64,
    bearing: Option<i64>,
)
    ensures
        is_trusted(a.advanced(w, limits, seed, bearing).intents),
{
    if a.kind is Maze {
        lemma_mission_is_trusted(a.mission, w, limits);
    }
}

/// Wander stops for what is closer than 0.35 m, and never drives on past it.
pub proof fn law_wander_stops_before_walls(
    a: Act,
    w: World,
    limits: Limits,
    seed: u64,
    bearing: Option<i64>,
)
    requires
        a.kind is Wander,
        w.obstacles.center matches Some(r) && r < 350_000_000,
    ensures
        a.advanced(w, limits, seed, bearing).intents.twist[0] == 0,
        a.age(w) > 1_000_000_000 ==> a.advanced(w, limits, seed, bearing).done,
{
}

/// A behaviour makes its sound once: having made one it has fired, and having fired it makes
/// none. A nap asks the robot to sit once in the same way. Only the mission's cry is its own.
pub proof fn law_a_sound_is_made_once(
    a: Act,
    w: World,
    limits: Limits,
    seed: u64,
    bearing: Option<i64>,
)
    requires
        !(a.kind is Maze),
    ensures
        ({
            let o = a.advanced(w, limits, seed, bearing);
            &&& o.intents.sound is Some ==> !a.fired && o.act.fired
            &&& a.fired ==> o.act.fired
            &&& a.kind is Nap && o.intents.skill is Some ==> !a.fired && o.act.fired
        }),
{
}

/// A behaviour stays the kind it is, and started when it started.
pub proof fn law_a_tick_keeps_the_kind(
    a: Act,
    w: World,
    limits: Limits,
    seed: u64,
    bearing: Option<i64>,
)
    ensures
        a.readied(w).advanced(w, limits, seed, bearing).act.kind == a.kind,
        a.readied(w).advanced(w, limits, seed, bearing).act.since == a.since,
{
}

/// The mission ends in one of two ways: out in the open, after three moves or more and with
/// two deep sides seen, with a cry; or stuck a fourth time, in silence.
pub proof fn law_mission_ends_outside_or_stuck(q: Quest, w: World, limits: Limits)
    requires
        q.step(w, limits).done,
    ensures
        q.phase is Planning,
        ({
            let leg = q.step(w, limits);
            ||| leg.intents.sound == Some(SoundTag::Wheee) && q.deep_sides >= 2 && q.map.moves >= 3
            ||| leg.intents.sound is None && leg.quest.stucks > 3
        }),
{
}

/// The walls are forgotten for going in circles once each time a cell is entered: planning on
/// in the same cell goes by what has been seen there since.
pub proof fn law_walls_are_forgotten_once(q: Quest, w: World, limits: Limits)
    requires
        q.phase is Planning,
        0 <= q.map.moves <= u32::MAX,
    ensures
        ({
            let leg = q.step(w, limits);
            &&& leg.quest.map.moves == q.map.moves
            &&& leg.quest.forgot_at == q.forgot_at || leg.quest.forgot_at == Some(
                q.map.moves as u32,
            )
            &&& q.forgot_at == Some(q.map.moves as u32) && leg.quest.map.cells != q.map.cells
                ==> leg.quest.stucks == q.stucks + 1 && localised(
                q.map,
                q.pos(w),
                w.yaw as int,
            ).planned() is Stuck
        }),
{
}

/// A glance never shifts the odometry correction by more than a quarter of a metre.
pub proof fn law_ruler_shifts_little(q: Quest, w: World, limits: Limits)
    ensures
        magnitude(q.step(w, limits).quest.odom_fix.0 - q.odom_fix.0) <= 250_000_000,
        magnitude(q.step(w, limits).quest.odom_fix.1 - q.odom_fix.1) <= 250_000_000,
        !(q.phase is Glancing) ==> q.step(w, limits).quest.odom_fix == q.odom_fix,
{
}

/// Off is silent: a brain that is off, or has never seen the robot, sends nothing and starts
/// nothing; if something was running it sends one neutral and no more.
pub proof fn law_off_is_silent(m: Mind, w: World, limits: Limits, bearing: Option<i64>)
    requires
        !m.on || !w.have_state,
    ensures
        ({
            let v = m.ticked(w, limits, bearing);
            &&& v.status == Status::Off
            &&& v.mind.active is None
            &&& m.active is None ==> v.intents is None && v.changed is None
            &&& m.active is Some ==> v.intents == Some(Intents::rest())
        }),
{
}

proof fn lemma_yields(m: Mind, w: World, limits: Limits, b: Option<i64>)
    requires
        m.on,
        w.have_state,
        m.wary(w).is_yielding(w),
    ensures
        ({
            let v = m.ticked(w, limits, b);
            &&& v.status == Status::Yielded
            &&& v.mind.on
            &&& v.mind.active is None
            &&& v.mind.foreign_until == m.wary(w).foreign_until
            &&& m.active is None ==> v.intents is None
        }),
{
}

/// A foreign twist, head or skill silences the brain at once and for five seconds past the last one: it
/// yields on every tick in between, with nothing active.
pub proof fn law_yields_for_five_seconds(
    m: Mind,
    w: World,
    later: World,
    limits: Limits,
    b: Option<i64>,
    c: Option<i64>,
)
    requires
        m.on,
        w.have_state,
        m.is_foreign(w),
        later.have_state,
        later.t < w.t + YIELD_S,
    ensures
        ({
            let v = m.ticked(w, limits, b);
            let next = v.mind.ticked(later, limits, c);
            &&& v.status == Status::Yielded
            &&& v.mind.active is None
            &&& next.status == Status::Yielded
            &&& next.intents is None
            &&& next.mind.active is None
        }),
{
    let v = m.ticked(w, limits, b);
    assert(m.wary(w).foreign_until == Some((w.t + YIELD_S) as i128));
    lemma_yields(m, w, limits, b);
    assert(v.mind.wary(later).foreign_until == v.mind.foreign_until || v.mind.wary(
        later,
    ).foreign_until == Some((later.t + YIELD_S) as i128));
    lemma_yields(v.mind, later, limits, c);
}

/// What the brain itself sent last, or before that, is never taken for someone else's twist.
pub proof fn law_own_twists_are_not_foreign(
    m: Mind,
    a: Seq<i64>,
    b: Seq<i64>,
    t: i64,
    u: i64,
    w: World,
)
    requires
        a.len() == 3,
        b.len() == 3,
        w.move_requested@ == a || w.move_requested@ == b,
    ensures
        !m.sent(a, t).sent(b, u).is_foreign_twist(w),
{
    assert(!differs(a, a));
    assert(!differs(b, b));
    let n = m.sent(a, t).sent(b, u);
    assert(n.last_sent_twist == b);
    assert(n.prev_sent_twist == a || b == a);
}

/// Nor is a head that lies, joint by joint, within the swing of either of the last two heads
/// sent; and a head left level is nobody's.
pub proof fn law_own_heads_are_not_foreign(
    m: Mind,
    a: [Level; 4],
    b: [Level; 4],
    t: i64,
    u: i64,
    w: World,
)
    ensures
        ({
            let n = m.posed(Some(a), t).posed(Some(b), u);
            !head_strays(w.head_requested@, a@) || !head_strays(w.head_requested@, b@) ==> !n.is_foreign_head(w)
        }),
        w.head_requested@ == seq![0i64, 0, 0, 0] ==> !m.is_foreign_head(w),
{
    let n = m.posed(Some(a), t).posed(Some(b), u);
    assert(n.last_sent_head == b@);
    assert(n.prev_sent_head == a@ || b@ == a@);
}

/// While the robot neither stands nor naps sitting, the brain commands nothing but, once,
/// neutral.
pub proof fn law_waits_until_it_stands(m: Mind, w: World, limits: Limits, bearing: Option<i64>)
    requires
        !m.may_act(w),
    ensures
        ({
            let v = m.ticked(w, limits, bearing);
            &&& v.intents matches Some(i) ==> i == Intents::rest() && m.active is Some
                && v.mind.active is None
            &&& !(v.status is Active)
        }),
{
}

/// Within its dwell a behaviour is replaced by a reflex or not at all, and only by a bid that
/// beats its own by the margin.
pub proof fn law_incumbent_holds_its_dwell(m: Mind, w: World)
    requires
        m.active is Some,
        m.bid_on(w).active != m.active,
    ensures
        ({
            let a = m.active->0;
            let n = m.bid_on(w);
            &&& n.active matches Some(b)
            &&& b.kind != a.kind
            &&& b.since == w.t
            &&& w.t - a.since < a.kind.dwell() ==> b.kind.reflex()
            &&& n.current_score > m.current_score + points(10)
        }),
{
}

/// Bids are taken at most four times a second: in between nothing is replaced.
pub proof fn law_bids_are_a_quarter_second_apart(m: Mind, w: World)
    requires
        m.last_round matches Some(t) && w.t - t < 250_000_000,
    ensures
        m.bid_on(w) == m,
{
}

/// The winner of a round bid at least as much as anything that was not barred.
proof fn lemma_round_is_best(m: Mind, w: World, n: nat, i: int)
    requires
        n <= 17,
        0 <= i < n,
        !m.is_barred(w, Kind::ALL[i]),
    ensures
        scored(Kind::ALL[i], w, m.drives, m.prev_center, m.round(w, i as nat).seed) matches Some(s)
            ==> (m.round(w, n).best matches Some(b) && b.1 >= s),
    decreases n,
{
    if i < n - 1 {
        lemma_round_is_best(m, w, (n - 1) as nat, i);
    }
}

/// The behaviour that wins a round bid at least as much as any that was not barred.
pub proof fn law_best_bid_wins(m: Mind, w: World, i: int)
    requires
        0 <= i < 17,
        !m.is_barred(w, Kind::ALL[i]),
    ensures
        scored(Kind::ALL[i], w, m.drives, m.prev_center, m.round(w, i as nat).seed) matches Some(s)
            ==> (m.round(w, 17).best matches Some(b) && b.1 >= s),
{
    lemma_round_is_best(m, w, 17, i);
}

proof fn lemma_round_is_open(m: Mind, w: World, n: nat)
    requires
        n <= 17,
    ensures
        m.round(w, n).best matches Some(b) ==> !m.is_barred(w, b.0),
    decreases n,
{
    if n > 0 {
        lemma_round_is_open(m, w, (n - 1) as nat);
    }
}

/// Gestures and picks do not repeat straight away: a behaviour that was left is not bid for
/// until it has cooled down.
pub proof fn law_left_behaviours_cool_down(m: Mind, w: World, kind: Kind, later: World)
    requires
        m.cooldown.len() == 17,
        cooling(kind) > 0,
        later.t < w.t + cooling(kind),
    ensures
        m.left(w, kind).is_barred(later, kind),
        m.left(w, kind).round(later, 17).best matches Some(b) ==> b.0 != kind,
{
    let n = m.left(w, kind);
    assert(n.cooldown[rank(kind)] == Some((w.t + cooling(kind)) as i128));
    lemma_round_is_open(n, later, 17);
}

/// A solved maze is not tried again: once the mission is over it is never bid for, and nothing
/// makes the brain forget it.
pub proof fn law_solved_maze_is_not_restarted(
    m: Mind,
    w: World,
    limits: Limits,
    bearing: Option<i64>,
)
    requires
        m.maze_solved,
        m.kind() != Some(Kind::Maze),
    ensures
        m.is_barred(w, Kind::Maze),
        m.bid_on(w).kind() != Some(Kind::Maze),
        m.ticked(w, limits, bearing).mind.maze_solved,
        m.ticked(w, limits, bearing).status != Status::Active(Kind::Maze),
{
    lemma_round_is_open(m, w, 17);
    let p = m.wary(w).moved_on(w, m.elapsed(w));
    lemma_round_is_open(p, w, 17);
}

/// The mission's map outlives it: a mission that ends is marked solved and its map kept.
pub proof fn law_mission_leaves_its_map(m: Mind, w: World, was: Option<Kind>, o: Outcome)
    requires
        o.done,
        o.act.kind is Maze,
    ensures
        m.acted(w, was, o).mind.maze_solved,
        m.acted(w, was, o).mind.last_maze == Some(o.act.mission.map),
{
}

/// A fresh behaviour inherits nothing: its first intents set the body pose, the head and the
/// mouth, as it wants them or neutral.
pub proof fn law_fresh_behaviour_inherits_nothing(m: Mind, w: World, was: Option<Kind>, o: Outcome)
    requires
        m.entered,
    ensures
        ({
            let v = m.acted(w, was, o);
            &&& v.intents matches Some(i)
            &&& i.pose is Some
            &&& i.head is Some
            &&& i.mouth is Some
            &&& !o.done ==> (o.intents.pose is None ==> i.pose == Some(
                (Level::steady(0), Level::steady(0), Level::steady(0)),
            )) && (o.intents.pose is Some ==> i.pose == o.intents.pose)
            &&& !o.done ==> !v.mind.entered
        }),
{
}

/// Every switch is to a fresh behaviour, and leaves a mark that it is fresh.
pub proof fn law_a_switch_starts_afresh(m: Mind, w: World, kind: Kind, s: int)
    ensures
        m.switched(kind, s, w).entered,
        m.switched(kind, s, w).kind() == Some(kind),
        m.switched(kind, s, w).active->0.since == w.t,
        !m.switched(kind, s, w).active->0.fired,
{
}

/// Whatever ends leaves the robot neutral and still: a behaviour that is done, that is stopped,
/// or a nap that is over. A parting sound and standing up are all that may go with it.
pub proof fn law_whatever_ends_leaves_the_robot_neutral(
    m: Mind,
    w: World,
    limits: Limits,
    bearing: Option<i64>,
)
    requires
        m.ticked(w, limits, bearing).mind.active is None,
    ensures
        m.ticked(w, limits, bearing).intents matches Some(i) ==> {
            &&& i.twist == Intents::rest().twist
            &&& i.head == Intents::rest().head
            &&& i.pose == Intents::rest().pose
            &&& i.mouth == Intents::rest().mouth
        },
{
}

/// Drives never leave their range, whatever the brain decides.
pub proof fn law_deciding_keeps_drives_in_range(
    m: Mind,
    w: World,
    limits: Limits,
    bearing: Option<i64>,
)
    requires
        m.drives.in_range(),
    ensures
        m.ticked(w, limits, bearing).mind.drives.in_range(),
        Mind::fresh(0, true).drives.in_range(),
{
    let p = m.wary(w).moved_on(w, m.elapsed(w));
    let q = p.bid_on(w);
    assert(p.drives.in_range());
    assert(q.drives == p.drives);
}

/// Same seed, same frames, same decisions: where a direction is settled by its point, a tick
/// comes to one thing only.
pub proof fn law_same_seed_same_decisions<F: Fn(i128, i128) -> i64>(
    bearing: F,
    m: Mind,
    w: World,
    limits: Limits,
    b: Option<i64>,
    c: Option<i64>,
)
    requires
        forall|dy: i128, dx: i128, v: i64, u: i64|
            call_ensures(bearing, (dy, dx), v) && call_ensures(bearing, (dy, dx), u) ==> v == u,
        is_bearing(bearing, m.sights(w), b),
        is_bearing(bearing, m.sights(w), c),
    ensures
        m.ticked(w, limits, b) == m.ticked(w, limits, c),
{
}

/// A rested nap ends: past its dwell, with energy back, the duck gets up, asking to stand if
/// it sits.
pub proof fn law_rested_duck_gets_up(m: Mind, w: World, limits: Limits, bearing: Option<i64>)
    requires
        m.on,
        w.have_state,
        !m.wary(w).is_yielding(w),
        w.is_sitting(),
        m.kind() == Some(Kind::Nap),
        m.poised(w).kind() == Some(Kind::Nap),
        m.poised(w).drives.energy > 30_600_000_000_000,
        w.t - m.poised(w).active->0.since >= 40_000_000_000,
    ensures
        m.ticked(w, limits, bearing).status == Status::Waiting,
        m.ticked(w, limits, bearing).mind.active is None,
        m.ticked(w, limits, bearing).intents matches Some(i) && i.skill == Some(Skill::SitToggle),
{
}

/// A sleeping duck wakes on a sound or a hand that comes after it fell asleep.
pub proof fn law_sounds_and_hands_wake(m: Mind, w: World)
    requires
        m.active matches Some(a) && a.kind is Nap,
        ({
            ||| w.last_noise matches Some(t) && t > m.active->0.since
            ||| w.last_voice matches Some(t) && t > m.active->0.since
            ||| w.petting_since is Some
        }),
    ensures
        m.wakes(w),
{
}

/// Novelty counts cells, not ticks: staying where one is counts once, and the first visit of a
/// cell is the one that is new.
pub proof fn law_novelty_counts_cells(g: Novelty, c: (int, int), t: int, u: int)
    requires
        g.count(c) < u32::MAX,
    ensures
        g.visited(c, t).visited(c, u) == g.visited(c, t),
        !g.visited(c, t).is_new(c),
        g.last != Some(c) ==> g.visited(c, t).count(c) == g.count(c) + 1,
        g.is_new(c) ==> g.visited(c, t).last_new_t == t,
        forall|o: (int, int)| o != c ==> #[trigger] g.visited(c, t).count(o) == g.count(o),
{
}

/// Novelty decays: in time every count goes down, to one and no further, so a cell once seen is
/// never new again and none is forgotten.
pub proof fn law_novelty_decays(g: Novelty, c: (int, int), t: int)
    ensures
        g.faded(t).count(c) <= g.count(c),
        g.faded(t).count(c) == 0 <==> g.count(c) == 0,
        t - g.faded_at >= FADE_S && g.count(c) > 1 ==> g.faded(t).count(c) < g.count(c),
        t - g.faded_at < FADE_S ==> g.faded(t) == g,
        g.faded(t).counts.dom() == g.counts.dom(),
{
}

/// Events leave no more than eight beats, and a pet that ended is over: the duck is being
/// petted from the last start on, until the end.
pub proof fn law_senses_keep_a_handful(s: Senses, t: i64, e: RobotEvent)
    ensures
        s.beats.len() <= 8 ==> s.after(t, e).beats.len() <= 8,
        e.kind is PetStart ==> s.after(t, e).petting_since == Some(t),
        e.kind is PetEnd ==> s.after(t, e).petting_since is None && s.after(t, e).pet_ended == Some(
            t,
        ),
        e.kind is DuckLost && e.id is Some ==> !s.after(t, e).ducks.contains_key(e.id->0),
{
}

/// A duck that was greeted is a friend when it is seen again, and one that never was is a
/// stranger.
pub proof fn law_greeted_ducks_are_friends(s: Senses, t: i64, id: u16)
    ensures
        ({
            let seen = s.after(t, RobotEvent { kind: EventKind::DuckSeen, id: Some(id) });
            &&& s.known_ducks.contains(id) ==> seen.greet_pending == Some((id, false))
            &&& !s.known_ducks.contains(id) ==> seen.greet_pending == Some((id, true))
            &&& seen.last_company == Some(t)
            &&& seen.ducks[id] == t
        }),
{
}

} // verus!

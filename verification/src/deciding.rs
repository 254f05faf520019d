//! What the arbiter is for: the clearly better behaviour gets its turn, what is left rests, the
//! drives go with what is done, what is sent is remembered, and a person who takes the robot has
//! it.

use vstd::prelude::*;

use crate::active::{Act, Outcome};
use crate::arbiter::{Mind, Status, Verdict};
use crate::behaviours::{points, scored, Intents, Kind, Limits};
use crate::conduct::{law_a_tick_keeps_the_kind, law_best_bid_wins};
use crate::drives::{drain, Drives};
use crate::world::World;

verus! {

/// How long a behaviour has the floor before anything but a reflex may take it.
pub open spec fn floor_time(kind: Kind) -> int {
    match kind {
        Kind::Nap => 40_000_000_000,
        Kind::Maze => 600_000_000_000,
        Kind::Wander => 6_000_000_000,
        Kind::GroundPick => 6_000_000_000,
        Kind::Dance => 6_000_000_000,
        Kind::Chill => 4_000_000_000,
        Kind::LookAround => 3_000_000_000,
        Kind::Stretch => 3_000_000_000,
        Kind::Ruffle => 3_000_000_000,
        Kind::Preen => 3_000_000_000,
        Kind::Lonely => 3_000_000_000,
        Kind::Greet => 2_500_000_000,
        Kind::Zoomies => 2_000_000_000,
        Kind::Petted => 2_000_000_000,
        Kind::Sneeze => 1_500_000_000,
        Kind::Startle => 1_500_000_000,
        Kind::TurnInPlace => 1_000_000_000,
    }
}

/// What the behaviour of rank `i` bids in a round, if it is not barred.
pub open spec fn bid_at(m: Mind, w: World, i: int) -> Option<int> {
    if m.is_barred(w, Kind::ALL[i]) {
        None
    } else {
        scored(Kind::ALL[i], w, m.drives, m.prev_center, m.round(w, i as nat).seed)
    }
}

/// The behaviour of rank `i` bids `s`, and nothing bids more, nor as much before it.
pub open spec fn bids_most(m: Mind, w: World, i: int, s: int) -> bool {
    &&& 0 <= i < 17
    &&& bid_at(m, w, i) == Some(s)
    &&& forall|j: int|
        0 <= j < 17 ==> (#[trigger] bid_at(m, w, j) matches Some(r) ==> r < s || r == s && i <= j)
}

/// It is time for a round of bids.
pub open spec fn is_due(m: Mind, w: World) -> bool {
    m.last_round matches Some(t) ==> w.t - t >= 250_000_000
}

proof fn lemma_most_is_best(m: Mind, w: World, i: int, s: int, n: nat)
    requires
        bids_most(m, w, i, s),
        n <= 17,
    ensures
        n > i ==> m.round(w, n).best == Some((Kind::ALL[i], s)),
        n <= i ==> (m.round(w, n).best matches Some(b) ==> b.1 < s),
    decreases n,
{
    if n > 0 {
        lemma_most_is_best(m, w, i, s, (n - 1) as nat);
        assert(bid_at(m, w, n - 1) matches Some(r) ==> r <= s);
    }
}

/// A behaviour may be replaced by the one of rank `i`, which bids `s`: its time is over, or the
/// other is a reflex, and the other's bid is clearly better.
pub open spec fn may_replace(m: Mind, w: World, i: int, s: int) -> bool {
    &&& m.active matches Some(a)
    &&& a.kind != Kind::ALL[i]
    &&& {
        ||| w.t - a.since >= floor_time(a.kind)
        ||| Kind::ALL[i] is Startle
        ||| Kind::ALL[i] is Petted
        ||| Kind::ALL[i] is Greet
    }
    &&& s > m.current_score + points(10)
}

/// A clearly better behaviour replaces the active one once its time is over, a reflex at once;
/// where nothing is active the best bid has it. Otherwise nothing changes, but that a behaviour
/// which bids most again is held to its new bid.
pub proof fn law_clearly_better_bid_takes_over(m: Mind, w: World, i: int, s: int)
    requires
        is_due(m, w),
        bids_most(m, w, i, s),
    ensures
        ({
            let n = m.bid_on(w);
            &&& n.last_round == Some(w.t)
            &&& n.prev_center == w.obstacles.center
            &&& m.active is None || may_replace(m, w, i, s) ==> {
                &&& n.active matches Some(b)
                &&& b.kind == Kind::ALL[i]
                &&& b.since == w.t
                &&& n.current_score == s
                &&& n.entered
            }
            &&& m.active is Some && !may_replace(m, w, i, s) ==> n.active == m.active && n.entered
                == m.entered
            &&& m.kind() == Some(Kind::ALL[i]) ==> n.current_score == s
            &&& m.active is Some && !may_replace(m, w, i, s) && m.kind() != Some(Kind::ALL[i])
                ==> n.current_score == m.current_score
        }),
{
    lemma_most_is_best(m, w, i, s, 17);
}

/// Every round finds something to do on a standing robot.
pub proof fn law_standing_duck_is_never_idle(m: Mind, w: World)
    requires
        is_due(m, w),
        w.is_standing(),
        !m.is_barred(w, Kind::Chill),
    ensures
        m.bid_on(w).active is Some,
{
    law_best_bid_wins(m, w, 0);
    assert(Kind::ALL[0] == Kind::Chill);
    assert(scored(Kind::Chill, w, m.drives, m.prev_center, m.round(w, 0).seed) is Some);
}

/// The mind as it comes to bid.
pub open spec fn before_bids(m: Mind, w: World) -> Mind {
    m.wary(w).moved_on(w, m.elapsed(w))
}

/// The brain may act: on, seeing the robot, nobody else driving, and the robot standing.
pub open spec fn is_free(m: Mind, w: World) -> bool {
    m.on && w.have_state && !m.wary(w).is_yielding(w) && w.is_standing()
}

/// On the tick that a clearly better behaviour takes over it is what the brain does, and the
/// change is told.
pub proof fn law_winner_acts_at_once(
    m: Mind,
    w: World,
    limits: Limits,
    bearing: Option<i64>,
    i: int,
    s: int,
)
    requires
        is_free(m, w),
        is_due(m, w),
        bids_most(before_bids(m, w), w, i, s),
        m.active is None || may_replace(before_bids(m, w), w, i, s),
        Kind::ALL[i] is Chill || Kind::ALL[i] is LookAround || Kind::ALL[i] is Wander
            || Kind::ALL[i] is Zoomies || Kind::ALL[i] is Stretch || Kind::ALL[i] is Ruffle
            || Kind::ALL[i] is Preen || Kind::ALL[i] is Sneeze || Kind::ALL[i] is Startle
            || Kind::ALL[i] is GroundPick || Kind::ALL[i] is Greet || Kind::ALL[i] is Lonely
            || Kind::ALL[i] is Petted,
    ensures
        ({
            let v = m.ticked(w, limits, bearing);
            &&& v.status == Status::Active(Kind::ALL[i])
            &&& v.changed == Some((m.kind(), Some(Kind::ALL[i])))
            &&& v.intents is Some
            &&& v.mind.kind() == Some(Kind::ALL[i])
        }),
{
    let p = before_bids(m, w);
    law_clearly_better_bid_takes_over(p, w, i, s);
    let q = p.bid_on(w);
    assert(q == m.poised(w));
    assert(!q.wakes(w));
}

/// How long a behaviour that was left is not bid for.
pub open spec fn rest_time(kind: Kind) -> int {
    match kind {
        Kind::Stretch => 20_000_000_000,
        Kind::Ruffle => 20_000_000_000,
        Kind::Preen => 20_000_000_000,
        Kind::Sneeze => 20_000_000_000,
        Kind::GroundPick => 40_000_000_000,
        Kind::Zoomies => 40_000_000_000,
        Kind::Lonely => 120_000_000_000,
        Kind::Dance => 10_000_000_000,
        Kind::Startle => 3_000_000_000,
        _ => 0,
    }
}

/// A behaviour that is left rests: it is barred for its time from then on and no longer; one
/// that need not rest is as free as before. Nothing else is barred or freed by it.
pub proof fn law_what_is_left_rests(m: Mind, w: World, kind: Kind, other: Kind, later: World)
    requires
        m.cooldown.len() == 17,
        !m.maze_solved,
    ensures
        rest_time(kind) > 0 ==> (m.left(w, kind).is_barred(later, kind) <==> later.t < w.t
            + rest_time(kind)),
        rest_time(kind) == 0 ==> m.left(w, kind).is_barred(later, kind) == m.is_barred(later, kind),
        other != kind ==> m.left(w, kind).is_barred(later, other) == m.is_barred(later, other),
        m.left(w, kind).active is None,
{
}

/// A tick that comes to act in that way.
spec fn tick_with(m: Mind, w: World, o: Outcome) -> Verdict {
    let was = m.kind();
    let p = before_bids(m, w);
    let q = p.bid_on(w);
    if !m.on || !w.have_state {
        Mind { last_t: Some(w.t), ..m }.stopped(w, Status::Off, was)
    } else if m.wary(w).is_yielding(w) {
        m.wary(w).stopped(w, Status::Yielded, was)
    } else if !m.may_act(w) {
        if w.is_busy() && !w.is_sitting() {
            Verdict { mind: p, status: Status::Waiting, intents: None, changed: None }
        } else {
            p.stopped(w, Status::Waiting, was)
        }
    } else if q.wakes(w) {
        q.woken(w, was)
    } else if q.active is None {
        q.stopped(w, Status::Waiting, was)
    } else {
        q.acted(w, was, o)
    }
}

#[verifier::opaque]
spec fn act_of(a: Act, w: World, limits: Limits, seed: u64, bearing: Option<i64>) -> Outcome {
    a.readied(w).advanced(w, limits, seed, bearing)
}

proof fn lemma_tick_with(m: Mind, w: World, limits: Limits, bearing: Option<i64>) -> (o: Outcome)
    ensures
        m.ticked(w, limits, bearing) == tick_with(m, w, o),
        m.poised(w).active matches Some(a) ==> o.act.kind == a.kind && o == act_of(
            a,
            w,
            limits,
            m.poised(w).seed,
            bearing,
        ),
{
    reveal(act_of);
    let q = m.poised(w);
    if q.active is Some {
        law_a_tick_keeps_the_kind(q.active->0, w, limits, q.seed, bearing);
    }
    act_of(q.active->0, w, limits, q.seed, bearing)
}

/// The behaviour after a round is the one before it or a new one, and bids keep the drives and
/// what was sent.
proof fn lemma_bids(p: Mind, w: World)
    ensures
        ({
            let q = p.bid_on(w);
            &&& q.drives == p.drives
            &&& q.last_t == p.last_t
            &&& q.cells_seen == p.cells_seen
            &&& q.last_sent_twist == p.last_sent_twist
            &&& q.prev_sent_twist == p.prev_sent_twist
            &&& q.twist_changed_at == p.twist_changed_at
            &&& q.last_sent_head == p.last_sent_head
            &&& q.prev_sent_head == p.prev_sent_head
            &&& q.head_changed_at == p.head_changed_at
            &&& q.maze_solved == p.maze_solved
            &&& p.active is Some ==> q.active is Some
            &&& q.kind() == p.kind() ==> q.cooldown == p.cooldown
            &&& q.kind() != p.kind() && p.active is Some ==> q.cooldown == p.left(
                w,
                p.active->0.kind,
            ).cooldown
        }),
{
}

proof fn lemma_goes(m: Mind, w: World, o: Outcome, kind: Kind, later: World)
    requires
        m.cooldown.len() == 17,
        m.kind() == Some(kind),
        m.poised(w).active matches Some(a) ==> o.act.kind == a.kind,
        tick_with(m, w, o).mind.kind() != Some(kind),
        rest_time(kind) > 0,
        later.t < w.t + rest_time(kind),
    ensures
        tick_with(m, w, o).mind.is_barred(later, kind),
{
    let p = before_bids(m, w);
    lemma_bids(p, w);
    let q = p.bid_on(w);
    let n = tick_with(m, w, o).mind;
    let r = crate::arbiter::rank(kind);
    assert(p.cooldown == m.cooldown);
    assert(0 <= r < 17);
    assert(crate::arbiter::cooling(kind) == rest_time(kind));
    assert(n.cooldown[r] matches Some(until) && until == w.t + rest_time(kind));
}

/// Whatever is replaced, stopped, woken or done is left in that way.
pub proof fn law_whatever_goes_rests(
    m: Mind,
    w: World,
    limits: Limits,
    bearing: Option<i64>,
    kind: Kind,
    later: World,
)
    requires
        m.cooldown.len() == 17,
        m.kind() == Some(kind),
        m.ticked(w, limits, bearing).mind.kind() != Some(kind),
        rest_time(kind) > 0,
        later.t < w.t + rest_time(kind),
    ensures
        m.ticked(w, limits, bearing).mind.is_barred(later, kind),
{
    let o = lemma_tick_with(m, w, limits, bearing);
    lemma_goes(m, w, o, kind, later);
}

proof fn lemma_told(m: Mind, w: World, o: Outcome)
    requires
        m.poised(w).active matches Some(a) ==> o.act.kind == a.kind,
    ensures
        ({
            let v = tick_with(m, w, o);
            &&& v.changed matches Some(c) ==> c == (m.kind(), v.mind.kind())
            &&& v.mind.kind() != m.kind() ==> v.changed is Some
            &&& v.mind.kind() is Some && v.mind.kind() == m.kind() ==> v.changed is None
            &&& v.status matches Status::Active(k) ==> v.mind.kind() == Some(k)
        }),
{
    lemma_bids(before_bids(m, w), w);
}

/// A change of behaviour is told when there is one, as what it was and what it is.
pub proof fn law_changes_are_told(m: Mind, w: World, limits: Limits, bearing: Option<i64>)
    ensures
        ({
            let v = m.ticked(w, limits, bearing);
            &&& v.changed matches Some(c) ==> c == (m.kind(), v.mind.kind())
            &&& v.mind.kind() != m.kind() ==> v.changed is Some
            &&& v.mind.kind() is Some && v.mind.kind() == m.kind() ==> v.changed is None
            &&& v.status matches Status::Active(k) ==> v.mind.kind() == Some(k)
        }),
{
    let o = lemma_tick_with(m, w, limits, bearing);
    lemma_told(m, w, o);
}

/// What the brain remembers of what it sent, before and after a tick with those intents.
pub open spec fn remembers(m: Mind, n: Mind, i: Option<Intents>, t: i64) -> bool {
    &&& i matches Some(i) ==> n.last_sent_twist == i.twist@
    &&& i is None ==> n.last_sent_twist == m.last_sent_twist || n.last_sent_twist == seq![
        0i64,
        0,
        0,
    ]
    &&& i matches Some(i) ==> (i.head matches Some(h) ==> n.last_sent_head == h@)
    &&& i is None || i->0.head is None ==> n.last_sent_head == m.last_sent_head
    &&& n.last_sent_twist != m.last_sent_twist ==> n.prev_sent_twist == m.last_sent_twist
        && n.twist_changed_at == Some(t)
    &&& n.last_sent_twist == m.last_sent_twist ==> n.prev_sent_twist == m.prev_sent_twist
        && n.twist_changed_at == m.twist_changed_at
    &&& n.last_sent_head != m.last_sent_head ==> n.prev_sent_head == m.last_sent_head
        && n.head_changed_at == Some(t)
    &&& n.last_sent_head == m.last_sent_head ==> n.prev_sent_head == m.prev_sent_head
        && n.head_changed_at == m.head_changed_at
}

proof fn lemma_told_is_remembered(m: Mind, i: Intents, t: i64)
    ensures
        remembers(m, m.told(i, t), Some(i), t),
{
}

proof fn lemma_stop_is_remembered(m: Mind, w: World, status: Status, was: Option<Kind>)
    ensures
        remembers(m, m.stopped(w, status, was).mind, m.stopped(w, status, was).intents, w.t),
{
    assert(Intents::rest().twist@ =~= seq![0i64, 0, 0]);
}

/// Two minds that sent the same.
spec fn same_sent(a: Mind, b: Mind) -> bool {
    &&& a.last_sent_twist == b.last_sent_twist
    &&& a.prev_sent_twist == b.prev_sent_twist
    &&& a.twist_changed_at == b.twist_changed_at
    &&& a.last_sent_head == b.last_sent_head
    &&& a.prev_sent_head == b.prev_sent_head
    &&& a.head_changed_at == b.head_changed_at
}

proof fn lemma_act_is_remembered(q: Mind, w: World, was: Option<Kind>, o: Outcome)
    ensures
        remembers(q, q.acted(w, was, o).mind, q.acted(w, was, o).intents, w.t),
{
    let v = q.acted(w, was, o);
    let i = v.intents->0;
    let m = Mind {
        active: Some(o.act),
        seed: o.seed,
        drives: if o.act.kind is Startle && was != Some(Kind::Startle) {
            q.drives.after_startle()
        } else {
            q.drives
        },
        ..q
    };
    if o.done {
        let gone = Mind {
            current_score: 0,
            maze_solved: q.maze_solved || o.act.kind is Maze,
            last_maze: if o.act.kind is Maze {
                Some(o.act.mission.map)
            } else {
                q.last_maze
            },
            ..m.left(w, o.act.kind)
        };
        assert(v.mind == gone.told(i, w.t));
        lemma_told_is_remembered(gone, i, w.t);
        assert(same_sent(gone, q));
    } else {
        let on = Mind { entered: false, ..m };
        assert(v.mind == on.told(i, w.t));
        lemma_told_is_remembered(on, i, w.t);
    }
}

proof fn lemma_remembers(m: Mind, w: World, o: Outcome)
    ensures
        remembers(m, tick_with(m, w, o).mind, tick_with(m, w, o).intents, w.t),
{
    let p = before_bids(m, w);
    let q = p.bid_on(w);
    lemma_bids(p, w);
    assert(same_sent(p, m) && same_sent(q, m));
    if !m.on || !w.have_state {
        lemma_stop_is_remembered(Mind { last_t: Some(w.t), ..m }, w, Status::Off, m.kind());
    } else if m.wary(w).is_yielding(w) {
        lemma_stop_is_remembered(m.wary(w), w, Status::Yielded, m.kind());
    } else if !m.may_act(w) {
        lemma_stop_is_remembered(p, w, Status::Waiting, m.kind());
    } else if q.wakes(w) {
        let gone = Mind { current_score: 0, ..q.left(w, Kind::Nap) };
        lemma_told_is_remembered(gone, Intents::rest(), w.t);
        assert(same_sent(gone, m));
    } else if q.active is None {
        lemma_stop_is_remembered(q, w, Status::Waiting, m.kind());
    } else {
        lemma_act_is_remembered(q, w, m.kind(), o);
    }
}

/// What is sent is remembered: the last twist and head are those of the intents, zero where
/// there were none, and when either differs from the one before, that one is kept beside it
/// with the time of the change.
pub proof fn law_what_is_sent_is_remembered(
    m: Mind,
    w: World,
    limits: Limits,
    bearing: Option<i64>,
)
    ensures
        ({
            let v = m.ticked(w, limits, bearing);
            remembers(m, v.mind, v.intents, w.t)
        }),
{
    let o = lemma_tick_with(m, w, limits, bearing);
    lemma_remembers(m, w, o);
}

/// What `dt` of a behaviour, or of none, does to the energy.
pub open spec fn energy_change(kind: Option<Kind>, dt: int) -> int {
    match kind {
        None => 90 * dt,
        Some(Kind::Chill) => 90 * dt,
        Some(Kind::Petted) => 90 * dt,
        Some(Kind::Nap) => 400 * dt,
        Some(Kind::Zoomies) => -150 * dt,
        Some(Kind::Wander) => -75 * dt,
        Some(Kind::GroundPick) => -75 * dt,
        Some(Kind::Maze) => -75 * dt,
        Some(Kind::TurnInPlace) => -45 * dt,
        Some(Kind::Startle) => -45 * dt,
        Some(Kind::Dance) => -45 * dt,
        _ => -15 * dt,
    }
}

/// `v` within the range of a drive.
pub open spec fn in_drive(v: int) -> int {
    if v < 0 {
        0
    } else if v > 36_000_000_000_000 {
        36_000_000_000_000
    } else {
        v
    }
}

/// The time a tick stands for: since the last one, a second at most, and never backwards.
pub open spec fn tick_time(m: Mind, w: World) -> int {
    match m.last_t {
        None => 0,
        Some(t) => if w.t <= t {
            0
        } else if w.t - t >= 1_000_000_000 {
            1_000_000_000
        } else {
            w.t - t
        },
    }
}

/// The drives after a tick of length `dt`, from what they were, what the duck did and does, and
/// what it found.
pub open spec fn drives_went(m: Mind, w: World, v: Verdict) -> bool {
    let (d, e) = (m.drives, v.mind.drives);
    let dt = tick_time(m, w);
    let cells = w.grid@.counts.dom().len() as usize;
    &&& v.mind.last_t == Some(w.t)
    &&& v.status is Off || v.status is Yielded ==> e == d
    &&& !(v.status is Off) && !(v.status is Yielded) ==> {
        &&& v.mind.cells_seen == cells
        &&& e.energy == in_drive(d.energy + energy_change(m.kind(), dt))
        &&& e.curiosity == (if cells > m.cells_seen {
            in_drive(d.curiosity - 5_400_000_000_000)
        } else if w.is_standing() {
            in_drive(d.curiosity + 300 * dt)
        } else {
            d.curiosity as int
        })
        &&& w.petting_since is Some && m.kind() is Some && v.mind.kind() == m.kind() ==> e.comfort
            == in_drive(d.comfort + 600 * dt)
        &&& w.petting_since is Some && m.kind() != Some(Kind::Startle) && v.mind.kind() == Some(
            Kind::Startle,
        ) ==> e.comfort == in_drive(in_drive(d.comfort + 600 * dt) - 10_800_000_000_000)
    }
}

proof fn lemma_drives_went(m: Mind, w: World, o: Outcome)
    requires
        m.drives.in_range(),
        m.poised(w).active matches Some(a) ==> o.act.kind == a.kind,
    ensures
        drives_went(m, w, tick_with(m, w, o)),
{
    let dt = tick_time(m, w);
    assert(m.elapsed(w) == dt);
    let p = before_bids(m, w);
    let effort = match m.kind() {
        Some(k) => k.effort(),
        None => 0,
    };
    let napping = m.kind() == Some(Kind::Nap);
    let found = w.grid@.counts.dom().len() as usize > m.cells_seen;
    assert(m.wary(w).kind() == m.kind());
    lemma_energy(
        m.drives,
        dt,
        m.kind(),
        effort,
        found,
        w.is_standing(),
        w.petting_since is Some,
    );
    assert(p.drives == m.drives.updated(
        dt,
        effort,
        napping,
        found,
        w.is_standing(),
        w.petting_since is Some,
    ));
    assert(p.drives.energy == in_drive(m.drives.energy + energy_change(m.kind(), dt)));
    lemma_bids(p, w);
}

/// The drives go with what the duck does: energy with the behaviour it is in, curiosity up with
/// time on its feet and down by 0.15 with a new place, comfort up under a hand and down with a
/// startle; and they rest while the brain is off or yields.
pub proof fn law_drives_go_with_what_is_done(
    m: Mind,
    w: World,
    limits: Limits,
    bearing: Option<i64>,
)
    requires
        m.drives.in_range(),
    ensures
        drives_went(m, w, m.ticked(w, limits, bearing)),
{
    let o = lemma_tick_with(m, w, limits, bearing);
    lemma_drives_went(m, w, o);
}

proof fn lemma_drain(dt: int, activity: u32, rate: int)
    requires
        150 * activity == rate * 1_000_000_000,
    ensures
        drain(dt, activity) == rate * dt,
{
    assert(150 * activity * dt == (rate * dt) * 1_000_000_000) by (nonlinear_arith)
        requires
            150 * activity == rate * 1_000_000_000,
    ;
    vstd::arithmetic::div_mod::lemma_div_multiples_vanish(rate * dt, 1_000_000_000);
}

proof fn lemma_energy(d: Drives, dt: int, kind: Option<Kind>, effort: u32, n: bool, s: bool, p: bool)
    requires
        d.in_range(),
        0 <= dt <= 1_000_000_000,
        effort == (match kind {
            Some(k) => k.effort(),
            None => 0,
        }),
    ensures
        d.updated(dt, effort, kind == Some(Kind::Nap), n, s, p).energy == in_drive(
            d.energy + energy_change(kind, dt),
        ),
{
    lemma_drain(dt, 0, 0);
    lemma_drain(dt, 100_000_000, 15);
    lemma_drain(dt, 300_000_000, 45);
    lemma_drain(dt, 500_000_000, 75);
    lemma_drain(dt, 1_000_000_000, 150);
}

/// A robot that is busy getting up or with a skill is left to it: nothing is sent and what was
/// being done goes on after. One that is down or sits without napping is left alone too, but
/// what was being done is over.
pub proof fn law_busy_robot_is_left_to_it(m: Mind, w: World, limits: Limits, bearing: Option<i64>)
    requires
        m.on,
        w.have_state,
        !m.wary(w).is_yielding(w),
        !(w.is_standing()),
        !(m.kind() == Some(Kind::Nap) && w.policy@ == "sit"@),
    ensures
        ({
            let v = m.ticked(w, limits, bearing);
            let busy = w.policy@ != "stand"@ && w.policy@ != "walk"@ && w.policy@ != "sit"@;
            &&& v.status == Status::Waiting
            &&& busy ==> v.intents is None && v.changed is None && v.mind.active == m.active
                && v.mind.current_score == m.current_score
            &&& !busy ==> v.mind.active is None && v.mind.current_score == 0
            &&& !busy && m.active is Some ==> v.intents == Some(Intents::rest()) && v.changed
                == Some((m.kind(), None::<Kind>))
            &&& !busy && m.active is None ==> v.intents is None && v.changed is None
        }),
{
}

/// A duck that is woken from a nap is back at rest, and gets up if it sits, by the one toggle it
/// sat down with; if it stands already it is not toggled.
pub proof fn law_woken_duck_gets_up_once(m: Mind, w: World, was: Option<Kind>)
    ensures
        ({
            let v = m.woken(w, was);
            &&& v.status == Status::Waiting
            &&& v.changed == Some((was, None::<Kind>))
            &&& v.mind.active is None
            &&& v.mind.current_score == 0
            &&& v.intents is Some
            &&& w.policy@ == "sit"@ ==> v.intents->0.skill == Some(crate::proto::Skill::SitToggle)
            &&& w.policy@ != "sit"@ ==> v.intents->0.skill is None
            &&& v.intents->0.sound is None
            &&& v.intents->0.twist@ == seq![0i64, 0, 0]
        }),
{
}

/// A brain begins with nothing to do, nothing sent, nobody to yield to and no rest to wait for,
/// rested four fifths, half curious, half at ease and three tenths in company.
pub proof fn law_brain_begins_afresh(seed: u64, on: bool, w: World, kind: Kind)
    ensures
        ({
            let m = Mind::fresh(seed, on);
            &&& m.on == on
            &&& m.seed == seed
            &&& m.active is None
            &&& m.current_score == 0
            &&& m.last_sent_twist == seq![0i64, 0, 0]
            &&& m.prev_sent_twist == seq![0i64, 0, 0]
            &&& !m.is_yielding(w)
            &&& !m.is_barred(w, kind)
            &&& !m.maze_solved && m.last_maze is None
            &&& is_due(m, w)
            &&& 10 * m.drives.energy == 8 * 36_000_000_000_000
            &&& 10 * m.drives.curiosity == 5 * 36_000_000_000_000
            &&& 10 * m.drives.social == 3 * 36_000_000_000_000
            &&& 10 * m.drives.comfort == 5 * 36_000_000_000_000
        }),
{
}

/// Comfort under no hand goes to the middle at 200 parts a nanosecond and stays there; under one
/// it goes up at 600; a startle takes three tenths of it; company is never touched. Energy is
/// drained by effort, and filled at 90 at rest and 400 asleep.
pub proof fn law_drives_change_at_their_rates(
    d: Drives,
    dt: int,
    activity: u32,
    napping: bool,
    new_place: bool,
    standing: bool,
)
    requires
        d.in_range(),
        dt >= 0,
    ensures
        ({
            let alone = d.updated(dt, activity, napping, new_place, standing, false);
            let petted = d.updated(dt, activity, napping, new_place, standing, true);
            let (m, most) = (18_000_000_000_000int, 200 * dt);
            &&& petted.comfort == in_drive(d.comfort + 600 * dt)
            &&& d.comfort <= m - most ==> alone.comfort == d.comfort + most
            &&& d.comfort >= m + most ==> alone.comfort == d.comfort - most
            &&& m - most <= d.comfort <= m + most ==> alone.comfort == m
            &&& alone.social == d.social && petted.social == d.social
            &&& petted.energy == alone.energy && petted.curiosity == alone.curiosity
            &&& new_place ==> alone.curiosity == in_drive(d.curiosity - 5_400_000_000_000)
            &&& !new_place && standing ==> alone.curiosity == in_drive(d.curiosity + 300 * dt)
            &&& !new_place && !standing ==> alone.curiosity == d.curiosity
            &&& d.after_startle().comfort == in_drive(d.comfort - 10_800_000_000_000)
            &&& d.after_startle().energy == d.energy
            &&& d.after_startle().curiosity == d.curiosity
            &&& d.after_startle().social == d.social
        }),
        d.updated(dt, 0, true, new_place, standing, false).energy == in_drive(d.energy + 400 * dt),
        d.updated(dt, 0, false, new_place, standing, false).energy == in_drive(d.energy + 90 * dt),
        d.updated(dt, 50_000_000, false, new_place, standing, false).energy <= d.energy,
{
    lemma_drain(dt, 0, 0);
    assert(150 * 50_000_000 * dt == 7_500_000_000 * dt);
    assert(drain(dt, 50_000_000) >= 0);
}

} // verus!

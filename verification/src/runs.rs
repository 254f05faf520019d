//! What holds over whole runs: of one behaviour from the moment it is entered, and of the brain
//! from one frame to the next.

use vstd::prelude::*;

use crate::active::{is_bearing, Act, Outcome};
use crate::arbiter::{Mind, Verdict};
use crate::behaviours::{Kind, Limits};
use crate::world::World;

verus! {

/// What one tick of a behaviour goes by.
pub ghost struct Frame {
    pub w: World,
    pub limits: Limits,
    pub bearing: Option<i64>,
}

/// What a behaviour makes of a frame.
#[verifier::opaque]
pub open spec fn tick_of(a: Act, seed: u64, f: Frame) -> Outcome {
    a.readied(f.w).advanced(f.w, f.limits, seed, f.bearing)
}

/// A behaviour after the first `k` frames, and the seed they leave.
pub open spec fn act_after(a: Act, seed: u64, frames: Seq<Frame>, k: nat) -> (Act, u64)
    decreases k,
{
    if k == 0 {
        (a, seed)
    } else {
        let before = act_after(a, seed, frames, (k - 1) as nat);
        let o = tick_of(before.0, before.1, frames[k - 1]);
        (o.act, o.seed)
    }
}

/// What frame `k` of a run comes to.
pub open spec fn outcome_at(a: Act, seed: u64, frames: Seq<Frame>, k: nat) -> Outcome {
    let before = act_after(a, seed, frames, k);
    tick_of(before.0, before.1, frames[k as int])
}

/// A tick that makes a sound or asks for a skill leaves a behaviour that will not do so again.
proof fn lemma_tick_asks_once(a: Act, seed: u64, f: Frame)
    requires
        !(a.kind is Maze),
    ensures
        ({
            let o = tick_of(a, seed, f);
            &&& o.act.kind == a.kind
            &&& o.act.since == a.since
            &&& a.fired ==> o.act.fired && o.intents.sound is None
            &&& o.intents.sound is Some ==> o.act.fired
            &&& a.kind is Nap ==> (o.intents.skill is Some ==> !a.fired && o.act.fired)
            &&& a.kind is GroundPick ==> (o.intents.skill is Some <==> a.phase == 0) && o.act.phase
                > 0
            &&& !(a.kind is Nap || a.kind is GroundPick) ==> o.intents.skill is None
        }),
{
    reveal(tick_of);
}

/// A tick of a gesture ends it when its time is over; it fires with a sound, a sneeze in its
/// time and the others at once.
proof fn lemma_gesture_tick(a: Act, seed: u64, f: Frame)
    requires
        is_gesture(a.kind),
    ensures
        ({
            let o = tick_of(a, seed, f);
            let age = f.w.t - a.since;
            &&& o.done <==> age > gesture_length(a.kind)
            &&& !a.fired && o.act.fired ==> o.intents.sound is Some
            &&& !(a.kind is Sneeze) ==> o.act.fired
            &&& 500_000_000 <= age < 800_000_000 ==> o.act.fired
        }),
{
    reveal(tick_of);
}

proof fn lemma_run_keeps_what_was_asked(a: Act, seed: u64, frames: Seq<Frame>, i: nat, j: nat)
    requires
        !(a.kind is Maze),
        i <= j <= frames.len(),
    ensures
        act_after(a, seed, frames, j).0.kind == a.kind,
        act_after(a, seed, frames, j).0.since == a.since,
        act_after(a, seed, frames, i).0.fired ==> act_after(a, seed, frames, j).0.fired,
        a.kind is GroundPick && act_after(a, seed, frames, i).0.phase > 0 ==> act_after(
            a,
            seed,
            frames,
            j,
        ).0.phase > 0,
    decreases j,
{
    if j > 0 {
        if i < j {
            lemma_run_keeps_what_was_asked(a, seed, frames, i, (j - 1) as nat);
        } else {
            lemma_run_keeps_what_was_asked(a, seed, frames, (j - 1) as nat, (j - 1) as nat);
        }
        let before = act_after(a, seed, frames, (j - 1) as nat);
        lemma_tick_asks_once(before.0, before.1, frames[j - 1]);
    }
}

/// Sounds and skills are asked for once per activation: of all the ticks of a behaviour, one at
/// most makes a sound and one at most asks for a skill.
pub proof fn law_one_sound_and_one_skill(a: Act, seed: u64, frames: Seq<Frame>, i: nat, j: nat)
    requires
        !(a.kind is Maze),
        i < j < frames.len(),
    ensures
        outcome_at(a, seed, frames, i).intents.sound is Some ==> outcome_at(
            a,
            seed,
            frames,
            j,
        ).intents.sound is None,
        outcome_at(a, seed, frames, i).intents.skill is Some ==> outcome_at(
            a,
            seed,
            frames,
            j,
        ).intents.skill is None,
{
    lemma_run_keeps_what_was_asked(a, seed, frames, i, i);
    lemma_run_keeps_what_was_asked(a, seed, frames, i + 1, j);
    let (x, y) = (act_after(a, seed, frames, i), act_after(a, seed, frames, j));
    lemma_tick_asks_once(x.0, x.1, frames[i as int]);
    lemma_tick_asks_once(y.0, y.1, frames[j as int]);
    assert(act_after(a, seed, frames, i + 1).0 == outcome_at(a, seed, frames, i).act);
}

pub open spec fn is_gesture(kind: Kind) -> bool {
    kind is Stretch || kind is Ruffle || kind is Preen || kind is Sneeze
}

/// How long a gesture lasts.
pub open spec fn gesture_length(kind: Kind) -> int {
    match kind {
        Kind::Stretch => 3_000_000_000,
        Kind::Ruffle => 2_500_000_000,
        Kind::Preen => 3_500_000_000,
        _ => 1_500_000_000,
    }
}

/// Frames that come in order, less than 0.3 s apart, from the moment `since` on.
pub open spec fn is_steady(frames: Seq<Frame>, since: i64) -> bool {
    &&& frames.len() > 0 ==> 0 <= frames[0].w.t - since < 300_000_000
    &&& forall|i: int|
        0 < i < frames.len() ==> 0 <= #[trigger] frames[i].w.t - frames[i - 1].w.t < 300_000_000
}

/// What has fired since it was entered has made a sound.
proof fn lemma_fired_was_heard(a: Act, seed: u64, frames: Seq<Frame>, k: nat)
    requires
        is_gesture(a.kind),
        !a.fired,
        k <= frames.len(),
        act_after(a, seed, frames, k).0.fired,
    ensures
        exists|i: nat| i < k && (#[trigger] outcome_at(a, seed, frames, i)).intents.sound is Some,
    decreases k,
{
    let before = act_after(a, seed, frames, (k - 1) as nat);
    lemma_run_keeps_what_was_asked(a, seed, frames, 0, (k - 1) as nat);
    if before.0.fired {
        lemma_fired_was_heard(a, seed, frames, (k - 1) as nat);
    } else {
        lemma_gesture_tick(before.0, before.1, frames[k - 1]);
        assert(outcome_at(a, seed, frames, (k - 1) as nat).intents.sound is Some);
    }
}

/// A sneeze has made its sound once half a second has passed.
proof fn lemma_sneeze_is_out(a: Act, seed: u64, frames: Seq<Frame>, k: nat)
    requires
        a.kind is Sneeze,
        is_steady(frames, a.since),
        k < frames.len(),
        frames[k as int].w.t - a.since >= 500_000_000,
    ensures
        act_after(a, seed, frames, k + 1).0.fired,
    decreases k,
{
    lemma_run_keeps_what_was_asked(a, seed, frames, 0, k);
    assert(k > 0);
    assert(0 <= frames[k as int].w.t - frames[k - 1].w.t < 300_000_000);
    if frames[k - 1].w.t - a.since >= 500_000_000 {
        lemma_sneeze_is_out(a, seed, frames, (k - 1) as nat);
        lemma_run_keeps_what_was_asked(a, seed, frames, k, k + 1);
    } else {
        let before = act_after(a, seed, frames, k);
        lemma_gesture_tick(before.0, before.1, frames[k as int]);
    }
}

/// A gesture comes with a sound: it ends when its time is over, after three and a half seconds
/// at most, and by then one of its ticks has made a sound.
pub proof fn law_gestures_are_heard(
    kind: Kind,
    w: World,
    seed: u64,
    frames: Seq<Frame>,
    k: nat,
)
    requires
        is_gesture(kind),
        is_steady(frames, w.t),
        k < frames.len(),
    ensures
        ({
            let a = Act::entered(kind, w, seed);
            let next = Act::seed_entered(kind, w, seed);
            let o = outcome_at(a, next, frames, k);
            &&& o.done <==> frames[k as int].w.t - w.t > gesture_length(kind)
            &&& o.done ==> exists|i: nat|
                i <= k && (#[trigger] outcome_at(a, next, frames, i)).intents.sound is Some
        }),
{
    let a = Act::entered(kind, w, seed);
    let next = Act::seed_entered(kind, w, seed);
    lemma_run_keeps_what_was_asked(a, next, frames, 0, k);
    let o = outcome_at(a, next, frames, k);
    let before = act_after(a, next, frames, k);
    lemma_gesture_tick(before.0, before.1, frames[k as int]);
    if o.done {
        if kind is Sneeze {
            lemma_sneeze_is_out(a, next, frames, k);
        }
        assert(act_after(a, next, frames, k + 1).0 == o.act);
        lemma_fired_was_heard(a, next, frames, k + 1);
        let i = choose|i: nat|
            i < k + 1 && (#[trigger] outcome_at(a, next, frames, i)).intents.sound is Some;
        assert(i <= k && outcome_at(a, next, frames, i).intents.sound is Some);
    }
}

/// What the brain decides on a frame.
#[verifier::opaque]
pub open spec fn decided(m: Mind, frame: (World, Limits), bearing: Option<i64>) -> Verdict {
    m.ticked(frame.0, frame.1, bearing)
}

/// What it has to know the bearing of for that.
#[verifier::opaque]
pub open spec fn sighted(m: Mind, frame: (World, Limits)) -> Option<(int, int)> {
    m.sights(frame.0)
}

/// The brain after the first `k` frames, told the bearings `bearings`.
pub open spec fn mind_after(
    m: Mind,
    frames: Seq<(World, Limits)>,
    bearings: Seq<Option<i64>>,
    k: nat,
) -> Mind
    decreases k,
{
    if k == 0 {
        m
    } else {
        decided(
            mind_after(m, frames, bearings, (k - 1) as nat),
            frames[k - 1],
            bearings[k - 1],
        ).mind
    }
}

/// What it decides on frame `k`.
pub open spec fn verdict_at(
    m: Mind,
    frames: Seq<(World, Limits)>,
    bearings: Seq<Option<i64>>,
    k: nat,
) -> Verdict {
    decided(mind_after(m, frames, bearings, k), frames[k as int], bearings[k as int])
}

/// Every bearing the brain was told is what `bearing` gives for the point it sighted.
pub open spec fn is_told<F: Fn(i128, i128) -> i64>(
    bearing: F,
    m: Mind,
    frames: Seq<(World, Limits)>,
    bearings: Seq<Option<i64>>,
) -> bool {
    &&& bearings.len() == frames.len()
    &&& forall|k: nat|
        k < frames.len() ==> is_bearing(
            bearing,
            sighted(#[trigger] mind_after(m, frames, bearings, k), frames[k as int]),
            bearings[k as int],
        )
}

/// Same seed, same frames, same decisions: where a direction is settled by its point, two
/// brains booted with one seed and shown the same frames decide the same on every one of them,
/// status, intents and change, and are of one mind after it.
pub proof fn law_same_seed_same_run<F: Fn(i128, i128) -> i64>(
    bearing: F,
    seed: u64,
    on: bool,
    frames: Seq<(World, Limits)>,
    one: Seq<Option<i64>>,
    two: Seq<Option<i64>>,
    k: nat,
)
    requires
        forall|dy: i128, dx: i128, v: i64, u: i64|
            call_ensures(bearing, (dy, dx), v) && call_ensures(bearing, (dy, dx), u) ==> v == u,
        is_told(bearing, Mind::fresh(seed, on), frames, one),
        is_told(bearing, Mind::fresh(seed, on), frames, two),
        k < frames.len(),
    ensures
        verdict_at(Mind::fresh(seed, on), frames, one, k) == verdict_at(
            Mind::fresh(seed, on),
            frames,
            two,
            k,
        ),
    decreases k,
{
    let m = Mind::fresh(seed, on);
    if k > 0 {
        law_same_seed_same_run(bearing, seed, on, frames, one, two, (k - 1) as nat);
    }
    assert(mind_after(m, frames, one, k) == mind_after(m, frames, two, k));
    assert(one[k as int] == two[k as int]);
}

} // verus!

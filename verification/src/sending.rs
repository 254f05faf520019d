//! What is sent and what is heard: every intent goes out once and nothing else does, and a line
//! from the plant is what it says it is.

use vstd::prelude::*;

use crate::active::Outcome;
use crate::arbiter::{Decision, Mind, Status};
use crate::behaviours::{Intents, Kind, Level, Limits};
use crate::bench::{event_on, id_of, place_of};
use crate::daemon::{commands, greets, is_to_enable, kind_named, mode_named, Command};
use crate::plant::{
    is_slow, temp_at, Frame, Heard, Plant, PlantError, Request, Sensors, SlowSensors,
};
use crate::proto::{EventKind, RobotEvent, RobotState};
use crate::text::numeral;
use crate::world::{head_of, patch_of, Mode, Novelty, Senses, World};

verus! {

/// Some part of a twist is more than a billionth.
pub open spec fn stirs(t: [i64; 3]) -> bool {
    !(-1 <= t[0] <= 1 && -1 <= t[1] <= 1 && -1 <= t[2] <= 1)
}

pub open spec fn if_any<T>(v: Option<T>) -> int {
    if v is Some {
        1
    } else {
        0
    }
}

/// Every intent is sent, once, as it is, and nothing that was not intended: a twist that moves
/// the robot or stops one that did, the head, the body pose, the mouth, a skill, a sound, in
/// that order. A body pose that is neutral is released.
pub proof fn law_every_intent_is_sent_once(i: Intents, moved: bool)
    ensures
        ({
            let out = commands(i, moved);
            let moves = if stirs(i.twist) || moved {
                1int
            } else {
                0
            };
            let head = moves + if_any(i.head);
            let pose = head + if_any(i.pose);
            let mouth = pose + if_any(i.mouth);
            let skill = mouth + if_any(i.skill);
            &&& out.len() == skill + if_any(i.sound)
            &&& moves == 1 ==> out[0] == (Command::Move {
                vx: i.twist[0],
                vy: i.twist[1],
                vyaw: i.twist[2],
            })
            &&& i.head matches Some(h) ==> out[moves] == (Command::Head { joints: h })
            &&& i.pose matches Some(p) ==> out[head] matches Command::Pose { z, roll, pitch, active }
                && z == p.0 && roll == p.1 && pitch == p.2
            &&& i.mouth matches Some(m) ==> out[pose] == (Command::Mouth { open: m })
            &&& i.skill matches Some(s) ==> out[mouth] == (Command::Do { skill: s })
            &&& i.sound matches Some(s) ==> out[skill] == (Command::Sound { tag: s })
        }),
        i.pose matches Some(p) ==> forall|k: int|
            0 <= k < commands(i, moved).len() ==> (
            #[trigger] commands(i, moved)[k] matches Command::Pose { z, roll, pitch, active }
                ==> active == !(is_nothing(p.0) && is_nothing(p.1) && is_nothing(p.2))),
{
}

/// A level that is zero and stays there.
pub open spec fn is_nothing(l: Level) -> bool {
    l.base == 0 && (l.amp == 0 || l.phase == 0)
}

/// What is done leaves its last sound behind and nothing else, and what goes on is sent as it
/// wants it.
pub proof fn law_parting_sound_is_kept(m: Mind, w: World, was: Option<Kind>, o: Outcome)
    ensures
        ({
            let v = m.acted(w, was, o);
            &&& v.intents is Some
            &&& v.intents->0.sound == o.intents.sound
            &&& o.done ==> v.intents->0.skill is None && v.intents->0.twist@ == seq![0i64, 0, 0]
            &&& !o.done ==> v.intents->0.skill == o.intents.skill && v.intents->0.twist
                == o.intents.twist
            &&& !o.done && !m.entered ==> v.intents == Some(o.intents)
            &&& !o.done ==> v.mind.active == Some(o.act) && v.mind.seed == o.seed
            &&& o.done ==> v.mind.active is None && v.mind.current_score == 0
            &&& v.mind.maze_solved == (m.maze_solved || o.done && o.act.kind is Maze)
        }),
{
    assert(Intents::rest().twist@ =~= seq![0i64, 0, 0]);
}

/// A nap is left alone without a cause: not rested, or not long enough down, and with no sound
/// since it began and no hand.
pub proof fn law_naps_are_left_alone(m: Mind, w: World)
    requires
        m.active matches Some(a) ==> {
            &&& 100 * m.drives.energy <= 85 * 36_000_000_000_000 || w.t - a.since < 40_000_000_000
            &&& w.last_noise matches Some(t) ==> t <= a.since
            &&& w.last_voice matches Some(t) ==> t <= a.since
            &&& w.petting_since is None
        },
    ensures
        !m.wakes(w),
{
}

/// A line is refused if it is no JSON or does not say that it is well, in the plant's words if it
/// has any; it is late if it answers an earlier request; and otherwise it is the answer.
pub proof fn law_lines_are_what_they_say(
    p: Plant,
    h: Heard,
    fault: Option<Seq<char>>,
    seq: Option<u64>,
    ok: Option<bool>,
    error: Option<Seq<char>>,
)
    requires
        p.is_heard(h, fault, seq, ok, error),
    ensures
        fault is Some ==> h is Refused,
        ({
            let early = seq matches Some(n) && n < p.seq;
            &&& fault is None && early ==> h is Late
            &&& fault is None && !early && ok == Some(true) ==> h is Answered
            &&& fault is None && !early && ok != Some(true) ==> h is Refused
            &&& fault is None && !early && ok != Some(true) && error is Some ==> (
            h matches Heard::Refused(PlantError::Bus(s)) && s@ == error->0)
        }),
{
}

/// A frame's sensors are its own, joint by joint; a frame that lacks a joint is told as short by
/// what it has least of.
pub proof fn law_sensors_are_the_frames(f: Frame, s: Sensors, i: int)
    ensures
        f.is_whole() <==> f.pos@.len() == 15 && f.vel@.len() == 15,
        f.says(s) && 0 <= i < 15 ==> s.positions@[i] == f.pos@[i] && s.velocities@[i] == f.vel@[i],
        f.says(s) && 0 <= i < 3 ==> s.gyro@[i] == f.gyro@[i] && s.gravity@[i] == f.gravity@[i],
        f.says(s) && 0 <= i < 4 ==> s.quat@[i] == f.quat@[i],
        f.pos@.len() <= usize::MAX && f.vel@.len() <= usize::MAX ==> (
        f.shortfall() matches PlantError::ShortRead { expected, got } && expected == 15 && got
            <= f.pos@.len() && got <= f.vel@.len() && (got == f.pos@.len() || got == f.vel@.len())),
{
}

/// A voltage is needed; a temperature that is not there or no number is zero, and each is that
/// of its own joint.
pub proof fn law_slow_sensors_are_by_joint(
    r: Result<SlowSensors, PlantError>,
    volts: Option<u64>,
    temps: Option<Seq<Option<u64>>>,
    i: int,
)
    requires
        is_slow(r, volts, temps),
        0 <= i < 15,
    ensures
        volts is None ==> r is Err,
        volts matches Some(v) ==> r is Ok && r->Ok_0.volts == v,
        volts is Some && temps is Some && i < temps->0.len() && temps->0[i] is Some
            ==> r->Ok_0.temps_c@[i] == temps->0[i]->0,
        volts is Some && (temps is None || i >= temps->0.len() || temps->0[i] is None)
            ==> r->Ok_0.temps_c@[i] == 0,
{
    if volts is Some {
        assert(r->Ok_0.temps_c@[i] == temp_at(temps, i));
    }
}

/// A walking robot goes as fast as it may, but never too slow to start, and turns at a radian a
/// second; a roller goes at 0.6 m/s and turns at 0.3 rad/s. Whatever is not called a roller walks.
pub proof fn law_gaits_have_their_speeds(max_linear: i64, name: Seq<char>)
    ensures
        ({
            let walk = Limits::allowed(Mode::Walk, max_linear);
            let roll = Limits::allowed(Mode::Roller, max_linear);
            &&& walk.linear >= 300_000_000 && walk.linear >= max_linear
            &&& walk.linear == max_linear || walk.linear == 300_000_000
            &&& walk.angular == 1_000_000_000
            &&& roll.linear == 600_000_000 && roll.angular == 300_000_000
        }),
        name == "roller"@ <==> mode_named(name) is Roller,
{
}

/// A robot is enabled once, if it was asked for, and only while it is known to be held; a limp one
/// or one that walks is never touched.
pub proof fn law_robot_is_enabled_only_when_held(asked: bool, done: bool, w: World)
    ensures
        is_to_enable(asked, done, w) ==> asked && !done && w.have_state && w.policy@ == "held"@
            && !w.is_standing(),
        asked && !done && w.have_state && w.policy@ == "held"@ ==> is_to_enable(asked, done, w),
{
    reveal_strlit("held");
    reveal_strlit("stand");
    reveal_strlit("walk");
    assert("held"@[0] != "walk"@[0]);
    assert("held"@.len() != "stand"@.len());
}

/// A duck is greeted once, when the greeting is heard: from then on it is known, nothing waits,
/// and when it is seen again it is no stranger.
pub proof fn law_greeted_duck_is_known(s: Senses, d: Decision, id: u16, stranger: bool, t: i64)
    requires
        s.greet_pending == Some((id, stranger)),
    ensures
        ({
            let g = s.greeted();
            let again = g.after(t, RobotEvent { kind: EventKind::DuckSeen, id: Some(id) });
            &&& g.known_ducks.contains(id)
            &&& g.greet_pending is None
            &&& g.greeted() == g
            &&& again.greet_pending == Some((id, false))
            &&& forall|o: u16| o != id ==> (#[trigger] g.known_ducks.contains(o)
                <==> s.known_ducks.contains(o))
            &&& g.ducks == s.ducks && g.beats == s.beats && g.last_company == s.last_company
            &&& g.petting_since == s.petting_since && g.last_noise == s.last_noise
        }),
        greets(d) <==> d.status == Status::Active(Kind::Greet) && d.intents is Some
            && d.intents->0.sound is Some,
{
}

/// The head is where its own four joints are, the sixth to the ninth; a short list of joints says
/// nothing. A trunk lower than two centimetres is not measured. Ground is trodden by
/// a robot on its feet only.
pub proof fn law_state_is_taken_as_it_is(
    joints: Seq<i64>,
    before: Seq<i64>,
    w: World,
    g: Novelty,
    x: int,
    y: int,
    t: int,
)
    ensures
        joints.len() >= 9 ==> head_of(joints, before) == seq![
            joints[5],
            joints[6],
            joints[7],
            joints[8],
        ],
        joints.len() < 9 ==> head_of(joints, before) == before,
        w.odom@[2] > 20_000_000 ==> w.height() == Some(w.odom@[2]),
        w.odom@[2] <= 20_000_000 ==> w.height() is None,
        t - g.faded_at < 600_000_000_000 ==> g.stood(false, x, y, t) == g,
        t - g.faded_at < 600_000_000_000 && g.last != Some(patch_of(x, y)) && g.count(
            patch_of(x, y),
        ) < u32::MAX ==> g.stood(true, x, y, t).count(patch_of(x, y)) == g.count(patch_of(x, y))
            + 1,
        g.stood(true, x, y, t).last == Some(patch_of(x, y)),
{
    if joints.len() >= 9 {
        assert(joints.subrange(5, 9) =~= seq![joints[5], joints[6], joints[7], joints[8]]);
    }
}

proof fn lemma_place(line: Seq<char>, from: nat, to: nat, blank: bool)
    requires
        from <= to <= line.len(),
        forall|j: int| from <= j < to ==> is_space(#[trigger] line[j]) != blank,
        to < line.len() ==> is_space(line[to as int]) == blank,
    ensures
        place_of(line, from, blank) == to,
    decreases to - from,
{
    if from < to {
        assert(is_space(line[from as int]) != blank);
        lemma_place(line, from + 1, to, blank);
    }
}

/// A space, a tab, or the end of a line.
pub open spec fn is_space(c: char) -> bool {
    c == ' ' || c == '\t' || c == '\n' || c == '\r'
}

/// A line on the bench is a name and, if there is another word, a number: the name says what
/// happened and the number to whom. Spaces around them count for nothing, and what follows is
/// not read.
pub proof fn law_bench_line_is_two_words(line: Seq<char>, a: nat, b: nat, c: nat, d: nat)
    requires
        a < b <= c <= d <= line.len(),
        forall|j: int| 0 <= j < a ==> is_space(#[trigger] line[j]),
        forall|j: int| a <= j < b ==> !is_space(#[trigger] line[j]),
        forall|j: int| b <= j < c ==> is_space(#[trigger] line[j]),
        forall|j: int| c <= j < d ==> !is_space(#[trigger] line[j]),
        b < line.len() ==> is_space(line[b as int]),
        c == d ==> c == line.len(),
        d < line.len() ==> is_space(line[d as int]),
    ensures
        ({
            let (name, word) = (line.subrange(a as int, b as int), line.subrange(c as int, d as int));
            let e = event_on(line);
            &&& e is Some <==> kind_named(name) is Some
            &&& e is Some ==> e->0.kind == kind_named(name)->0
            &&& e is Some && word.len() == 0 ==> e->0.id is None
            &&& e is Some ==> e->0.id == id_of(word)
        }),
{
    lemma_place(line, 0, a, false);
    lemma_place(line, a, b, true);
    lemma_place(line, b, c, false);
    lemma_place(line, c, d, true);
}

/// An identity is written in digits and nothing else, and is the number they write if it is no
/// more than 65535.
pub proof fn law_identities_are_numbers(n: nat, word: Seq<char>, i: int)
    ensures
        n <= 65_535 ==> id_of(numeral(n)) == Some(n as u16),
        n > 65_535 ==> id_of(numeral(n)) is None,
        0 <= i < word.len() && !('0' <= word[i] <= '9') ==> id_of(word) is None,
        word.len() == 0 ==> id_of(word) is None,
{
    crate::figures::law_numerals_read_back(n);
}

/// Every event has its name, and no two the same.
pub proof fn law_events_have_their_names(name: Seq<char>)
    ensures
        kind_named(name) == Some(EventKind::SoundNoise) <==> name == "sound_noise"@,
        kind_named(name) == Some(EventKind::SoundVoice) <==> name == "sound_voice"@,
        kind_named(name) == Some(EventKind::PetStart) <==> name == "pet_start"@,
        kind_named(name) == Some(EventKind::PetEnd) <==> name == "pet_end"@,
        kind_named(name) == Some(EventKind::Beat) <==> name == "beat"@,
        kind_named(name) == Some(EventKind::DuckSeen) <==> name == "duck_seen"@,
        kind_named(name) == Some(EventKind::DuckLost) <==> name == "duck_lost"@,
{
    reveal_strlit("sound_noise");
    reveal_strlit("sound_voice");
    reveal_strlit("pet_start");
    reveal_strlit("pet_end");
    reveal_strlit("beat");
    reveal_strlit("duck_seen");
    reveal_strlit("duck_lost");
    assert("sound_noise"@[6] != "sound_voice"@[6]);
    assert("pet_start"@[0] != "duck_seen"@[0]);
    assert("duck_seen"@[5] != "duck_lost"@[5]);
    assert("pet_start"@[0] != "duck_lost"@[0]);
    assert("pet_end"@.len() == 7 && "beat"@.len() == 4 && "pet_start"@.len() == 9);
    assert("sound_noise"@.len() == 11 && "duck_seen"@.len() == 9 && "duck_lost"@.len() == 9);
    assert("sound_voice"@.len() == 11);
}

/// At rest the robot stands still with its head and body level and its bill shut; to be idle is to
/// ask for nothing but to stand still. What starts leaves nothing from before: the head, the body
/// and the bill it does not use are put at rest.
pub proof fn law_rest_is_neutral(m: Mind, w: World, was: Option<Kind>, o: Outcome, k: int)
    requires
        0 <= k < 4,
    ensures
        ({
            let r = Intents::rest();
            let flat = Level { base: 0, amp: 0, phase: 0 };
            let i = m.acted(w, was, o).intents->0;
            &&& r.twist@ == seq![0i64, 0, 0]
            &&& r.head is Some && r.head->0[k] == flat
            &&& r.pose == Some((flat, flat, flat))
            &&& r.mouth == Some(flat)
            &&& r.skill is None && r.sound is None
            &&& Intents::idle().twist@ == seq![0i64, 0, 0]
            &&& Intents::idle().head is None && Intents::idle().pose is None
            &&& Intents::idle().mouth is None && Intents::idle().skill is None
            &&& Intents::idle().sound is None
            &&& m.entered && !o.done && o.intents.head is None ==> i.head is Some && i.head->0[k]
                == flat
            &&& m.entered && !o.done && o.intents.head is Some ==> i.head == o.intents.head
            &&& m.entered && !o.done && o.intents.mouth is None ==> i.mouth == Some(flat)
            &&& m.entered && !o.done && o.intents.mouth is Some ==> i.mouth == o.intents.mouth
            &&& m.entered && !o.done && o.intents.pose is None ==> i.pose == Some(
                (flat, flat, flat),
            )
        }),
{
    assert(Intents::rest().twist@ =~= seq![0i64, 0, 0]);
    assert(Intents::idle().twist@ =~= seq![0i64, 0, 0]);
}

/// The robot stands for the brain when it says so itself, and is where its odometry puts it.
pub proof fn law_robot_stands_when_it_says_so(s: RobotState, w: World)
    requires
        w.policy@ == s.policy@,
        w.fallen == s.safety.fallen,
        w.limp == s.safety.limp,
        w.odom == s.odom.position,
        w.facing == s.odom.facing,
    ensures
        w.is_standing() == s.is_standing(),
        s.is_standing() <==> (s.policy@ == "stand"@ || s.policy@ == "walk"@) && !s.safety.fallen
            && !s.safety.limp,
        w.pose_of().x == s.odom.position@[0],
        w.pose_of().y == s.odom.position@[1],
        w.pose_of().facing == s.odom.facing,
{
}

proof fn lemma_framed(p: Seq<char>, a: Seq<char>, b: Seq<char>, q: Seq<char>)
    requires
        p + a + q == p + b + q,
    ensures
        a == b,
{
    let (x, y) = (p + a + q, p + b + q);
    assert(x.len() == p.len() + a.len() + q.len());
    assert(y.len() == p.len() + b.len() + q.len());
    assert(a.len() == b.len());
    assert(x.subrange(p.len() as int, (p.len() + a.len()) as int) =~= a);
    assert(y.subrange(p.len() as int, (p.len() + a.len()) as int) =~= b);
}

/// A request is one line that ends where it should, and bears its number: no two lines of one
/// request are alike but those of one number.
pub proof fn law_requests_bear_their_number(r: Request, m: u64, n: u64)
    ensures
        r.line(n).len() > 2,
        r.line(n)[0] == '{',
        r.line(n).last() == '\n',
        r.line(n)[r.line(n).len() - 2] == '}',
        r.line(m) == r.line(n) ==> m == n,
{
    reveal_strlit("{\"op\":\"hello\",\"seq\":");
    reveal_strlit(",\"version\":1}\n");
    reveal_strlit("{\"op\":\"read\",\"seq\":");
    reveal_strlit("}\n");
    reveal_strlit("{\"op\":\"step\",\"seq\":");
    reveal_strlit("{\"kp\":");
    reveal_strlit("{\"on\":");
    reveal_strlit("{\"op\":\"slow\",\"seq\":");
    let (a, b) = (numeral(m as nat), numeral(n as nat));
    if r.line(m) == r.line(n) {
        match r {
            Request::Hello => {
                lemma_framed("{\"op\":\"hello\",\"seq\":"@, a, b, ",\"version\":1}\n"@);
            },
            Request::Read => {
                lemma_framed("{\"op\":\"read\",\"seq\":"@, a, b, "}\n"@);
            },
            Request::Slow => {
                lemma_framed("{\"op\":\"slow\",\"seq\":"@, a, b, "}\n"@);
            },
            Request::Step { targets } => {
                let q = ",\"targets\":"@ + targets@ + "}\n"@;
                let p = "{\"op\":\"step\",\"seq\":"@;
                assert(r.line(m) =~= p + a + q);
                assert(r.line(n) =~= p + b + q);
                lemma_framed(p, a, b, q);
            },
            Request::Gain { kp } => {
                let p = "{\"kp\":"@ + numeral(kp as nat) + ",\"op\":\"gain\",\"seq\":"@;
                lemma_framed(p, a, b, "}\n"@);
            },
            Request::Torque { on } => {
                let p = "{\"on\":"@ + (if on {
                    "true"@
                } else {
                    "false"@
                }) + ",\"op\":\"torque\",\"seq\":"@;
                lemma_framed(p, a, b, "}\n"@);
            },
        }
        crate::figures::law_numerals_read_back(m as nat);
        crate::figures::law_numerals_read_back(n as nat);
    }
}

} // verus!

//! Between the arbiter and the wire: what is sent for a decision, and what is remembered of it.

use vstd::prelude::*;

use crate::arbiter::{Decision, Status};
use crate::behaviours::{Intents, Kind, Level};
use crate::proto::{EventKind, Skill, SoundTag};
use crate::world::{Mode, World};

verus! {

/// One thing to send to the robot.
#[derive(Debug, Clone, Copy, PartialEq, Eq)]
pub enum Command {
    Move { vx: i64, vy: i64, vyaw: i64 },
    /// neck_pitch, head_pitch, head_yaw, head_roll.
    Head { joints: [Level; 4] },
    /// A body pose that is neutral is released.
    Pose { z: Level, roll: Level, pitch: Level, active: bool },
    Mouth { open: Level },
    Do { skill: Skill },
    Sound { tag: SoundTag },
}

/// A twist that moves the robot: more than a billionth of anything.
pub open spec fn is_moving(twist: [i64; 3]) -> bool {
    ||| twist[0] > 1 || twist[0] < -1
    ||| twist[1] > 1 || twist[1] < -1
    ||| twist[2] > 1 || twist[2] < -1
}

fn moving(twist: &[i64; 3]) -> (r: bool)
    ensures
        r == is_moving(*twist),
{
    twist[0] > 1 || twist[0] < -1 || twist[1] > 1 || twist[1] < -1 || twist[2] > 1 || twist[2] < -1
}

/// What is sent for intents, in order: the twist while the robot moves and once to stop it,
/// then whatever else is wanted. `moved` tells whether the last twist sent moved the robot.
pub open spec fn commands(i: Intents, moved: bool) -> Seq<Command> {
    let none = Seq::<Command>::empty();
    let twist = if is_moving(i.twist) || moved {
        none.push(Command::Move { vx: i.twist[0], vy: i.twist[1], vyaw: i.twist[2] })
    } else {
        none
    };
    let head = match i.head {
        Some(h) => twist.push(Command::Head { joints: h }),
        None => twist,
    };
    let pose = match i.pose {
        Some(p) => head.push(
            Command::Pose {
                z: p.0,
                roll: p.1,
                pitch: p.2,
                active: !p.0.is_zero() || !p.1.is_zero() || !p.2.is_zero(),
            },
        ),
        None => head,
    };
    let mouth = match i.mouth {
        Some(m) => pose.push(Command::Mouth { open: m }),
        None => pose,
    };
    let skill = match i.skill {
        Some(s) => mouth.push(Command::Do { skill: s }),
        None => mouth,
    };
    match i.sound {
        Some(t) => skill.push(Command::Sound { tag: t }),
        None => skill,
    }
}

/// What to send for intents, and whether the twist moves the robot.
pub fn outgoing(i: &Intents, moved: bool) -> (r: (Vec<Command>, bool))
    ensures
        r.0@ == commands(*i, moved),
        r.1 == is_moving(i.twist),
{
    let moves: bool = moving(&i.twist);
    let mut out: Vec<Command> = Vec::new();
    if moves || moved {
        out.push(Command::Move { vx: i.twist[0], vy: i.twist[1], vyaw: i.twist[2] });
    }
    if let Some(h) = i.head {
        out.push(Command::Head { joints: h });
    }
    if let Some((z, roll, pitch)) = i.pose {
        let active: bool = !z.zero() || !roll.zero() || !pitch.zero();
        out.push(Command::Pose { z, roll, pitch, active });
    }
    if let Some(m) = i.mouth {
        out.push(Command::Mouth { open: m });
    }
    if let Some(s) = i.skill {
        out.push(Command::Do { skill: s });
    }
    if let Some(t) = i.sound {
        out.push(Command::Sound { tag: t });
    }
    (out, moves)
}

/// A decision that greets a duck: the greeting's own call.
pub open spec fn greets(d: Decision) -> bool {
    &&& d.status == Status::Active(Kind::Greet)
    &&& d.intents matches Some(i)
    &&& i.sound is Some
}

/// What the world remembers of a decision: a duck that was greeted is known from then on.
pub fn follow_up(w: &mut World, d: &Decision)
    ensures
        final(w).senses() == (if greets(*d) {
            old(w).senses().greeted()
        } else {
            old(w).senses()
        }),
        greets(*d) ==> final(w).senses() == (match old(w).greet_pending {
            Some((id, stranger)) => crate::world::Senses {
                known_ducks: old(w).known_ducks@.insert(id),
                greet_pending: None,
                ..old(w).senses()
            },
            None => old(w).senses(),
        }),
        !greets(*d) ==> final(w).senses() == old(w).senses(),
        final(w).same_state(*old(w)),
        final(w).same_view(*old(w)),
{
    let called: bool = match &d.intents {
        Some(i) => i.sound.is_some(),
        None => false,
    };
    if d.status == Status::Active(Kind::Greet) && called {
        w.note_greeted();
    }
}

/// The robot is asked to be enabled, has not been, and is known to be held.
pub open spec fn is_to_enable(asked: bool, done: bool, w: World) -> bool {
    asked && !done && w.have_state && w.policy@ == "held"@
}

/// Whether to enable the robot now: asked for, not done yet, and the robot is held. Never
/// otherwise; a limp robot stays limp until a person says so.
pub fn should_enable(asked: bool, done: bool, w: &World) -> (r: bool)
    ensures
        r == is_to_enable(asked, done, *w),
        r == (asked && !done && w.have_state && w.policy@ == "held"@),
{
    asked && !done && w.have_state && w.driven_by("held")
}

pub open spec fn mode_named(name: Seq<char>) -> Mode {
    if name == "roller"@ {
        Mode::Roller
    } else {
        Mode::Walk
    }
}

impl Mode {
    /// The mode of that name; whatever is not a roller walks.
    pub fn named(name: &String) -> (m: Mode)
        ensures
            m == mode_named(name@),
            m == (if name@ == "roller"@ {
                Mode::Roller
            } else {
                Mode::Walk
            }),
    {
        if *name == "roller".to_owned() {
            Mode::Roller
        } else {
            Mode::Walk
        }
    }
}

/// The kind of event of that name.
pub open spec fn kind_named(name: Seq<char>) -> Option<EventKind> {
    if name == "sound_noise"@ {
        Some(EventKind::SoundNoise)
    } else if name == "sound_voice"@ {
        Some(EventKind::SoundVoice)
    } else if name == "pet_start"@ {
        Some(EventKind::PetStart)
    } else if name == "pet_end"@ {
        Some(EventKind::PetEnd)
    } else if name == "beat"@ {
        Some(EventKind::Beat)
    } else if name == "duck_seen"@ {
        Some(EventKind::DuckSeen)
    } else if name == "duck_lost"@ {
        Some(EventKind::DuckLost)
    } else {
        None
    }
}

impl EventKind {
    /// The kind of event of that name, as the state stream writes it.
    pub fn named(name: &str) -> (k: Option<EventKind>)
        ensures
            k == kind_named(name@),
    {
        let name = name.to_owned();
        if name == "sound_noise".to_owned() {
            Some(EventKind::SoundNoise)
        } else if name == "sound_voice".to_owned() {
            Some(EventKind::SoundVoice)
        } else if name == "pet_start".to_owned() {
            Some(EventKind::PetStart)
        } else if name == "pet_end".to_owned() {
            Some(EventKind::PetEnd)
        } else if name == "beat".to_owned() {
            Some(EventKind::Beat)
        } else if name == "duck_seen".to_owned() {
            Some(EventKind::DuckSeen)
        } else if name == "duck_lost".to_owned() {
            Some(EventKind::DuckLost)
        } else {
            None
        }
    }
}

/// A twist that was sent is always stopped: after intents that move the robot, the next ones
/// that do not send a zero twist.
pub proof fn law_a_twist_is_not_left_running(i: Intents)
    requires
        !is_moving(i.twist),
    ensures
        commands(i, true).len() > 0,
        commands(i, true)[0] == (Command::Move {
            vx: i.twist[0],
            vy: i.twist[1],
            vyaw: i.twist[2],
        }),
        commands(i, false).len() == 0 || !(commands(i, false)[0] is Move),
{
}

} // verus!

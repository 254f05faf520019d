//! What the robot reports and what it can be asked, as plain values.

use vstd::prelude::*;

verus! {

/// Something that happened to the robot.
#[derive(Debug, Clone, Copy, PartialEq, Eq, Structural)]
pub enum EventKind {
    SoundNoise,
    SoundVoice,
    PetStart,
    PetEnd,
    Beat,
    DuckSeen,
    DuckLost,
}

/// An event, with the beacon id of the duck it is about where there is one.
#[derive(Debug, Clone, Copy, PartialEq, Eq)]
pub struct RobotEvent {
    pub kind: EventKind,
    pub id: Option<u16>,
}

#[derive(Debug, Clone, Copy, PartialEq, Eq)]
pub struct Safety {
    pub fallen: bool,
    pub limp: bool,
    pub gravity: [i64; 3],
}

/// Where the robot has got to: position, heading, and the heading's cosine and sine.
#[derive(Debug, Clone, Copy, PartialEq, Eq)]
pub struct Odom {
    pub position: [i64; 3],
    pub yaw: i64,
    pub facing: (i32, i32),
}

#[derive(Debug, Clone, Copy, PartialEq, Eq)]
pub struct Movement {
    /// What some client asked for: vx, vy, vyaw.
    pub requested: [i64; 3],
}

/// One frame of the robot's state.
pub struct RobotState {
    /// Robot time.
    pub t: i64,
    /// What drives the robot: `walk`, `stand`, `sit`, `held`, `homing`, `rise`, a skill.
    pub policy: String,
    pub safety: Safety,
    pub odom: Odom,
    /// The head intent some client asked for: neck_pitch, head_pitch, head_yaw, head_roll.
    pub head: [i64; 4],
    /// Measured joint angles; the head's are the sixth to the ninth.
    pub joints: Vec<i64>,
    pub movement: Movement,
}

impl RobotState {
    /// The robot is up and driven by one of its two gaits.
    pub open spec fn is_standing(self) -> bool {
        (self.policy@ == "stand"@ || self.policy@ == "walk"@) && !self.safety.fallen
            && !self.safety.limp
    }
}

/// One frame of the depth sensor as it comes: a distance and a status per beam.
pub struct TofFrame {
    pub distance_mm: Vec<i32>,
    pub status: Vec<u8>,
}

/// A motion the robot can be asked to perform.
#[derive(Debug, Clone, Copy, PartialEq, Eq, Structural)]
pub enum Skill {
    SitToggle,
    GroundPick,
}

/// A sound the robot can be asked to make.
#[derive(Debug, Clone, Copy, PartialEq, Eq, Structural)]
pub enum SoundTag {
    Wheee,
    Peck,
    Alarm,
    Coo,
    Chirp,
    Greet,
    Inquire,
}

} // verus!

//! The behaviours: what each is, what it bids, and what it is allowed to use. One is active
//! at a time; that is the arbiter's business.

use vstd::prelude::*;

use crate::dice::{chance, reseeded, Dice, STEPS};
use crate::drives::{Drives, ONE};
use crate::proto::{Skill, SoundTag};
use crate::world::{Mode, World};

verus! {

/// A quantity that may swing: `base + amp * sin(phase)`, all in billionths. What drives a
/// joint evaluates it; a steady quantity has no swing.
#[derive(Debug, Clone, Copy, PartialEq, Eq, Structural)]
pub struct Level {
    pub base: i64,
    pub amp: i64,
    pub phase: i128,
}

impl Level {
    pub open spec fn steady(v: int) -> Level {
        Level { base: v as i64, amp: 0, phase: 0 }
    }

    /// A quantity that does not swing.
    pub fn flat(v: i64) -> (l: Level)
        ensures
            l == Level::steady(v as int),
    {
        Level { base: v, amp: 0, phase: 0 }
    }

    /// The quantity is nothing at all.
    pub open spec fn is_zero(self) -> bool {
        self.base == 0 && (self.amp == 0 || self.phase == 0)
    }

    pub fn zero(&self) -> (r: bool)
        ensures
            r == self.is_zero(),
    {
        self.base == 0 && (self.amp == 0 || self.phase == 0)
    }
}

/// What a behaviour wants sent this tick. `None` fields are "leave it alone".
#[derive(Debug, Clone, Copy, PartialEq, Eq)]
pub struct Intents {
    /// vx, vy, vyaw in the trunk's frame. Always sent while a behaviour is active (zero
    /// stops).
    pub twist: [i64; 3],
    /// neck_pitch, head_pitch, head_yaw, head_roll, joint space.
    pub head: Option<[Level; 4]>,
    /// z (negative crouches), roll, pitch: body-pose mode.
    pub pose: Option<(Level, Level, Level)>,
    pub skill: Option<Skill>,
    pub sound: Option<SoundTag>,
    /// 0 closed to one open.
    pub mouth: Option<Level>,
}

impl Intents {
    /// Leave everything alone, and stand still.
    pub open spec fn idle() -> Intents {
        Intents {
            twist: [0, 0, 0],
            head: None,
            pose: None,
            skill: None,
            sound: None,
            mouth: None,
        }
    }

    /// Everything to neutral, standing still.
    pub open spec fn rest() -> Intents {
        Intents {
            twist: [0, 0, 0],
            head: Some(level_head(0, 0, 0, 0)),
            pose: Some((Level::steady(0), Level::steady(0), Level::steady(0))),
            skill: None,
            sound: None,
            mouth: Some(Level::steady(0)),
        }
    }
}

/// A head that does not move.
pub open spec fn level_head(neck: int, pitch: int, yaw: int, roll: int) -> [Level; 4] {
    [Level::steady(neck), Level::steady(pitch), Level::steady(yaw), Level::steady(roll)]
}

pub(crate) fn head_at(neck: i64, pitch: i64, yaw: i64, roll: i64) -> (h: [Level; 4])
    ensures
        h == level_head(neck as int, pitch as int, yaw as int, roll as int),
{
    [Level::flat(neck), Level::flat(pitch), Level::flat(yaw), Level::flat(roll)]
}

impl Default for Intents {
    fn default() -> (i: Self)
        ensures
            i == Intents::idle(),
    {
        Intents {
            twist: [0, 0, 0],
            head: None,
            pose: None,
            skill: None,
            sound: None,
            mouth: None,
        }
    }
}

/// Speeds a behaviour may use. The daemon fills these from the mode and its flags.
#[derive(Debug, Clone, Copy, PartialEq, Eq, Structural)]
pub struct Limits {
    pub linear: i64,
    pub angular: i64,
}

impl Limits {
    /// The speeds of a mode, given how fast it may walk.
    pub open spec fn allowed(mode: Mode, max_linear: i64) -> Limits {
        match mode {
            Mode::Walk => Limits {
                linear: if max_linear > 300_000_000 {
                    max_linear
                } else {
                    300_000_000
                },
                angular: 1_000_000_000,
            },
            Mode::Roller => Limits { linear: 600_000_000, angular: 300_000_000 },
        }
    }

    pub fn for_mode(mode: Mode, max_linear: i64) -> (l: Self)
        ensures
            l == Limits::allowed(mode, max_linear),
            l == (match mode {
                // A walking duck much below 0.3 m/s sometimes never starts stepping.
                Mode::Walk => Limits {
                    linear: if max_linear > 300_000_000 {
                        max_linear
                    } else {
                        300_000_000
                    },
                    angular: 1_000_000_000,
                },
                Mode::Roller => Limits { linear: 600_000_000, angular: 300_000_000 },
            }),
    {
        match mode {
            Mode::Walk => Limits {
                linear: if max_linear > 300_000_000 {
                    max_linear
                } else {
                    300_000_000
                },
                angular: 1_000_000_000,
            },
            Mode::Roller => Limits { linear: 600_000_000, angular: 300_000_000 },
        }
    }
}

#[derive(Debug, Clone, Copy, PartialEq, Eq, Structural, Hash)]
pub enum Kind {
    Chill,
    LookAround,
    Wander,
    TurnInPlace,
    Zoomies,
    Stretch,
    Ruffle,
    Preen,
    Sneeze,
    Nap,
    Startle,
    GroundPick,
    /// The mission: explore the maze, glancing with the head, until it is out.
    Maze,
    /// Someone is stroking the duck: lean in, coo, stay still.
    Petted,
    /// Beats are arriving: bob, sway, nod on them.
    Dance,
    /// Another duck's beacon just appeared: a sound for a stranger, another for a friend.
    Greet,
    /// Nobody around for a long while: call out.
    Lonely,
}

impl Kind {
    pub const ALL: [Kind; 17] = [
        Kind::Chill,
        Kind::LookAround,
        Kind::Wander,
        Kind::TurnInPlace,
        Kind::Zoomies,
        Kind::Stretch,
        Kind::Ruffle,
        Kind::Preen,
        Kind::Sneeze,
        Kind::Nap,
        Kind::Startle,
        Kind::GroundPick,
        Kind::Maze,
        Kind::Petted,
        Kind::Dance,
        Kind::Greet,
        Kind::Lonely,
    ];

    pub open spec fn label(self) -> Seq<char> {
        match self {
            Kind::Chill => "chill"@,
            Kind::LookAround => "look_around"@,
            Kind::Wander => "wander"@,
            Kind::TurnInPlace => "turn_in_place"@,
            Kind::Zoomies => "zoomies"@,
            Kind::Stretch => "stretch"@,
            Kind::Ruffle => "ruffle"@,
            Kind::Preen => "preen"@,
            Kind::Sneeze => "sneeze"@,
            Kind::Nap => "nap"@,
            Kind::Startle => "startle"@,
            Kind::GroundPick => "ground_pick"@,
            Kind::Maze => "maze"@,
            Kind::Petted => "petted"@,
            Kind::Dance => "dance"@,
            Kind::Greet => "greet"@,
            Kind::Lonely => "lonely"@,
        }
    }

    pub fn name(self) -> (s: &'static str)
        ensures
            s@ == self.label(),
    {
        match self {
            Kind::Chill => "chill",
            Kind::LookAround => "look_around",
            Kind::Wander => "wander",
            Kind::TurnInPlace => "turn_in_place",
            Kind::Zoomies => "zoomies",
            Kind::Stretch => "stretch",
            Kind::Ruffle => "ruffle",
            Kind::Preen => "preen",
            Kind::Sneeze => "sneeze",
            Kind::Nap => "nap",
            Kind::Startle => "startle",
            Kind::GroundPick => "ground_pick",
            Kind::Maze => "maze",
            Kind::Petted => "petted",
            Kind::Dance => "dance",
            Kind::Greet => "greet",
            Kind::Lonely => "lonely",
        }
    }

    pub open spec fn dwell(self) -> i64 {
        match self {
            Kind::Chill => 4_000_000_000,
            Kind::LookAround => 3_000_000_000,
            Kind::Wander => 6_000_000_000,
            Kind::TurnInPlace => 1_000_000_000,
            Kind::Zoomies => 2_000_000_000,
            Kind::Stretch => 3_000_000_000,
            Kind::Ruffle => 3_000_000_000,
            Kind::Preen => 3_000_000_000,
            Kind::Sneeze => 1_500_000_000,
            Kind::Nap => 40_000_000_000,
            Kind::Startle => 1_500_000_000,
            Kind::GroundPick => 6_000_000_000,
            Kind::Maze => 600_000_000_000,
            Kind::Petted => 2_000_000_000,
            Kind::Dance => 6_000_000_000,
            Kind::Greet => 2_500_000_000,
            Kind::Lonely => 3_000_000_000,
        }
    }

    /// How long the arbiter keeps a behaviour before a better score may replace it.
    pub fn min_dwell(self) -> (t: i64)
        ensures
            t == self.dwell(),
    {
        match self {
            Kind::Chill => 4_000_000_000,
            Kind::LookAround => 3_000_000_000,
            Kind::Wander => 6_000_000_000,
            Kind::TurnInPlace => 1_000_000_000,
            Kind::Zoomies => 2_000_000_000,
            Kind::Stretch | Kind::Ruffle | Kind::Preen => 3_000_000_000,
            Kind::Sneeze => 1_500_000_000,
            Kind::Nap => 40_000_000_000,
            Kind::Startle => 1_500_000_000,
            Kind::GroundPick => 6_000_000_000,
            Kind::Maze => 600_000_000_000,
            Kind::Petted => 2_000_000_000,
            Kind::Dance => 6_000_000_000,
            Kind::Greet => 2_500_000_000,
            Kind::Lonely => 3_000_000_000,
        }
    }

    pub open spec fn reflex(self) -> bool {
        self is Startle || self is Petted || self is Greet
    }

    /// A reflex may cut a dwell short.
    pub fn is_reflex(self) -> (r: bool)
        ensures
            r == self.reflex(),
    {
        match self {
            Kind::Startle | Kind::Petted | Kind::Greet => true,
            _ => false,
        }
    }

    pub open spec fn effort(self) -> u32 {
        match self {
            Kind::Chill => 0,
            Kind::Nap => 0,
            Kind::Petted => 0,
            Kind::LookAround => 100_000_000,
            Kind::Stretch => 100_000_000,
            Kind::Ruffle => 100_000_000,
            Kind::Preen => 100_000_000,
            Kind::Sneeze => 100_000_000,
            Kind::Greet => 100_000_000,
            Kind::Lonely => 100_000_000,
            Kind::TurnInPlace => 300_000_000,
            Kind::Startle => 300_000_000,
            Kind::Dance => 300_000_000,
            Kind::Wander => 500_000_000,
            Kind::GroundPick => 500_000_000,
            Kind::Maze => 500_000_000,
            Kind::Zoomies => 1_000_000_000,
        }
    }

    /// What share of the full energy drain a behaviour costs.
    pub fn activity(self) -> (a: u32)
        ensures
            a == self.effort(),
    {
        match self {
            Kind::Chill | Kind::Nap | Kind::Petted => 0,
            Kind::LookAround
            | Kind::Stretch
            | Kind::Ruffle
            | Kind::Preen
            | Kind::Sneeze
            | Kind::Greet
            | Kind::Lonely => 100_000_000,
            Kind::TurnInPlace | Kind::Startle | Kind::Dance => 300_000_000,
            Kind::Wander | Kind::GroundPick | Kind::Maze => 500_000_000,
            Kind::Zoomies => 1_000_000_000,
        }
    }
}

/// `h` hundredths of a bid. A bid of one has parts fine enough that a drive's share and a
/// throw of the dice are both whole.
pub open spec fn points(h: int) -> int {
    h * ONE * STEPS
}

/// `h` hundredths of a bid, in the measure of a drive.
pub open spec fn share(h: int, drive: int) -> int {
    h * drive * STEPS
}

/// `h` hundredths of a bid, in the measure of a throw of the dice.
pub open spec fn jitter(h: int, k: int) -> int {
    h * ONE * k
}

/// The way ahead is closer than `r`.
pub open spec fn ahead_within(w: World, r: i64) -> bool {
    w.obstacles.center matches Some(c) && c < r
}

/// A thing that *came at* the duck, not a wall the head turned toward: only with the head
/// near straight ahead does a closing range count.
pub open spec fn came_at(w: World, prev_center: Option<i64>) -> bool {
    &&& -300_000_000 < w.head@[2] < 300_000_000
    &&& w.head@[1] < 300_000_000
    &&& prev_center matches Some(before)
    &&& w.obstacles.center matches Some(now)
    &&& before - now > 300_000_000
    &&& now < 500_000_000
}

/// A loud noise just now, and no hand on the back.
pub open spec fn alarmed(w: World) -> bool {
    &&& w.last_noise matches Some(t)
    &&& w.t - t < 400_000_000
    &&& w.petting_since is None
}

/// Whether a behaviour can be bid for at all now.
pub open spec fn applies(kind: Kind, w: World, d: Drives, prev_center: Option<i64>) -> bool {
    let o = w.obstacles;
    (w.is_standing() || kind is Nap) && match kind {
        Kind::Wander => o.is_fresh() && !ahead_within(w, 350_000_000),
        Kind::TurnInPlace => o.is_fresh(),
        Kind::Zoomies => {
            &&& d.energy >= 25_200_000_000_000
            &&& o.is_fresh()
            &&& o.center matches Some(c)
            &&& c >= 1_200_000_000
        },
        Kind::Nap => !w.fallen && !w.limp && w.policy@ != "held"@ && w.policy@ != "homing"@,
        Kind::Startle => alarmed(w) || o.is_fresh() && (o.too_close || came_at(w, prev_center)),
        Kind::GroundPick => {
            &&& w.mode is Walk
            &&& o.is_fresh()
            &&& o.floor_ahead
            &&& d.curiosity >= 18_000_000_000_000
        },
        Kind::Maze => w.maze && o.is_fresh(),
        Kind::Petted => w.petting_since is Some,
        Kind::Dance => w.beat_gap() is Some,
        Kind::Greet => w.greet_pending is Some,
        Kind::Lonely => {
            &&& w.alone() >= 180_000_000_000
            &&& d.social <= 10_800_000_000_000
            &&& w.ducks_around().len() == 0
        },
        _ => true,
    }
}

/// Whether a bid throws the dice.
pub open spec fn throws(kind: Kind, d: Drives) -> bool {
    match kind {
        Kind::Nap => d.energy >= 9_000_000_000_000,
        Kind::Startle => false,
        Kind::Maze => false,
        Kind::Petted => false,
        Kind::Greet => false,
        _ => true,
    }
}

/// What a behaviour that applies bids, given the throw `k`.
pub open spec fn bid(kind: Kind, w: World, d: Drives, k: int) -> int {
    match kind {
        Kind::Chill => points(30) + share(30, ONE - d.energy) + jitter(15, k),
        Kind::LookAround => points(30) + share(30, d.curiosity as int) + jitter(20, k),
        Kind::Wander => points(25) + share(55, d.curiosity as int) + share(20, d.energy as int)
            + jitter(10, k),
        // Boxed in ahead: turning is the only way to keep exploring.
        Kind::TurnInPlace => if ahead_within(w, 350_000_000) {
            points(75) + jitter(10, k)
        } else {
            points(10) + share(20, d.curiosity as int) + jitter(15, k)
        },
        Kind::Zoomies => points(35) + share(45, d.energy as int) + jitter(35, k),
        Kind::Stretch => points(20) + share(10, d.comfort as int) + jitter(35, k),
        Kind::Ruffle => points(20) + share(10, d.comfort as int) + jitter(35, k),
        Kind::Preen => points(20) + share(10, d.comfort as int) + jitter(35, k),
        Kind::Sneeze => points(5) + jitter(45, k),
        Kind::Nap => if d.energy < 9_000_000_000_000 {
            points(95)
        } else {
            points(5) + share(25, ONE - d.energy) + jitter(5, k)
        },
        Kind::Startle => points(150),
        Kind::GroundPick => points(25) + share(30, d.curiosity as int) + jitter(30, k),
        // A mission outbids everything, reflexes included: the walls are the point.
        Kind::Maze => points(200),
        // Being petted beats a startle: a hand on the back is not a threat.
        Kind::Petted => points(160),
        Kind::Dance => points(90) + share(20, d.energy as int) + jitter(10, k),
        Kind::Greet => points(140),
        Kind::Lonely => points(25) + jitter(25, k),
    }
}

pub(crate) fn points_of(h: i128) -> (p: i128)
    requires
        0 <= h <= 200,
    ensures
        p == points(h as int),
        0 <= p <= 200 * 162_129_586_585_337_856_000_000_000_000,
{
    proof {
        assert(h * ONE * STEPS == h * 162_129_586_585_337_856_000_000_000_000) by (nonlinear_arith)
            requires
                ONE == 36_000_000_000_000,
                STEPS == 4_503_599_627_370_496,
        ;
    }
    h * 162_129_586_585_337_856_000_000_000_000
}

fn share_of(h: i128, drive: i128) -> (p: i128)
    requires
        0 <= h <= 60,
        -0x1_0000_0000_0000_0000 <= drive <= 0x1_0000_0000_0000_0000,
    ensures
        p == share(h as int, drive as int),
        -0x1_0000_0000_0000_0000 * 60 * 4_503_599_627_370_496 <= p <= 0x1_0000_0000_0000_0000 * 60
            * 4_503_599_627_370_496,
{
    proof {
        let hd = h * drive;
        assert(-0x1_0000_0000_0000_0000 * 60 <= hd <= 0x1_0000_0000_0000_0000 * 60)
            by (nonlinear_arith)
            requires
                hd == h * drive,
                0 <= h <= 60,
                -0x1_0000_0000_0000_0000 <= drive <= 0x1_0000_0000_0000_0000,
        ;
    }
    h * drive * 4_503_599_627_370_496
}

fn jitter_of(h: i128, k: u64) -> (p: i128)
    requires
        0 <= h <= 60,
        k < STEPS,
    ensures
        p == jitter(h as int, k as int),
        0 <= p <= 60 * 36_000_000_000_000 * 4_503_599_627_370_496,
{
    proof {
        let ho = h * ONE;
        assert(0 <= ho <= 60 * 36_000_000_000_000);
        assert(0 <= ho * k <= 60 * 36_000_000_000_000 * 4_503_599_627_370_496) by (nonlinear_arith)
            requires
                0 <= ho <= 60 * 36_000_000_000_000,
                0 <= k <= 4_503_599_627_370_496,
        ;
    }
    h * 36_000_000_000_000 * k as i128
}

fn is_ahead_within(w: &World, r: i64) -> (b: bool)
    ensures
        b == ahead_within(*w, r),
{
    match w.obstacles.center {
        Some(c) => c < r,
        None => false,
    }
}

fn has_come_at(w: &World, prev_center: Option<i64>) -> (b: bool)
    ensures
        b == came_at(*w, prev_center),
{
    let (yaw, pitch): (i64, i64) = (w.head[2], w.head[1]);
    let head_straight: bool = -300_000_000 < yaw && yaw < 300_000_000 && pitch < 300_000_000;
    match (prev_center, w.obstacles.center) {
        (Some(before), Some(now)) => head_straight && before as i128 - now as i128 > 300_000_000
            && now < 500_000_000,
        _ => false,
    }
}

fn is_alarmed(w: &World) -> (b: bool)
    ensures
        b == alarmed(*w),
{
    match w.noise_age() {
        Some(a) => a < 400_000_000 && !w.petting(),
        None => false,
    }
}

/// Whether a behaviour can be bid for at all now.
pub fn can_bid(kind: Kind, w: &World, d: &Drives, prev_center: Option<i64>) -> (r: bool)
    ensures
        r == applies(kind, *w, *d, prev_center),
{
    if !w.standing() && kind != Kind::Nap {
        return false;
    }
    let o = w.obstacles;
    match kind {
        Kind::Wander => o.fresh() && !is_ahead_within(w, 350_000_000),
        Kind::TurnInPlace => o.fresh(),
        Kind::Zoomies => match o.center {
            Some(c) => d.energy >= 25_200_000_000_000 && o.fresh() && c >= 1_200_000_000,
            None => false,
        },
        Kind::Nap => !w.fallen && !w.limp && !w.driven_by("held") && !w.driven_by("homing"),
        // A loud noise startles, unless the duck is being petted (then it is a pat).
        Kind::Startle => is_alarmed(w) || (o.fresh() && (o.too_close || has_come_at(
            w,
            prev_center,
        ))),
        Kind::GroundPick => w.mode == Mode::Walk && o.fresh() && o.floor_ahead && d.curiosity
            >= 18_000_000_000_000,
        Kind::Maze => w.maze && o.fresh(),
        Kind::Petted => w.petting(),
        Kind::Dance => w.beat_period().is_some(),
        Kind::Greet => w.greet_pending.is_some(),
        Kind::Lonely => w.alone_for() >= 180_000_000_000 && d.social <= 10_800_000_000_000
            && w.company() == 0,
        _ => true,
    }
}

/// Whether a bid throws the dice.
pub fn throws_dice(kind: Kind, d: &Drives) -> (r: bool)
    ensures
        r == throws(kind, *d),
{
    match kind {
        Kind::Nap => d.energy >= 9_000_000_000_000,
        Kind::Startle | Kind::Maze | Kind::Petted | Kind::Greet => false,
        _ => true,
    }
}

/// What a behaviour that applies bids, given the throw `k` of the dice.
pub fn bid_of(kind: Kind, w: &World, d: &Drives, k: u64) -> (s: i128)
    requires
        k < STEPS,
    ensures
        s == bid(kind, *w, *d, k as int),
{
    let tired: i128 = ONE as i128 - d.energy as i128;
    let energy: i128 = d.energy as i128;
    let curiosity: i128 = d.curiosity as i128;
    match kind {
        Kind::Chill => points_of(30) + share_of(30, tired) + jitter_of(15, k),
        Kind::LookAround => points_of(30) + share_of(30, curiosity) + jitter_of(20, k),
        Kind::Wander => points_of(25) + share_of(55, curiosity) + share_of(20, energy) + jitter_of(
            10,
            k,
        ),
        Kind::TurnInPlace => if is_ahead_within(w, 350_000_000) {
            points_of(75) + jitter_of(10, k)
        } else {
            points_of(10) + share_of(20, curiosity) + jitter_of(15, k)
        },
        Kind::Zoomies => points_of(35) + share_of(45, energy) + jitter_of(35, k),
        Kind::Stretch | Kind::Ruffle | Kind::Preen => points_of(20) + share_of(
            10,
            d.comfort as i128,
        ) + jitter_of(35, k),
        Kind::Sneeze => points_of(5) + jitter_of(45, k),
        Kind::Nap => if d.energy < 9_000_000_000_000 {
            points_of(95)
        } else {
            points_of(5) + share_of(25, tired) + jitter_of(5, k)
        },
        Kind::Startle => points_of(150),
        Kind::GroundPick => points_of(25) + share_of(30, curiosity) + jitter_of(30, k),
        Kind::Maze => points_of(200),
        Kind::Petted => points_of(160),
        Kind::Dance => points_of(90) + share_of(20, energy) + jitter_of(10, k),
        Kind::Greet => points_of(140),
        Kind::Lonely => points_of(25) + jitter_of(25, k),
    }
}

/// The score a behaviour bids with, on a generator seeded with `seed`.
pub open spec fn scored(
    kind: Kind,
    w: World,
    d: Drives,
    prev_center: Option<i64>,
    seed: u64,
) -> Option<int> {
    if applies(kind, w, d, prev_center) {
        Some(bid(kind, w, d, chance(seed)))
    } else {
        None
    }
}

/// The seed a bid leaves: moved on by one throw where it threw the dice.
pub open spec fn seed_after(
    kind: Kind,
    w: World,
    d: Drives,
    prev_center: Option<i64>,
    seed: u64,
) -> u64 {
    if applies(kind, w, d, prev_center) && throws(kind, d) {
        reseeded(seed)
    } else {
        seed
    }
}

/// The score a behaviour bids with this round. `None`: not applicable now.
pub fn score(kind: Kind, w: &World, d: &Drives, rng: &mut Dice, prev_center: Option<i64>) -> (r:
    Option<i128>)
    ensures
        match r {
            Some(s) => scored(kind, *w, *d, prev_center, old(rng).seed) == Some(s as int),
            None => scored(kind, *w, *d, prev_center, old(rng).seed) is None,
        },
        final(rng).seed == seed_after(kind, *w, *d, prev_center, old(rng).seed),
{
    if !can_bid(kind, w, d, prev_center) {
        return None;
    }
    let k: u64 = if throws_dice(kind, d) {
        rng.fraction()
    } else {
        0
    };
    Some(bid_of(kind, w, d, k))
}

} // verus!

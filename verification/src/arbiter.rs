//! The arbiter: one behaviour at a time, chosen by score, kept for its dwell, and dropped
//! when something else is clearly better or it says it is done. Plus the yield rule: when
//! another client is driving, the brain goes quiet.

use vstd::prelude::*;

use crate::active::{is_bearing, Act, Active, Outcome};
use crate::behaviours::{
    head_at, level_head, points, points_of, score, scored, seed_after, Intents, Kind, Level, Limits,
};
use crate::dice::Dice;
use crate::drives::Drives;
use crate::maze::{Maze, MazeMap};
use crate::proto::Skill;
use crate::units::{held, hold, magnitude};
use crate::world::World;

verus! {

/// How often bids are taken.
pub const ROUND_S: i64 = 250_000_000;

/// A challenger must beat the incumbent by this many hundredths.
pub const MARGIN: i64 = 10;

/// After a foreign intent is seen, stay quiet this long past the last one.
pub const YIELD_S: i64 = 5_000_000_000;

/// Twist difference that counts as "someone else's".
pub const FOREIGN_EPS: i64 = 20_000_000;

/// Head difference that counts as "someone else's".
pub const FOREIGN_HEAD_EPS: i64 = 50_000_000;

/// Energy at which a nap is over: 0.85.
pub const WAKE_ENERGY: i64 = 30_600_000_000_000;

/// After our own twist changes, how long a mismatching request is still assumed to be the
/// stream lagging rather than someone else.
pub const SEND_GRACE_S: i64 = 400_000_000;

#[derive(Debug, Clone, Copy, PartialEq, Eq, Structural)]
pub enum Status {
    /// Not enabled: says nothing, sends nothing.
    Off,
    /// Enabled but the robot is not standing under a policy (held, rising, fallen).
    Waiting,
    /// Someone else is driving.
    Yielded,
    Active(Kind),
}

/// What the daemon should do this tick.
pub struct Decision {
    pub status: Status,
    /// `None` = send nothing at all (off, waiting, yielded).
    pub intents: Option<Intents>,
    /// A behaviour change worth a log line.
    pub changed: Option<(Option<Kind>, Option<Kind>)>,
}

pub struct Arbiter {
    pub on: bool,
    pub drives: Drives,
    pub rng: Dice,
    pub active: Option<Active>,
    pub current_score: i128,
    pub last_round: Option<i64>,
    pub last_sent_twist: [i64; 3],
    /// The twist before that, and when it changed: the state stream lags our own sends by
    /// a frame, so a request that matches either recent value is ours.
    pub prev_sent_twist: [i64; 3],
    pub twist_changed_at: Option<i64>,
    /// The same for the head.
    pub last_sent_head: [Level; 4],
    pub prev_sent_head: [Level; 4],
    pub head_changed_at: Option<i64>,
    pub foreign_until: Option<i128>,
    pub prev_center: Option<i64>,
    pub last_t: Option<i64>,
    /// Set by a switch, consumed by the next tick: the newcomer's first intents reset
    /// whatever the last behaviour left on the robot.
    pub entered: bool,
    /// The maze was solved once; the mission does not restart.
    pub maze_solved: bool,
    /// The map the last maze mission built, kept after it ends for drawing.
    pub last_maze: Option<MazeMap>,
    /// The last frame's novelty count, so a new cell is noticed once.
    pub cells_seen: usize,
    /// Until when each behaviour is not bid for.
    pub cooldown: [Option<i128>; 17],
}

/// An arbiter as values.
#[verifier::ext_equal]
pub ghost struct Mind {
    pub on: bool,
    pub drives: Drives,
    pub seed: u64,
    pub active: Option<Act>,
    pub current_score: int,
    pub last_round: Option<i64>,
    pub last_sent_twist: Seq<i64>,
    pub prev_sent_twist: Seq<i64>,
    pub twist_changed_at: Option<i64>,
    pub last_sent_head: Seq<Level>,
    pub prev_sent_head: Seq<Level>,
    pub head_changed_at: Option<i64>,
    pub foreign_until: Option<i128>,
    pub prev_center: Option<i64>,
    pub last_t: Option<i64>,
    pub entered: bool,
    pub maze_solved: bool,
    pub last_maze: Option<Maze>,
    pub cells_seen: usize,
    pub cooldown: Seq<Option<i128>>,
}

impl View for Arbiter {
    type V = Mind;

    open spec fn view(&self) -> Mind {
        Mind {
            on: self.on,
            drives: self.drives,
            seed: self.rng.seed,
            active: match self.active {
                Some(a) => Some(a@),
                None => None,
            },
            current_score: self.current_score as int,
            last_round: self.last_round,
            last_sent_twist: self.last_sent_twist@,
            prev_sent_twist: self.prev_sent_twist@,
            twist_changed_at: self.twist_changed_at,
            last_sent_head: self.last_sent_head@,
            prev_sent_head: self.prev_sent_head@,
            head_changed_at: self.head_changed_at,
            foreign_until: self.foreign_until,
            prev_center: self.prev_center,
            last_t: self.last_t,
            entered: self.entered,
            maze_solved: self.maze_solved,
            last_maze: match self.last_maze {
                Some(m) => Some(m@),
                None => None,
            },
            cells_seen: self.cells_seen,
            cooldown: self.cooldown@,
        }
    }
}

/// What a decision comes to, with the mind it leaves.
pub ghost struct Verdict {
    pub mind: Mind,
    pub status: Status,
    pub intents: Option<Intents>,
    pub changed: Option<(Option<Kind>, Option<Kind>)>,
}

/// A round of bids, part way through.
pub ghost struct Round {
    pub best: Option<(Kind, int)>,
    pub seed: u64,
}

/// How long a behaviour that was just left is not bid for: gestures and picks do not repeat
/// straight away.
pub open spec fn cooling(kind: Kind) -> int {
    match kind {
        Kind::Stretch => 20_000_000_000,
        Kind::Ruffle => 20_000_000_000,
        Kind::Preen => 20_000_000_000,
        Kind::Sneeze => 20_000_000_000,
        Kind::GroundPick => 40_000_000_000,
        Kind::Zoomies => 40_000_000_000,
        Kind::Startle => 3_000_000_000,
        Kind::Lonely => 120_000_000_000,
        Kind::Dance => 10_000_000_000,
        _ => 0,
    }
}

/// Where a behaviour stands in the order of bids.
pub open spec fn rank(kind: Kind) -> int {
    match kind {
        Kind::Chill => 0,
        Kind::LookAround => 1,
        Kind::Wander => 2,
        Kind::TurnInPlace => 3,
        Kind::Zoomies => 4,
        Kind::Stretch => 5,
        Kind::Ruffle => 6,
        Kind::Preen => 7,
        Kind::Sneeze => 8,
        Kind::Nap => 9,
        Kind::Startle => 10,
        Kind::GroundPick => 11,
        Kind::Maze => 12,
        Kind::Petted => 13,
        Kind::Dance => 14,
        Kind::Greet => 15,
        Kind::Lonely => 16,
    }
}

/// The two twists differ by more than noise.
pub open spec fn differs(a: Seq<i64>, b: Seq<i64>) -> bool {
    exists|k: int|
        0 <= k < 3 && !(-FOREIGN_EPS <= (#[trigger] a[k]) - b[k] <= FOREIGN_EPS)
}

/// A joint is asked to be where a level never is, by more than noise.
pub open spec fn strays(v: i64, l: Level) -> bool {
    let swing = magnitude(l.amp as int);
    ||| v < l.base - swing - FOREIGN_HEAD_EPS
    ||| v > l.base + swing + FOREIGN_HEAD_EPS
}

/// A head is asked for that the levels never give.
pub open spec fn head_strays(asked: Seq<i64>, sent: Seq<Level>) -> bool {
    exists|k: int| 0 <= k < 4 && strays(#[trigger] asked[k], sent[k])
}

/// The robot is performing a skill that the brain has no use for.
pub open spec fn shows_off(w: World) -> bool {
    w.policy@ == "kick_left"@ || w.policy@ == "kick_right"@ || w.policy@ == "roulade"@
}

impl Mind {
    pub open spec fn kind(self) -> Option<Kind> {
        match self.active {
            Some(a) => Some(a.kind),
            None => None,
        }
    }

    /// A brain as it boots.
    pub open spec fn fresh(seed: u64, on: bool) -> Mind {
        Mind {
            on,
            drives: Drives::fresh(),
            seed,
            active: None,
            current_score: 0,
            last_round: None,
            last_sent_twist: seq![0i64, 0, 0],
            prev_sent_twist: seq![0i64, 0, 0],
            twist_changed_at: None,
            last_sent_head: level_head(0, 0, 0, 0)@,
            prev_sent_head: level_head(0, 0, 0, 0)@,
            head_changed_at: None,
            foreign_until: None,
            prev_center: None,
            last_t: None,
            entered: false,
            maze_solved: false,
            last_maze: None,
            cells_seen: 0,
            cooldown: Seq::new(17, |i: int| None),
        }
    }

    /// A twist was sent. The one before is kept.
    pub open spec fn sent(self, twist: Seq<i64>, t: i64) -> Mind {
        if twist == self.last_sent_twist {
            self
        } else {
            Mind {
                prev_sent_twist: self.last_sent_twist,
                last_sent_twist: twist,
                twist_changed_at: Some(t),
                ..self
            }
        }
    }

    /// A head was sent, if one was. The one before is kept.
    pub open spec fn posed(self, head: Option<[Level; 4]>, t: i64) -> Mind {
        match head {
            Some(h) => if h@ == self.last_sent_head {
                self
            } else {
                Mind {
                    prev_sent_head: self.last_sent_head,
                    last_sent_head: h@,
                    head_changed_at: Some(t),
                    ..self
                }
            },
            None => self,
        }
    }

    /// Intents were sent.
    pub open spec fn told(self, i: Intents, t: i64) -> Mind {
        self.sent(i.twist@, t).posed(i.head, t)
    }

    /// The active behaviour, of that kind, is left.
    pub open spec fn left(self, w: World, kind: Kind) -> Mind {
        Mind {
            active: None,
            cooldown: if cooling(kind) > 0 {
                self.cooldown.update(rank(kind), Some((w.t + cooling(kind)) as i128))
            } else {
                self.cooldown
            },
            ..self
        }
    }

    /// Whatever is active is left.
    pub open spec fn emptied(self, w: World) -> Mind {
        match self.active {
            Some(a) => self.left(w, a.kind),
            None => self,
        }
    }

    /// Everything stops: one neutral on the way out, so a twist is not left running.
    pub open spec fn stopped(self, w: World, status: Status, was: Option<Kind>) -> Verdict {
        let had = self.active is Some;
        Verdict {
            mind: Mind { current_score: 0, ..self.emptied(w) }.sent(seq![0i64, 0, 0], w.t).posed(
                if had {
                    Intents::rest().head
                } else {
                    None
                },
                w.t,
            ),
            status,
            intents: if had {
                Some(Intents::rest())
            } else {
                None
            },
            changed: if had {
                Some((was, None))
            } else {
                None
            },
        }
    }

    /// A behaviour takes over.
    pub open spec fn switched(self, kind: Kind, s: int, w: World) -> Mind {
        let m = self.emptied(w);
        Mind {
            active: Some(Act::entered(kind, w, m.seed)),
            seed: Act::seed_entered(kind, w, m.seed),
            current_score: s,
            entered: true,
            ..m
        }
    }

    /// A twist we did not send means a person (or another client) has the robot. Ours are the
    /// last two values sent, with a grace after a change for the stream to catch up.
    pub open spec fn is_foreign_twist(self, w: World) -> bool {
        &&& differs(w.move_requested@, seq![0i64, 0, 0])
        &&& differs(w.move_requested@, self.last_sent_twist)
        &&& differs(w.move_requested@, self.prev_sent_twist)
        &&& self.twist_changed_at matches Some(t) ==> w.t - t > SEND_GRACE_S
    }

    /// The same for a head we did not ask for.
    pub open spec fn is_foreign_head(self, w: World) -> bool {
        &&& head_strays(w.head_requested@, level_head(0, 0, 0, 0)@)
        &&& head_strays(w.head_requested@, self.last_sent_head)
        &&& head_strays(w.head_requested@, self.prev_sent_head)
        &&& self.head_changed_at matches Some(t) ==> w.t - t > SEND_GRACE_S
    }

    /// And for a skill: one the brain never asks for, or a pick when it is not picking and has
    /// not just been.
    pub open spec fn is_foreign_skill(self, w: World) -> bool {
        ||| shows_off(w)
        ||| w.policy@ == "ground_pick"@ && self.kind() != Some(Kind::GroundPick)
            && !self.is_barred(w, Kind::GroundPick)
    }

    /// Someone else is driving: a twist, a head or a skill that is not ours.
    pub open spec fn is_foreign(self, w: World) -> bool {
        self.is_foreign_twist(w) || self.is_foreign_head(w) || self.is_foreign_skill(w)
    }

    /// A behaviour is not bid for: it is cooling down, or the maze was solved.
    pub open spec fn is_barred(self, w: World, kind: Kind) -> bool {
        ||| self.cooldown[rank(kind)] matches Some(until) && w.t < until
        ||| kind is Maze && self.maze_solved
    }

    /// The best of the first `k` bids; of equal ones, the first.
    pub open spec fn round(self, w: World, k: nat) -> Round
        decreases k,
    {
        if k == 0 {
            Round { best: None, seed: self.seed }
        } else {
            let before = self.round(w, (k - 1) as nat);
            let kind = Kind::ALL[k - 1];
            if self.is_barred(w, kind) {
                before
            } else {
                let s = scored(kind, w, self.drives, self.prev_center, before.seed);
                Round {
                    best: match (s, before.best) {
                        (Some(s), Some((_, b))) => if s > b {
                            Some((kind, s))
                        } else {
                            before.best
                        },
                        (Some(s), None) => Some((kind, s)),
                        (None, best) => best,
                    },
                    seed: seed_after(kind, w, self.drives, self.prev_center, before.seed),
                }
            }
        }
    }

    /// The winner of a round takes over: from nothing at once, from another once its dwell is
    /// over, or with a reflex, and only with a clear margin.
    pub open spec fn takes_over(self, w: World, kind: Kind, s: int) -> bool {
        match self.active {
            None => true,
            Some(a) => {
                &&& a.kind != kind
                &&& w.t - a.since >= a.kind.dwell() || kind.reflex()
                &&& s > self.current_score + points(MARGIN as int)
            },
        }
    }

    /// After a round of bids.
    pub open spec fn after_round(self, w: World) -> Mind {
        let r = self.round(w, 17);
        let m = Mind {
            last_round: Some(w.t),
            prev_center: w.obstacles.center,
            seed: r.seed,
            ..self
        };
        match r.best {
            None => m,
            Some((kind, s)) => if m.takes_over(w, kind, s) {
                m.switched(kind, s, w)
            } else if m.kind() == Some(kind) {
                Mind { current_score: s, ..m }
            } else {
                m
            },
        }
    }

    /// Bids are taken four times a second.
    pub open spec fn bid_on(self, w: World) -> Mind {
        if self.last_round matches Some(t) && w.t - t < ROUND_S {
            self
        } else {
            self.after_round(w)
        }
    }

    /// A nap is over: energy is back after the dwell, or a sound or a hand has come since it
    /// began.
    pub open spec fn wakes(self, w: World) -> bool {
        &&& self.active matches Some(a)
        &&& a.kind is Nap
        &&& {
            ||| self.drives.energy > WAKE_ENERGY && w.t - a.since >= Kind::Nap.dwell()
            ||| w.last_noise matches Some(t) && t > a.since
            ||| w.last_voice matches Some(t) && t > a.since
            ||| w.petting_since is Some
        }
    }

    /// The duck stands itself up.
    pub open spec fn woken(self, w: World, was: Option<Kind>) -> Verdict {
        Verdict {
            mind: Mind { current_score: 0, ..self.left(w, Kind::Nap) }.told(
                Intents::rest(),
                w.t,
            ),
            status: Status::Waiting,
            intents: Some(
                Intents {
                    skill: if w.is_sitting() {
                        Some(Skill::SitToggle)
                    } else {
                        None
                    },
                    ..Intents::rest()
                },
            ),
            changed: Some((was, None)),
        }
    }

    /// The first intents of a fresh behaviour: the last one's body pose, head and mouth go to
    /// neutral unless it sets them itself. An active body pose keeps the robot in the standing
    /// policy, where a twist is ignored.
    pub open spec fn first_intents(i: Intents) -> Intents {
        Intents {
            pose: match i.pose {
                Some(p) => Some(p),
                None => Some((Level::steady(0), Level::steady(0), Level::steady(0))),
            },
            head: match i.head {
                Some(h) => Some(h),
                None => Some(level_head(0, 0, 0, 0)),
            },
            mouth: match i.mouth {
                Some(m) => Some(m),
                None => Some(Level::steady(0)),
            },
            ..i
        }
    }

    /// The active behaviour ticks.
    pub open spec fn acted(self, w: World, was: Option<Kind>, o: Outcome) -> Verdict {
        let kind = o.act.kind;
        let m = Mind {
            active: Some(o.act),
            seed: o.seed,
            drives: if kind is Startle && was != Some(Kind::Startle) {
                self.drives.after_startle()
            } else {
                self.drives
            },
            ..self
        };
        if o.done {
            // A parting sound survives the reset.
            let i = Intents { sound: o.intents.sound, ..Intents::rest() };
            let gone = Mind {
                current_score: 0,
                maze_solved: self.maze_solved || kind is Maze,
                last_maze: if kind is Maze {
                    Some(o.act.mission.map)
                } else {
                    self.last_maze
                },
                ..m.left(w, kind)
            };
            Verdict {
                mind: gone.told(i, w.t),
                status: Status::Waiting,
                intents: Some(i),
                changed: if was is None {
                    None
                } else {
                    Some((was, None))
                },
            }
        } else {
            let i = if self.entered {
                Mind::first_intents(o.intents)
            } else {
                o.intents
            };
            Verdict {
                mind: Mind { entered: false, ..m }.told(i, w.t),
                status: Status::Active(kind),
                intents: Some(i),
                changed: if was == Some(kind) {
                    None
                } else {
                    Some((was, Some(kind)))
                },
            }
        }
    }

    /// The drives move whether or not anything is chosen.
    pub open spec fn moved_on(self, w: World, dt: int) -> Mind {
        let seen = w.grid@.counts.dom().len() as usize;
        Mind {
            cells_seen: seen,
            drives: self.drives.updated(
                dt,
                match self.kind() {
                    Some(k) => k.effort(),
                    None => 0,
                },
                self.kind() == Some(Kind::Nap),
                seen > self.cells_seen,
                w.is_standing(),
                w.petting_since is Some,
            ),
            ..self
        }
    }

    /// The time since the last tick, at most a second.
    pub open spec fn elapsed(self, w: World) -> int {
        match self.last_t {
            Some(t) => held(w.t - t, 0, 1_000_000_000),
            None => 0,
        }
    }

    /// The yield rule applied: a foreign twist starts the quiet time anew.
    pub open spec fn wary(self, w: World) -> Mind {
        let m = Mind { last_t: Some(w.t), ..self };
        if self.is_foreign(w) {
            Mind { foreign_until: Some((w.t + YIELD_S) as i128), ..m }
        } else {
            m
        }
    }

    /// Where a wandering duck is bound for, if it follows a path.
    pub open spec fn bound_for(self) -> Option<(int, int)> {
        match self.active {
            Some(a) => if a.kind is Wander {
                match a.plan {
                    Some(path) => if path.len() > 0 {
                        Some(path.last())
                    } else {
                        None
                    },
                    None => None,
                }
            } else {
                None
            },
            None => None,
        }
    }

    pub open spec fn is_yielding(self, w: World) -> bool {
        self.foreign_until matches Some(until) && w.t < until
    }

    /// Only a napping brain may act on a sitting robot; anything else waits to stand.
    pub open spec fn may_act(self, w: World) -> bool {
        w.is_standing() || self.kind() == Some(Kind::Nap) && w.is_sitting()
    }

    /// The mind as it comes to act, where it does: yield rule, drives and bids done.
    pub open spec fn poised(self, w: World) -> Mind {
        self.wary(w).moved_on(w, self.elapsed(w)).bid_on(w)
    }

    /// It comes to act this tick.
    pub open spec fn acts(self, w: World) -> bool {
        &&& self.on
        &&& w.have_state
        &&& !self.wary(w).is_yielding(w)
        &&& self.may_act(w)
        &&& !self.poised(w).wakes(w)
        &&& self.poised(w).active is Some
    }

    /// What the behaviour that acts this tick has to know the bearing of.
    pub open spec fn sights(self, w: World) -> Option<(int, int)> {
        if self.acts(w) {
            self.poised(w).active->0.sights(w)
        } else {
            None
        }
    }

    /// One tick, with the bearing of the active behaviour's waypoint, where it has one.
    pub open spec fn ticked(self, w: World, limits: Limits, bearing: Option<i64>) -> Verdict {
        let was = self.kind();
        if !self.on || !w.have_state {
            Mind { last_t: Some(w.t), ..self }.stopped(w, Status::Off, was)
        } else if self.wary(w).is_yielding(w) {
            self.wary(w).stopped(w, Status::Yielded, was)
        } else if !self.may_act(w) {
            let m = self.wary(w).moved_on(w, self.elapsed(w));
            if w.is_busy() && !w.is_sitting() {
                // A skill or a rise in progress: keep the active behaviour, send nothing.
                Verdict { mind: m, status: Status::Waiting, intents: None, changed: None }
            } else {
                m.stopped(w, Status::Waiting, was)
            }
        } else {
            let m = self.poised(w);
            if m.wakes(w) {
                m.woken(w, was)
            } else {
                match m.active {
                    None => m.stopped(w, Status::Waiting, was),
                    Some(a) => m.acted(
                        w,
                        was,
                        a.readied(w).advanced(w, limits, m.seed, bearing),
                    ),
                }
            }
        }
    }
}

fn rank_of(kind: Kind) -> (r: usize)
    ensures
        r == rank(kind),
        r < 17,
        Kind::ALL[r as int] == kind,
{
    match kind {
        Kind::Chill => 0,
        Kind::LookAround => 1,
        Kind::Wander => 2,
        Kind::TurnInPlace => 3,
        Kind::Zoomies => 4,
        Kind::Stretch => 5,
        Kind::Ruffle => 6,
        Kind::Preen => 7,
        Kind::Sneeze => 8,
        Kind::Nap => 9,
        Kind::Startle => 10,
        Kind::GroundPick => 11,
        Kind::Maze => 12,
        Kind::Petted => 13,
        Kind::Dance => 14,
        Kind::Greet => 15,
        Kind::Lonely => 16,
    }
}

fn cooling_of(kind: Kind) -> (c: i64)
    ensures
        c == cooling(kind),
{
    match kind {
        Kind::Stretch | Kind::Ruffle | Kind::Preen | Kind::Sneeze => 20_000_000_000,
        Kind::GroundPick | Kind::Zoomies => 40_000_000_000,
        Kind::Startle => 3_000_000_000,
        Kind::Lonely => 120_000_000_000,
        Kind::Dance => 10_000_000_000,
        _ => 0,
    }
}

fn apart(a: i64, b: i64) -> (r: bool)
    ensures
        r == !(-FOREIGN_EPS <= a - b <= FOREIGN_EPS),
{
    let d: i128 = a as i128 - b as i128;
    d > FOREIGN_EPS as i128 || d < -(FOREIGN_EPS as i128)
}

fn twist_differs(a: &[i64; 3], b: &[i64; 3]) -> (r: bool)
    ensures
        r == differs(a@, b@),
{
    let r: bool = apart(a[0], b[0]) || apart(a[1], b[1]) || apart(a[2], b[2]);
    proof {
        if r {
            assert(!(-FOREIGN_EPS <= a@[0] - b@[0] <= FOREIGN_EPS) || !(-FOREIGN_EPS <= a@[1] - b@[1]
                <= FOREIGN_EPS) || !(-FOREIGN_EPS <= a@[2] - b@[2] <= FOREIGN_EPS));
        } else {
            assert forall|k: int| 0 <= k < 3 implies -FOREIGN_EPS <= (#[trigger] a@[k]) - b@[k]
                <= FOREIGN_EPS by {
                assert(k == 0 || k == 1 || k == 2);
            }
        }
    }
    r
}

fn same_twist(a: &[i64; 3], b: &[i64; 3]) -> (r: bool)
    ensures
        r == (a@ == b@),
{
    let r: bool = a[0] == b[0] && a[1] == b[1] && a[2] == b[2];
    proof {
        if r {
            assert(a@ =~= b@);
        }
    }
    r
}

fn strays_from(v: i64, l: Level) -> (r: bool)
    ensures
        r == strays(v, l),
{
    let amp: i128 = l.amp as i128;
    let swing: i128 = if amp < 0 {
        -amp
    } else {
        amp
    };
    (v as i128) < l.base as i128 - swing - FOREIGN_HEAD_EPS as i128 || v as i128 > l.base as i128
        + swing + FOREIGN_HEAD_EPS as i128
}

fn head_differs(a: &[i64; 4], b: &[Level; 4]) -> (r: bool)
    ensures
        r == head_strays(a@, b@),
{
    let r: bool = strays_from(a[0], b[0]) || strays_from(a[1], b[1]) || strays_from(a[2], b[2])
        || strays_from(a[3], b[3]);
    proof {
        if r {
            assert(strays(a@[0], b@[0]) || strays(a@[1], b@[1]) || strays(a@[2], b@[2]) || strays(
                a@[3],
                b@[3],
            ));
        } else {
            assert forall|k: int| 0 <= k < 4 implies !strays(#[trigger] a@[k], b@[k]) by {
                assert(k == 0 || k == 1 || k == 2 || k == 3);
            }
        }
    }
    r
}

fn same_head(a: &[Level; 4], b: &[Level; 4]) -> (r: bool)
    ensures
        r == (a@ == b@),
{
    let r: bool = a[0] == b[0] && a[1] == b[1] && a[2] == b[2] && a[3] == b[3];
    proof {
        if r {
            assert(a@ =~= b@);
        }
    }
    r
}

impl Arbiter {
    /// A mission that is on can take another step.
    pub open spec fn is_sound(self) -> bool {
        self.active matches Some(a) ==> a.is_sound()
    }

    /// How many moves the mission that is on has made.
    pub open spec fn moves(self) -> int {
        match self.active {
            Some(a) => a.mission.map.moves as int,
            None => 0,
        }
    }

    pub fn new(seed: u64, on: bool) -> (a: Self)
        ensures
            a@ == Mind::fresh(seed, on),
            a.is_sound(),
            a.moves() == 0,
    {
        let a = Arbiter {
            on,
            drives: Drives::default(),
            rng: Dice::with_seed(seed),
            active: None,
            current_score: 0,
            last_round: None,
            last_sent_twist: [0, 0, 0],
            prev_sent_twist: [0, 0, 0],
            twist_changed_at: None,
            last_sent_head: head_at(0, 0, 0, 0),
            prev_sent_head: head_at(0, 0, 0, 0),
            head_changed_at: None,
            foreign_until: None,
            prev_center: None,
            last_t: None,
            entered: false,
            maze_solved: false,
            last_maze: None,
            cells_seen: 0,
            cooldown: [None; 17],
        };
        proof {
            assert(a.last_sent_twist@ =~= seq![0i64, 0, 0]);
            assert(a.prev_sent_twist@ =~= seq![0i64, 0, 0]);
            assert(a.cooldown@ =~= Mind::fresh(seed, on).cooldown);
        }
        a
    }

    pub fn active_kind(&self) -> (k: Option<Kind>)
        ensures
            k == self@.kind(),
    {
        match &self.active {
            Some(a) => Some(a.kind),
            None => None,
        }
    }

    /// Where Wander is heading, if it is following a frontier path.
    pub fn wander_target(&self) -> (p: Option<(i64, i64)>)
        ensures
            match p {
                Some(q) => self@.bound_for() == Some((q.0 as int, q.1 as int)),
                None => self@.bound_for() is None,
            },
            p == (match self.active {
                Some(a) => if a.kind is Wander {
                    match a.plan {
                        Some(path) => if path@.len() > 0 {
                            Some(path@.last())
                        } else {
                            None
                        },
                        None => None,
                    }
                } else {
                    None
                },
                None => None,
            }),
    {
        match &self.active {
            Some(a) => if a.kind == Kind::Wander {
                match &a.plan {
                    Some(path) => if path.len() > 0 {
                        Some(path[path.len() - 1])
                    } else {
                        None
                    },
                    None => None,
                }
            } else {
                None
            },
            None => None,
        }
    }

    /// The maze map while the mission runs (for the log), else the last one.
    pub fn maze_map(&self) -> (m: Option<&MazeMap>)
        ensures
            match m {
                Some(m) => if self@.kind() == Some(Kind::Maze) {
                    *m == self.active->0.mission.map
                } else {
                    self.last_maze == Some(*m)
                },
                None => self@.kind() != Some(Kind::Maze) && self.last_maze is None,
            },
    {
        match &self.active {
            Some(a) => if a.kind == Kind::Maze {
                Some(&a.mission.map)
            } else {
                self.last_maze.as_ref()
            },
            None => self.last_maze.as_ref(),
        }
    }

    fn sent(&mut self, twist: [i64; 3], t: i64)
        ensures
            final(self)@ == old(self)@.sent(twist@, t),
            final(self).active == old(self).active,
    {
        if !same_twist(&twist, &self.last_sent_twist) {
            self.prev_sent_twist = self.last_sent_twist;
            self.last_sent_twist = twist;
            self.twist_changed_at = Some(t);
        }
    }

    fn posed(&mut self, head: Option<[Level; 4]>, t: i64)
        ensures
            final(self)@ == old(self)@.posed(head, t),
            final(self).active == old(self).active,
    {
        if let Some(h) = head {
            if !same_head(&h, &self.last_sent_head) {
                self.prev_sent_head = self.last_sent_head;
                self.last_sent_head = h;
                self.head_changed_at = Some(t);
            }
        }
    }

    fn told(&mut self, i: &Intents, t: i64)
        ensures
            final(self)@ == old(self)@.told(*i, t),
            final(self).active == old(self).active,
    {
        self.sent(i.twist, t);
        self.posed(i.head, t);
    }

    fn leave(&mut self, w: &World, kind: Kind)
        ensures
            final(self)@ == old(self)@.left(*w, kind),
            final(self).active is None,
    {
        self.active = None;
        // Gestures and picks do not repeat straight away.
        let cool: i64 = cooling_of(kind);
        if cool > 0 {
            let r: usize = rank_of(kind);
            let ghost before = self.cooldown@;
            self.cooldown[r] = Some(w.t as i128 + cool as i128);
            proof {
                assert(self.cooldown@ =~= before.update(
                    rank(kind),
                    Some((w.t + cooling(kind)) as i128),
                ));
            }
        }
    }

    fn empty(&mut self, w: &World)
        ensures
            final(self)@ == old(self)@.emptied(*w),
            final(self).active is None,
    {
        let kind = self.active_kind();
        if let Some(k) = kind {
            self.leave(w, k);
        }
    }

    /// Drop whatever is active.
    pub fn stop(&mut self, w: &World, status: Status, was: Option<Kind>) -> (d: Decision)
        ensures
            final(self)@ == old(self)@.stopped(*w, status, was).mind,
            d.status == status,
            d.intents == old(self)@.stopped(*w, status, was).intents,
            d.changed == old(self)@.stopped(*w, status, was).changed,
            final(self).active is None,
    {
        let had: bool = self.active.is_some();
        self.empty(w);
        self.current_score = 0;
        let zero: [i64; 3] = [0, 0, 0];
        proof {
            assert(zero@ =~= seq![0i64, 0, 0]);
        }
        self.sent(zero, w.t);
        // One neutral on the way out, so a twist is not left running.
        let intents: Option<Intents> = if had {
            let rest = Active::neutral();
            self.posed(rest.head, w.t);
            Some(rest)
        } else {
            None
        };
        Decision {
            status,
            intents,
            changed: if had {
                Some((was, None))
            } else {
                None
            },
        }
    }

    /// Let a behaviour take over, with the score it won by.
    pub fn switch_to(&mut self, kind: Kind, s: i128, w: &World)
        ensures
            final(self)@ == old(self)@.switched(kind, s as int, *w),
            final(self).is_sound(),
            final(self).moves() == 0,
    {
        self.empty(w);
        self.active = Some(Active::enter(kind, w, &mut self.rng));
        self.current_score = s;
        self.entered = true;
    }

    fn foreign_head(&self, w: &World) -> (r: bool)
        ensures
            r == self@.is_foreign_head(*w),
    {
        let level = head_at(0, 0, 0, 0);
        let settled: bool = match self.head_changed_at {
            Some(t) => w.t as i128 - t as i128 > SEND_GRACE_S as i128,
            None => true,
        };
        head_differs(&w.head_requested, &level) && head_differs(
            &w.head_requested,
            &self.last_sent_head,
        ) && head_differs(&w.head_requested, &self.prev_sent_head) && settled
    }

    fn foreign_skill(&self, w: &World) -> (r: bool)
        ensures
            r == self@.is_foreign_skill(*w),
    {
        if w.driven_by("kick_left") || w.driven_by("kick_right") || w.driven_by("roulade") {
            return true;
        }
        let picking: bool = match self.active_kind() {
            Some(k) => k == Kind::GroundPick,
            None => false,
        };
        w.driven_by("ground_pick") && !picking && !self.barred(w, Kind::GroundPick)
    }

    fn foreign(&self, w: &World) -> (r: bool)
        ensures
            r == self@.is_foreign(*w),
    {
        self.foreign_twist(w) || self.foreign_head(w) || self.foreign_skill(w)
    }

    fn foreign_twist(&self, w: &World) -> (r: bool)
        ensures
            r == self@.is_foreign_twist(*w),
    {
        let zero: [i64; 3] = [0, 0, 0];
        proof {
            assert(zero@ =~= seq![0i64, 0, 0]);
        }
        let settled: bool = match self.twist_changed_at {
            Some(t) => w.t as i128 - t as i128 > SEND_GRACE_S as i128,
            None => true,
        };
        twist_differs(&w.move_requested, &zero) && twist_differs(
            &w.move_requested,
            &self.last_sent_twist,
        ) && twist_differs(&w.move_requested, &self.prev_sent_twist) && settled
    }

    fn barred(&self, w: &World, kind: Kind) -> (r: bool)
        ensures
            r == self@.is_barred(*w, kind),
    {
        let cold: bool = match self.cooldown[rank_of(kind)] {
            Some(until) => (w.t as i128) < until,
            None => false,
        };
        cold || (kind == Kind::Maze && self.maze_solved)
    }

    fn take_bids(&mut self, w: &World) -> (best: Option<(Kind, i128)>)
        ensures
            match best {
                Some((k, s)) => old(self)@.round(*w, 17).best == Some((k, s as int)),
                None => old(self)@.round(*w, 17).best is None,
            },
            final(self)@ == (Mind { seed: old(self)@.round(*w, 17).seed, ..old(self)@ }),
            final(self).active == old(self).active,
    {
        let ghost m = self@;
        let mut best: Option<(Kind, i128)> = None;
        let mut k: usize = 0;
        while k < 17
            invariant
                k <= 17,
                m == old(self)@,
                self@ == (Mind { seed: m.round(*w, k as nat).seed, ..m }),
                self.active == old(self).active,
                match best {
                    Some((b, s)) => m.round(*w, k as nat).best == Some((b, s as int)),
                    None => m.round(*w, k as nat).best is None,
                },
            decreases 17 - k,
        {
            let kind = Kind::ALL[k];
            let ghost before = m.round(*w, k as nat);
            if !self.barred(w, kind) {
                if let Some(s) = score(kind, w, &self.drives, &mut self.rng, self.prev_center) {
                    let better: bool = match best {
                        Some((_, b)) => s > b,
                        None => true,
                    };
                    if better {
                        best = Some((kind, s));
                    }
                }
            }
            k += 1;
        }
        best
    }
}

impl Arbiter {
    fn hold_round(&mut self, w: &World)
        requires
            old(self).is_sound(),
        ensures
            final(self)@ == old(self)@.after_round(*w),
            final(self).is_sound(),
            final(self).moves() <= old(self).moves(),
    {
        let ghost m = self@;
        let best = self.take_bids(w);
        self.last_round = Some(w.t);
        self.prev_center = w.obstacles.center;
        if let Some((kind, s)) = best {
            let margin: i128 = points_of(MARGIN as i128);
            let clear: bool = self.current_score <= i128::MAX - margin && s > self.current_score
                + margin;
            let (same, switch): (bool, bool) = match &self.active {
                None => (false, true),
                Some(a) => {
                    let dwelt: bool = w.t as i128 - a.since as i128 >= a.kind.min_dwell() as i128;
                    (a.kind == kind, a.kind != kind && (dwelt || kind.is_reflex()) && clear)
                },
            };
            if switch {
                self.switch_to(kind, s, w);
            } else if same {
                self.current_score = s;
            }
        }
    }

    fn bids(&mut self, w: &World)
        requires
            old(self).is_sound(),
        ensures
            final(self)@ == old(self)@.bid_on(*w),
            final(self).is_sound(),
            final(self).moves() <= old(self).moves(),
    {
        let due: bool = match self.last_round {
            Some(t) => w.t as i128 - t as i128 >= ROUND_S as i128,
            None => true,
        };
        if due {
            self.hold_round(w);
        }
    }

    fn rouses(&self, w: &World) -> (r: bool)
        ensures
            r == self@.wakes(*w),
    {
        match &self.active {
            Some(a) => {
                let rested: bool = self.drives.energy > WAKE_ENERGY && w.t as i128 - a.since as i128
                    >= Kind::Nap.min_dwell() as i128;
                let noise: bool = match w.last_noise {
                    Some(t) => t > a.since,
                    None => false,
                };
                let voice: bool = match w.last_voice {
                    Some(t) => t > a.since,
                    None => false,
                };
                a.kind == Kind::Nap && (rested || noise || voice || w.petting())
            },
            None => false,
        }
    }

    fn wake(&mut self, w: &World, was: Option<Kind>) -> (d: Decision)
        ensures
            final(self)@ == old(self)@.woken(*w, was).mind,
            d.status == old(self)@.woken(*w, was).status,
            d.intents == old(self)@.woken(*w, was).intents,
            d.changed == old(self)@.woken(*w, was).changed,
            final(self).active is None,
    {
        self.leave(w, Kind::Nap);
        self.current_score = 0;
        let mut up = Active::neutral();
        self.told(&up, w.t);
        if w.sitting() {
            up.skill = Some(Skill::SitToggle);
        }
        Decision { status: Status::Waiting, intents: Some(up), changed: Some((was, None)) }
    }

    fn move_on(&mut self, w: &World, dt: i64)
        requires
            old(self).is_sound(),
        ensures
            final(self)@ == old(self)@.moved_on(*w, dt as int),
            final(self).active == old(self).active,
    {
        let kind = self.active_kind();
        let napping: bool = match kind {
            Some(k) => k == Kind::Nap,
            None => false,
        };
        let activity: u32 = match kind {
            Some(k) => k.activity(),
            None => 0,
        };
        let seen: usize = w.grid.cells_seen();
        let new_place: bool = seen > self.cells_seen;
        self.cells_seen = seen;
        self.drives.update(dt, activity, napping, new_place, w);
    }

    /// What is sent and kept after the active behaviour has ticked.
    fn settle(
        &mut self,
        w: &World,
        was: Option<Kind>,
        a: Active,
        intents: Intents,
        done: bool,
        Ghost(o): Ghost<Outcome>,
    ) -> (d: Decision)
        requires
            old(self).active is None,
            a.is_sound(),
            o.act == a@,
            o.intents == intents,
            o.done == done,
            o.seed == old(self).rng.seed,
        ensures
            final(self)@ == old(self)@.acted(*w, was, o).mind,
            d.status == old(self)@.acted(*w, was, o).status,
            d.intents == old(self)@.acted(*w, was, o).intents,
            d.changed == old(self)@.acted(*w, was, o).changed,
            final(self).is_sound(),
            final(self).active is Some ==> final(self).moves() == a.mission.map.moves,
    {
        let kind = a.kind;
        let was_startled: bool = match was {
            Some(k) => k == Kind::Startle,
            None => false,
        };
        if kind == Kind::Startle && !was_startled {
            self.drives.startled();
        }
        if done {
            if kind == Kind::Maze {
                self.maze_solved = true;
                self.last_maze = Some(a.mission.map);
            }
            self.leave(w, kind);
            let mut out = Active::neutral();
            out.sound = intents.sound;  // a parting sound survives the reset
            self.current_score = 0;
            self.told(&out, w.t);
            Decision {
                status: Status::Waiting,
                intents: Some(out),
                changed: match was {
                    Some(k) => Some((Some(k), None)),
                    None => None,
                },
            }
        } else {
            let mut out = intents;
            if self.entered {
                // A fresh behaviour inherits nothing.
                if out.pose.is_none() {
                    out.pose = Some((Level::flat(0), Level::flat(0), Level::flat(0)));
                }
                if out.head.is_none() {
                    out.head = Some(head_at(0, 0, 0, 0));
                }
                if out.mouth.is_none() {
                    out.mouth = Some(Level::flat(0));
                }
            }
            self.entered = false;
            self.active = Some(a);
            self.told(&out, w.t);
            let same: bool = match was {
                Some(k) => k == kind,
                None => false,
            };
            Decision {
                status: Status::Active(kind),
                intents: Some(out),
                changed: if same {
                    None
                } else {
                    Some((was, Some(kind)))
                },
            }
        }
    }

    /// Everything of a tick but the active behaviour's own: the yield rule, the drives, the
    /// bids, waking. Settles what the daemon should do, unless a behaviour is to act.
    pub fn consider(&mut self, w: &World, limits: Limits) -> (r: Option<Decision>)
        requires
            old(self).is_sound(),
        ensures
            match r {
                Some(d) => {
                    let v = old(self)@.ticked(*w, limits, None);
                    &&& !old(self)@.acts(*w)
                    &&& final(self)@ == v.mind
                    &&& d.status == v.status
                    &&& d.intents == v.intents
                    &&& d.changed == v.changed
                },
                None => old(self)@.acts(*w) && final(self)@ == old(self)@.poised(*w),
            },
            final(self).is_sound(),
            final(self).moves() <= old(self).moves(),
    {
        let ghost m = self@;
        let dt: i64 = match self.last_t {
            Some(t) => hold(w.t as i128 - t as i128, 0, 1_000_000_000),
            None => 0,
        };
        self.last_t = Some(w.t);
        let was = self.active_kind();
        if !self.on || !w.have_state {
            return Some(self.stop(w, Status::Off, was));
        }
        // Yield: a twist we did not send means a person (or another client) has the robot.
        if self.foreign(w) {
            self.foreign_until = Some(w.t as i128 + YIELD_S as i128);
        }
        assert(self@ == m.wary(*w));
        let yielding: bool = match self.foreign_until {
            Some(until) => (w.t as i128) < until,
            None => false,
        };
        if yielding {
            return Some(self.stop(w, Status::Yielded, was));
        }
        self.move_on(w, dt);
        let napping: bool = match was {
            Some(k) => k == Kind::Nap,
            None => false,
        };
        // Only a napping brain may act on a sitting robot; anything else waits to stand.
        if !(w.standing() || (napping && w.sitting())) {
            if w.busy() && !w.sitting() {
                // A skill or a rise in progress: keep the active behaviour, send nothing.
                return Some(Decision { status: Status::Waiting, intents: None, changed: None });
            }
            return Some(self.stop(w, Status::Waiting, was));
        }
        self.bids(w);
        assert(self@ == m.poised(*w));
        if self.rouses(w) {
            return Some(self.wake(w, was));
        }
        if self.active.is_none() {
            return Some(self.stop(w, Status::Waiting, was));
        }
        None
    }

    /// The active behaviour's part of a tick. `bearing` is the direction of Wander's waypoint,
    /// where it has one; `was` is what was active as the tick began.
    pub fn act(&mut self, w: &World, limits: Limits, was: Option<Kind>, bearing: Option<i64>) -> (d:
        Decision)
        requires
            old(self).is_sound(),
            old(self).moves() < u32::MAX - 1,
            old(self).active is Some,
        ensures
            ({
                let o = old(self)@.active->0.advanced(*w, limits, old(self)@.seed, bearing);
                let v = old(self)@.acted(*w, was, o);
                &&& final(self)@ == v.mind
                &&& d.status == v.status
                &&& d.intents == v.intents
                &&& d.changed == v.changed
            }),
            final(self).is_sound(),
            final(self).moves() <= old(self).moves() + 1,
    {
        let ghost m = self@;
        let mut a = self.active.take().unwrap();
        let ghost o = m.active->0.advanced(*w, limits, m.seed, bearing);
        let step = a.advance(w, limits, &mut self.rng, bearing);
        let ghost before = self@;
        let d = self.settle(w, was, a, step.intents, step.done, Ghost(o));
        proof {
            assert(before.acted(*w, was, o).mind =~= m.acted(*w, was, o).mind);
        }
        d
    }

    /// Let the active behaviour plan; where it steers at a point, that point from the duck.
    fn ready(&mut self, w: &World) -> (p: Option<(i128, i128)>)
        requires
            old(self).is_sound(),
            old(self).active is Some,
        ensures
            final(self)@ == (Mind {
                active: Some(old(self)@.active->0.readied(*w)),
                ..old(self)@
            }),
            match p {
                Some(p) => old(self)@.active->0.sights(*w) == Some((p.0 as int, p.1 as int)),
                None => old(self)@.active->0.sights(*w) is None,
            },
            final(self).is_sound(),
            final(self).moves() == old(self).moves(),
            final(self).active is Some,
    {
        let mut a = self.active.take().unwrap();
        let p = a.ready(w);
        self.active = Some(a);
        p
    }

    /// One tick: what the daemon should do. `bearing` gives the direction of a point from its
    /// offsets, ahead last.
    pub fn tick<F: Fn(i128, i128) -> i64>(&mut self, w: &World, limits: Limits, bearing: &F) -> (d:
        Decision)
        requires
            old(self).is_sound(),
            old(self).moves() < u32::MAX - 1,
            forall|dy: i128, dx: i128| #[trigger] call_requires(*bearing, (dy, dx)),
        ensures
            exists|b: Option<i64>|
                {
                    &&& #[trigger] is_bearing(*bearing, old(self)@.sights(*w), b)
                    &&& ({
                        let v = old(self)@.ticked(*w, limits, b);
                        &&& final(self)@ == v.mind
                        &&& d.status == v.status
                        &&& d.intents == v.intents
                        &&& d.changed == v.changed
                    })
                },
            final(self).is_sound(),
            final(self).moves() <= old(self).moves() + 1,
    {
        let ghost m = self@;
        let was = self.active_kind();
        match self.consider(w, limits) {
            Some(d) => {
                let none: Option<i64> = None;
                assert(is_bearing(*bearing, m.sights(*w), none));
                d
            },
            None => {
                let b: Option<i64> = match self.ready(w) {
                    Some((dx, dy)) => Some(bearing(dy, dx)),
                    None => None,
                };
                assert(is_bearing(*bearing, m.sights(*w), b));
                let ghost readied = self@;
                let d = self.act(w, limits, was, b);
                proof {
                    let o = readied.active->0.advanced(*w, limits, readied.seed, b);
                    assert(readied.acted(*w, was, o).mind =~= m.poised(*w).acted(*w, was, o).mind);
                }
                d
            },
        }
    }
}

} // verus!

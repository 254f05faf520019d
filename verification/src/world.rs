//! Senses: what the robot reports becomes a [`World`] the behaviours can reason about.
//!
//! Everything a behaviour asks (is the way ahead clear, am I standing, where have I not
//! been) is answered here, from state frames, depth frames and memory. Nothing in this
//! module talks to a socket; the daemon feeds it and the tests feed it by hand.

use std::collections::{HashMap, HashSet};

use vstd::prelude::*;

use crate::proto::{EventKind, RobotEvent, RobotState, TofFrame};
use crate::room::{Room, RoomMap};
use crate::sparse::{lists, place, Sparse};
use crate::tof::{is_near, near, Pose, Zone};
use crate::units::{coordinate, floor_div, round_div, rounded, to_coordinate, NANO, PI};

verus! {

/// A frame older than this is not evidence about the room any more.
pub const TOF_STALE_S: i64 = 500_000_000;

/// The width of a novelty grid cell. A duck-length; finer would count fidgeting as exploring.
pub const CELL_M: i64 = 250_000_000;

/// Which drive mode the robot is in; it changes what a "push" means.
#[derive(Debug, Clone, Copy, PartialEq, Eq, Structural, Default)]
pub enum Mode {
    #[default]
    Walk,
    Roller,
}

/// What the depth sensor says about the room, in three sectors, horizontal range from the
/// trunk axis. `None` = nothing in range in that sector (or no return).
#[derive(Debug, Clone, Copy, PartialEq, Eq, Structural)]
pub struct Obstacles {
    pub left: Option<i64>,
    pub center: Option<i64>,
    pub right: Option<i64>,
    /// Something inside the sensor's short-range noise band: an object at the beak, or a
    /// hand. Startle material.
    pub too_close: bool,
    /// The floor is confirmed somewhere ahead: the sensor is looking down enough to see it
    /// and nothing is in the way. Ground pick wants this.
    pub floor_ahead: bool,
    /// Age of the frame these came from. `None` = never had one.
    pub age_s: Option<i64>,
}

/// The smaller of two ranges, where there is one.
pub open spec fn nearer(a: Option<i64>, b: Option<i64>) -> Option<i64> {
    match (a, b) {
        (Some(x), Some(y)) => Some(if y < x {
            y
        } else {
            x
        }),
        (Some(x), None) => Some(x),
        (None, y) => y,
    }
}

fn nearer_of(a: Option<i64>, b: Option<i64>) -> (r: Option<i64>)
    ensures
        r == nearer(a, b),
{
    match (a, b) {
        (Some(x), Some(y)) => if y < x {
            Some(y)
        } else {
            Some(x)
        },
        (Some(x), None) => Some(x),
        (None, y) => y,
    }
}

impl Default for Obstacles {
    fn default() -> (o: Self)
        ensures
            o == Obstacles::none(),
    {
        Obstacles {
            left: None,
            center: None,
            right: None,
            too_close: false,
            floor_ahead: false,
            age_s: None,
        }
    }
}

impl Obstacles {
    /// Nothing seen yet.
    pub open spec fn none() -> Obstacles {
        Obstacles {
            left: None,
            center: None,
            right: None,
            too_close: false,
            floor_ahead: false,
            age_s: None,
        }
    }

    pub open spec fn is_fresh(self) -> bool {
        self.age_s matches Some(a) && a <= TOF_STALE_S
    }

    pub fn fresh(&self) -> (r: bool)
        ensures
            r == self.is_fresh(),
    {
        match self.age_s {
            Some(a) => a <= TOF_STALE_S,
            None => false,
        }
    }

    /// The nearest thing in any of the three sectors.
    pub fn nearest(&self) -> (r: Option<i64>)
        ensures
            r == nearer(nearer(self.left, self.center), self.right),
    {
        nearer_of(nearer_of(self.left, self.center), self.right)
    }
}

/// Where the duck has been, as it is remembered.
#[verifier::ext_equal]
pub ghost struct Novelty {
    pub counts: Map<(int, int), u32>,
    pub last: Option<(int, int)>,
    pub last_new_t: int,
    pub faded_at: int,
}

/// Visit counts halve this often: ten minutes.
pub const FADE_S: i64 = 600_000_000_000;

/// Half a count, rounded up: a cell once seen stays seen.
pub open spec fn half(n: u32) -> u32 {
    (n / 2 + n % 2) as u32
}

/// The novelty cell a point lies in.
pub open spec fn patch_of(x: int, y: int) -> (int, int) {
    (coordinate(x / (CELL_M as int)), coordinate(y / (CELL_M as int)))
}

impl Novelty {
    pub open spec fn count(self, c: (int, int)) -> u32 {
        if self.counts.contains_key(c) {
            self.counts[c]
        } else {
            0
        }
    }

    /// There is room to count a visit to `c`, or nothing to count.
    pub open spec fn has_room(self, c: (int, int)) -> bool {
        self.last == Some(c) || self.count(c) < u32::MAX
    }

    /// A stay in the cell last visited counts for nothing; entering any other counts a visit.
    pub open spec fn visited(self, c: (int, int), t: int) -> Novelty {
        if self.last == Some(c) {
            self
        } else {
            Novelty {
                counts: self.counts.insert(c, (self.count(c) + 1) as u32),
                last: Some(c),
                last_new_t: if self.count(c) == 0 {
                    t
                } else {
                    self.last_new_t
                },
                ..self
            }
        }
    }

    /// Counts decay: at time `t`, if they last did so long enough ago, every one halves.
    pub open spec fn faded(self, t: int) -> Novelty {
        if t - self.faded_at < FADE_S {
            self
        } else {
            Novelty {
                counts: self.counts.map_values(|n: u32| half(n)),
                faded_at: t,
                ..self
            }
        }
    }

    /// Entering `c` now is entering a cell never seen before.
    /// What a robot that is at a place at a time makes of it, on its feet or not.
    pub open spec fn stood(self, standing: bool, x: int, y: int, t: int) -> Novelty {
        if standing {
            self.faded(t).visited(patch_of(x, y), t)
        } else {
            self.faded(t)
        }
    }

    pub open spec fn is_new(self, c: (int, int)) -> bool {
        self.last != Some(c) && self.count(c) == 0
    }
}

/// Where the duck has been. Visit counts per cell, decaying, so Wander can prefer the
/// unvisited, and in time what it has not seen for long.
pub struct NoveltyGrid {
    pub cells: Sparse<u32>,
    pub last: Option<(i32, i32)>,
    /// Robot time of the last time a *new* cell was entered.
    pub last_new_t: i64,
    /// Robot time of the last time the counts decayed.
    pub faded_at: i64,
}

impl View for NoveltyGrid {
    type V = Novelty;

    open spec fn view(&self) -> Novelty {
        Novelty {
            counts: self.cells@,
            last: match self.last {
                Some(c) => Some(place(c)),
                None => None,
            },
            last_new_t: self.last_new_t as int,
            faded_at: self.faded_at as int,
        }
    }
}

fn patch_key(x: i128, y: i128) -> (c: (i32, i32))
    ensures
        place(c) == patch_of(x as int, y as int),
{
    (to_coordinate(floor_div(x, CELL_M as i128)), to_coordinate(floor_div(y, CELL_M as i128)))
}

impl Default for NoveltyGrid {
    fn default() -> (g: Self)
        ensures
            g@ == (Novelty { counts: Map::empty(), last: None, last_new_t: 0, faded_at: 0 }),
    {
        NoveltyGrid { cells: Sparse::new(), last: None, last_new_t: 0, faded_at: 0 }
    }
}

/// The point `look` ahead of `(x, y)` on the heading whose cosine and sine are `facing`.
pub open spec fn ahead_of(x: int, y: int, facing: (i32, i32), look: int) -> (int, int) {
    (x + rounded(look * facing.0, NANO as int), y + rounded(look * facing.1, NANO as int))
}

impl NoveltyGrid {
    /// Record the robot at `(x, y)`. Returns true when this is a cell never seen before.
    pub fn visit(&mut self, x: i64, y: i64, t: i64) -> (new: bool)
        requires
            old(self)@.has_room(patch_of(x as int, y as int)),
        ensures
            final(self)@ == old(self)@.visited(patch_of(x as int, y as int), t as int),
            new == old(self)@.is_new(patch_of(x as int, y as int)),
    {
        let k = patch_key(x as i128, y as i128);
        if let Some(last) = self.last {
            if last.0 == k.0 && last.1 == k.1 {
                return false;
            }
        }
        assert(self@.last != Some(place(k)));
        self.last = Some(k);
        let count: u32 = match self.cells.get(k) {
            Some(n) => n,
            None => 0,
        };
        self.cells.put(k, count + 1);
        if count == 0 {
            self.last_new_t = t;
            true
        } else {
            false
        }
    }

    /// A visit to `(x, y)` can still be counted, or would not count.
    pub fn has_room_at(&self, x: i64, y: i64) -> (r: bool)
        ensures
            r == self@.has_room(patch_of(x as int, y as int)),
    {
        let k = patch_key(x as i128, y as i128);
        let stays: bool = match self.last {
            Some(last) => last.0 == k.0 && last.1 == k.1,
            None => false,
        };
        stays || self.visits(x, y) < u32::MAX
    }

    /// Let the counts decay, if it is time.
    pub fn fade(&mut self, t: i64)
        ensures
            final(self)@ == old(self)@.faded(t as int),
    {
        if (t as i128 - self.faded_at as i128) < FADE_S as i128 {
            return;
        }
        self.faded_at = t;
        let list = self.cells.entries();
        let ghost before = self.cells@;
        let n: usize = list.len();
        let mut i: usize = 0;
        while i < n
            invariant
                n == list.len(),
                i <= n,
                lists(before, list@),
                before == old(self).cells@,
                self.last == old(self).last,
                self.last_new_t == old(self).last_new_t,
                self.faded_at == t,
                self.cells@.dom() == before.dom(),
                forall|j: int|
                    0 <= j < i ==> self.cells@[place(#[trigger] list@[j].0)] == half(list@[j].1),
                forall|j: int| i <= j < n ==> self.cells@[place(#[trigger] list@[j].0)] == list@[j].1,
            decreases n - i,
        {
            let (c, count): ((i32, i32), u32) = list[i];
            self.cells.put(c, count / 2 + count % 2);
            proof {
                assert(before.contains_key(place(list@[i as int].0)));
                assert(self.cells@.dom() =~= before.dom());
            }
            i += 1;
        }
        proof {
            let after = old(self)@.faded(t as int).counts;
            assert forall|c: (int, int)| before.contains_key(c) implies #[trigger] self.cells@[c]
                == after[c] by {
                let j = choose|j: int| 0 <= j < list@.len() && place(#[trigger] list@[j].0) == c;
                assert(self.cells@[place(list@[j].0)] == half(list@[j].1));
            }
            assert(self@.counts =~= after);
        }
    }

    pub fn visits(&self, x: i64, y: i64) -> (n: u32)
        ensures
            n == self@.count(patch_of(x as int, y as int)),
    {
        self.visits_at(x as i128, y as i128)
    }

    fn visits_at(&self, x: i128, y: i128) -> (n: u32)
        ensures
            n == self@.count(patch_of(x as int, y as int)),
    {
        match self.cells.get(patch_key(x, y)) {
            Some(n) => n,
            None => 0,
        }
    }

    pub fn cells_seen(&self) -> (n: usize)
        ensures
            n == self@.counts.dom().len(),
            self@.counts.dom().finite(),
    {
        self.cells.len()
    }

    /// Score a heading, given by its cosine and sine, by how unvisited the cell `look_m` ahead
    /// is: lower is more novel. Ties broken by the caller's jitter.
    pub fn visits_ahead(&self, x: i64, y: i64, facing: (i32, i32), look_m: i64) -> (n: u32)
        ensures
            n == ({
                let p = ahead_of(x as int, y as int, facing, look_m as int);
                self@.count(patch_of(p.0, p.1))
            }),
    {
        let (c, s): (i128, i128) = (facing.0 as i128, facing.1 as i128);
        let look: i128 = look_m as i128;
        proof {
            lemma_look_fits(look_m as int, facing.0 as int);
            lemma_look_fits(look_m as int, facing.1 as int);
        }
        self.visits_at(
            x as i128 + round_div(look * c, NANO as i128),
            y as i128 + round_div(look * s, NANO as i128),
        )
    }
}

proof fn lemma_look_fits(look: int, c: int)
    requires
        i64::MIN <= look <= i64::MAX,
        i32::MIN <= c <= i32::MAX,
    ensures
        -0x4000_0000_0000_0000_0000_0000 <= look * c <= 0x4000_0000_0000_0000_0000_0000,
{
    assert(-0x4000_0000_0000_0000_0000_0000 <= look * c <= 0x4000_0000_0000_0000_0000_0000)
        by (nonlinear_arith)
        requires
            -0x8000_0000_0000_0000 <= look <= 0x8000_0000_0000_0000,
            -0x8000_0000 <= c <= 0x8000_0000,
    ;
}

/// Bearing bins around the trunk, 30° each from −105° to +105°; index 3 is dead ahead,
/// 0 is the right side, 6 the left. The depth sensor covers about 45° at a time, so a full
/// picture is built by turning the head; this is what remembers the glances.
pub const RADAR_BINS: usize = 7;

pub const RADAR_MAX_AGE_S: i64 = 3_000_000_000;

/// What "saw nothing" means as a range: the sensor's useful reach.
pub const TOF_REACH_M: i64 = 4_000_000_000;

/// A bin the sensor has not covered lately.
#[derive(Debug, Clone, Copy, PartialEq, Eq, Structural)]
pub struct Stale;

#[derive(Debug, Clone, Copy, PartialEq, Eq)]
pub struct Radar {
    /// Nearest hit per bin, horizontal; `None` = looked and saw nothing in range.
    pub range: [Option<i64>; 7],
    /// Farthest a beam in the bin reached: the deepest hit, or [`TOF_REACH_M`] when some beam
    /// saw nothing at all. An opening in a wall shows up here even when the wall's edge is
    /// the nearest thing.
    pub far: [i64; 7],
    /// Nearest hit among only the beams within ±8° of the bin's centre line: the range
    /// straight along that bearing, unclipped by a side wall the bin's edges graze.
    pub axis: [Option<i64>; 7],
    /// Robot time the bin was last covered by a frame; `None` = never.
    pub at: [Option<i64>; 7],
}

impl Default for Radar {
    fn default() -> (r: Self)
        ensures
            r.is_blank(),
    {
        Radar { range: [None; 7], far: [0; 7], axis: [None; 7], at: [None; 7] }
    }
}

/// Which 30° bin a bearing falls in, counted from the right; less than 0 or more than 6 where
/// it falls in none.
pub open spec fn bin_number(bearing: int) -> int {
    (12 * bearing + 7 * PI) / (2 * PI)
}

/// A bearing within 8° of the middle of its bin.
pub open spec fn is_near_axis(bearing: int, bin: int) -> bool {
    -8 * PI <= 180 * bearing - (bin - 3) * 30 * PI <= 8 * PI
}

impl Radar {
    pub const RIGHT: usize = 0;

    pub const AHEAD: usize = 3;

    pub const LEFT: usize = 6;

    /// The bin a trunk-frame bearing (left positive) falls in.
    pub fn bin_of(bearing: i64) -> (b: Option<usize>)
        ensures
            match b {
                Some(b) => b == bin_number(bearing as int) && b < 7,
                None => !(0 <= bin_number(bearing as int) < 7),
            },
    {
        let n: i128 = floor_div(12 * bearing as i128 + 7 * PI as i128, 2 * PI as i128);
        if n >= 0 && n < 7 {
            Some(n as usize)
        } else {
            None
        }
    }

    pub open spec fn is_fresh(self, bin: int, now: int) -> bool {
        self.at@[bin] matches Some(t) && now - t <= RADAR_MAX_AGE_S
    }

    /// Whether `bin` has been looked at within [`RADAR_MAX_AGE_S`].
    pub fn fresh(&self, bin: usize, now: i64) -> (r: bool)
        requires
            bin < 7,
        ensures
            r == self.is_fresh(bin as int, now as int),
    {
        match self.at[bin] {
            Some(t) => now as i128 - t as i128 <= RADAR_MAX_AGE_S as i128,
            None => false,
        }
    }

    /// The greatest reach over the first `k` of `bins`, or 0 over none.
    pub open spec fn reach(self, bins: Seq<usize>, k: nat) -> i64
        decreases k,
    {
        if k == 0 {
            0
        } else {
            let before = self.reach(bins, (k - 1) as nat);
            let far = self.far@[bins[k - 1] as int];
            if far > before {
                far
            } else {
                before
            }
        }
    }

    /// The least range over the first `k` of `bins`, if any has one.
    pub open spec fn closest(self, bins: Seq<usize>, k: nat) -> Option<i64>
        decreases k,
    {
        if k == 0 {
            None
        } else {
            nearer(self.closest(bins, (k - 1) as nat), self.range@[bins[k - 1] as int])
        }
    }

    pub open spec fn all_fresh(self, bins: Seq<usize>, now: int) -> bool {
        forall|i: int| 0 <= i < bins.len() ==> self.is_fresh(#[trigger] bins[i] as int, now)
    }

    /// How deep the sensor saw across `bins`; [`Stale`] if any is stale.
    pub fn deepest(&self, bins: &[usize], now: i64) -> (r: Result<i64, Stale>)
        requires
            forall|i: int| 0 <= i < bins@.len() ==> #[trigger] bins@[i] < 7,
        ensures
            r == (if self.all_fresh(bins@, now as int) {
                Ok::<i64, Stale>(self.reach(bins@, bins@.len()))
            } else {
                Err(Stale)
            }),
    {
        let mut best: i64 = 0;
        let n: usize = bins.len();
        let mut i: usize = 0;
        while i < n
            invariant
                n == bins@.len(),
                i <= n,
                forall|i: int| 0 <= i < bins@.len() ==> #[trigger] bins@[i] < 7,
                forall|j: int| 0 <= j < i ==> self.is_fresh(#[trigger] bins@[j] as int, now as int),
                best == self.reach(bins@, i as nat),
            decreases n - i,
        {
            let b: usize = bins[i];
            if !self.fresh(b, now) {
                return Err(Stale);
            }
            if self.far[b] > best {
                best = self.far[b];
            }
            i += 1;
        }
        Ok(best)
    }

    /// The nearest thing across `bins`, or `None` if all clear; [`Stale`] if any is stale.
    pub fn nearest(&self, bins: &[usize], now: i64) -> (r: Result<Option<i64>, Stale>)
        requires
            forall|i: int| 0 <= i < bins@.len() ==> #[trigger] bins@[i] < 7,
        ensures
            r == (if self.all_fresh(bins@, now as int) {
                Ok::<Option<i64>, Stale>(self.closest(bins@, bins@.len()))
            } else {
                Err(Stale)
            }),
    {
        let mut best: Option<i64> = None;
        let n: usize = bins.len();
        let mut i: usize = 0;
        while i < n
            invariant
                n == bins@.len(),
                i <= n,
                forall|i: int| 0 <= i < bins@.len() ==> #[trigger] bins@[i] < 7,
                forall|j: int| 0 <= j < i ==> self.is_fresh(#[trigger] bins@[j] as int, now as int),
                best == self.closest(bins@, i as nat),
            decreases n - i,
        {
            let b: usize = bins[i];
            if !self.fresh(b, now) {
                return Err(Stale);
            }
            best = nearer_of(best, self.range[b]);
            i += 1;
        }
        Ok(best)
    }
}

/// The nearest hit among the first `k` zones in columns `lo` up to but not including `hi`.
pub open spec fn sector(zones: Seq<Zone>, lo: int, hi: int, k: nat) -> Option<i64>
    decreases k,
{
    if k == 0 {
        None
    } else {
        let before = sector(zones, lo, hi, (k - 1) as nat);
        let col = (k - 1) % 8;
        match zones[k - 1] {
            Zone::Hit { point, range } => if lo <= col < hi {
                nearer(before, Some(range))
            } else {
                before
            },
            _ => before,
        }
    }
}

/// How many of the first `k` zones are floor in the two middle columns.
pub open spec fn floor_zones(zones: Seq<Zone>, k: nat) -> nat
    decreases k,
{
    if k == 0 {
        0
    } else {
        floor_zones(zones, (k - 1) as nat) + (if zones[k - 1] is Floor && 3 <= (k - 1) % 8 < 5 {
            1nat
        } else {
            0
        })
    }
}

/// What a frame says about the three sectors.
pub open spec fn summary(zones: Seq<Zone>, age: i64) -> Obstacles {
    let center = sector(zones, 3, 5, 64);
    Obstacles {
        left: sector(zones, 0, 3, 64),
        center,
        right: sector(zones, 5, 8, 64),
        too_close: exists|i: int| 0 <= i < 64 && (#[trigger] zones[i]) is TooClose,
        floor_ahead: floor_zones(zones, 64) >= 2 && (center matches Some(r) ==> r > 400_000_000),
        age_s: Some(age),
    }
}

/// Three sectors by column (column 0 is the sensor's left), nearest hit each, plus the two
/// flags. Rows are all pooled: a low obstacle and a high one both stop a duck.
pub fn summarise(zones: &[Zone; 64], age_s: i64) -> (o: Obstacles)
    ensures
        o == summary(zones@, age_s),
{
    let mut left: Option<i64> = None;
    let mut center: Option<i64> = None;
    let mut right: Option<i64> = None;
    let mut too_close: bool = false;
    let mut floor_center: u32 = 0;
    let mut i: usize = 0;
    while i < 64
        invariant
            i <= 64,
            left == sector(zones@, 0, 3, i as nat),
            center == sector(zones@, 3, 5, i as nat),
            right == sector(zones@, 5, 8, i as nat),
            too_close <==> exists|j: int| 0 <= j < i && (#[trigger] zones@[j]) is TooClose,
            floor_center == floor_zones(zones@, i as nat),
            floor_center <= i,
        decreases 64 - i,
    {
        let col: usize = i % 8;
        let zone = zones[i];
        assert(zones@[i as int] == zone);
        match zone {
            Zone::Hit { point, range } => {
                if col < 3 {
                    left = nearer_of(left, Some(range));
                } else if col < 5 {
                    center = nearer_of(center, Some(range));
                } else {
                    right = nearer_of(right, Some(range));
                }
            },
            Zone::TooClose => {
                too_close = true;
            },
            Zone::Floor { point } => {
                if 3 <= col && col < 5 {
                    floor_center += 1;
                }
            },
            Zone::Empty => {},
        }
        i += 1;
    }
    let clear: bool = match center {
        Some(r) => r > 400_000_000,
        None => true,
    };
    Obstacles {
        left,
        center,
        right,
        too_close,
        floor_ahead: floor_center >= 2 && clear,
        age_s: Some(age_s),
    }
}

/// One depth frame turned into the trunk's frame: what each beam found, its direction, its
/// bearing (left positive), and where the sensor is.
pub struct Scan {
    pub zones: [Zone; 64],
    pub dirs: [[i32; 3]; 64],
    pub bearings: [i64; 64],
    pub sensor: [i64; 3],
}

impl Scan {
    /// Rays can be drawn to everything the frame found.
    pub open spec fn in_reach(self) -> bool {
        &&& near(self.sensor)
        &&& forall|i: int| 0 <= i < 64 ==> (#[trigger] self.zones@[i]).in_reach()
    }

    /// Whether rays can be drawn to everything the frame found.
    pub fn reaches(&self) -> (r: bool)
        ensures
            r == self.in_reach(),
    {
        if !is_near(&self.sensor) {
            return false;
        }
        let mut i: usize = 0;
        while i < 64
            invariant
                i <= 64,
                near(self.sensor),
                forall|j: int| 0 <= j < i ==> (#[trigger] self.zones@[j]).in_reach(),
            decreases 64 - i,
        {
            let found: bool = match &self.zones[i] {
                Zone::Hit { point, range: _ } => is_near(point),
                Zone::Floor { point } => is_near(point),
                Zone::TooClose => true,
                Zone::Empty => true,
            };
            if !found {
                assert(!self.zones@[i as int].in_reach());
                return false;
            }
            i += 1;
        }
        true
    }

    /// Beam `i` says something about bin `b`: it lies in it and is level or slightly down. A
    /// floor beam looks at the floor, not the room; a beam tilted up looks over a wall top and
    /// reports "nothing", which is not an opening.
    pub open spec fn votes(self, i: int, b: int) -> bool {
        &&& bin_number(self.bearings@[i] as int) == b
        &&& -450_000_000 <= self.dirs@[i][2] <= 50_000_000
    }
}

/// What a frame says about one bin.
#[derive(Debug, Clone, Copy, PartialEq, Eq)]
pub struct BinView {
    pub covered: bool,
    pub nearest: Option<i64>,
    pub deepest: i64,
    pub on_axis: Option<i64>,
}

/// What the first `k` beams of a frame say about bin `b`.
pub open spec fn bin_view(scan: Scan, b: int, k: nat) -> BinView
    decreases k,
{
    if k == 0 {
        BinView { covered: false, nearest: None, deepest: 0, on_axis: None }
    } else {
        let before = bin_view(scan, b, (k - 1) as nat);
        if !scan.votes(k - 1, b) {
            before
        } else {
            match scan.zones@[k - 1] {
                Zone::Hit { point, range } => BinView {
                    covered: true,
                    nearest: nearer(before.nearest, Some(range)),
                    deepest: if range > before.deepest {
                        range
                    } else {
                        before.deepest
                    },
                    on_axis: if is_near_axis(scan.bearings@[k - 1] as int, b) {
                        nearer(before.on_axis, Some(range))
                    } else {
                        before.on_axis
                    },
                },
                Zone::Empty => BinView {
                    covered: true,
                    deepest: if TOF_REACH_M > before.deepest {
                        TOF_REACH_M
                    } else {
                        before.deepest
                    },
                    ..before
                },
                _ => BinView { covered: true, ..before },
            }
        }
    }
}

fn view_bin(scan: &Scan, b: usize) -> (v: BinView)
    requires
        b < 7,
    ensures
        v == bin_view(*scan, b as int, 64),
{
    let mut v = BinView { covered: false, nearest: None, deepest: 0, on_axis: None };
    let mut i: usize = 0;
    while i < 64
        invariant
            i <= 64,
            b < 7,
            v == bin_view(*scan, b as int, i as nat),
        decreases 64 - i,
    {
        let bearing: i64 = scan.bearings[i];
        let tilt: i32 = scan.dirs[i][2];
        let here: bool = match Radar::bin_of(bearing) {
            Some(n) => n == b,
            None => false,
        };
        if here && tilt >= -450_000_000 && tilt <= 50_000_000 {
            assert(scan.votes(i as int, b as int));
            v.covered = true;
            match scan.zones[i] {
                Zone::Hit { point, range } => {
                    v.nearest = nearer_of(v.nearest, Some(range));
                    if range > v.deepest {
                        v.deepest = range;
                    }
                    let off: i128 = 180 * bearing as i128 - (b as i128 - 3) * 30 * PI as i128;
                    if off >= -8 * PI as i128 && off <= 8 * PI as i128 {
                        v.on_axis = nearer_of(v.on_axis, Some(range));
                    }
                },
                Zone::Empty => {
                    if TOF_REACH_M > v.deepest {
                        v.deepest = TOF_REACH_M;
                    }
                },
                _ => {},
            }
        } else {
            assert(!scan.votes(i as int, b as int));
        }
        i += 1;
    }
    v
}

/// The sensor's status codes that mark a trustworthy range.
/// Where the head is by the joints of the robot, if it has told them all.
pub open spec fn head_of(joints: Seq<i64>, before: Seq<i64>) -> Seq<i64> {
    if joints.len() >= 9 {
        joints.subrange(5, 9)
    } else {
        before
    }
}

pub open spec fn is_valid_status(status: u8) -> bool {
    status == 4 || status == 5 || status == 6 || status == 9 || status == 10 || status == 12
        || status == 13
}

impl TofFrame {
    /// The range of beam `i`, where the frame has one that can be trusted.
    pub open spec fn range_at(self, i: int) -> Option<i64> {
        if i < self.distance_mm@.len() && i < self.status@.len() && self.distance_mm@[i] > 0
            && is_valid_status(self.status@[i]) {
            Some((self.distance_mm@[i] * 1_000_000) as i64)
        } else {
            None
        }
    }

    /// The ranges of a frame that can be trusted; a short frame has none for what it lacks.
    pub fn ranges(&self) -> (r: [Option<i64>; 64])
        ensures
            forall|i: int| 0 <= i < 64 ==> #[trigger] r@[i] == self.range_at(i),
    {
        let mut r: [Option<i64>; 64] = [None; 64];
        let mut i: usize = 0;
        while i < 64
            invariant
                i <= 64,
                forall|j: int| 0 <= j < i ==> #[trigger] r@[j] == self.range_at(j),
                forall|j: int| i <= j < 64 ==> (#[trigger] r@[j]) is None,
            decreases 64 - i,
        {
            if i < self.distance_mm.len() && i < self.status.len() {
                let d: i32 = self.distance_mm[i];
                let st: u8 = self.status[i];
                if d > 0 && (st == 4 || st == 5 || st == 6 || st == 9 || st == 10 || st == 12 || st
                    == 13) {
                    r[i] = Some(d as i64 * 1_000_000);
                }
            }
            i += 1;
        }
        r
    }
}

/// Everything a behaviour is allowed to know.
pub struct World {
    /// A mission flag: solve the maze the robot was put in.
    pub maze: bool,
    pub radar: Radar,
    /// The room as the depth sensor has shown it.
    pub room: RoomMap,
    /// Robot time.
    pub t: i64,
    pub mode: Mode,
    /// What drives the robot: `walk`, `stand`, `sit`, `held`, `homing`, `rise`, a skill.
    pub policy: String,
    pub fallen: bool,
    pub limp: bool,
    pub gravity: [i64; 3],
    /// Odometry: x, y, z in the frame the robot came up in; the heading, and its cosine and
    /// sine.
    pub odom: [i64; 3],
    pub yaw: i64,
    pub facing: (i32, i32),
    /// Measured head joints: neck_pitch, head_pitch, head_yaw, head_roll.
    pub head: [i64; 4],
    /// What some client asked for this tick; the yield rule compares it with what we sent.
    pub move_requested: [i64; 3],
    /// The head intent some client asked for, for the same rule: neck_pitch, head_pitch,
    /// head_yaw, head_roll.
    pub head_requested: [i64; 4],
    pub obstacles: Obstacles,
    pub grid: NoveltyGrid,
    /// Whether a state frame has ever arrived.
    pub have_state: bool,
    /// Events: the robot time of the last one of each kind.
    pub last_noise: Option<i64>,
    pub last_voice: Option<i64>,
    pub petting_since: Option<i64>,
    pub pet_ended: Option<i64>,
    /// Ducks by beacon id: when each was last seen; and every duck ever met.
    pub ducks: HashMap<u16, i64>,
    pub known_ducks: HashSet<u16>,
    /// A duck just seen and not yet greeted: its id, and whether it is a stranger.
    pub greet_pending: Option<(u16, bool)>,
    /// Recent beat times, newest last (a handful are kept).
    pub beats: Vec<i64>,
    /// Robot time the robot last had company (a duck or a voice); `None` = never.
    pub last_company: Option<i64>,
}

impl Default for World {
    /// A world nothing has been reported of, facing along the first axis.
    fn default() -> (w: Self)
        ensures
            !w.maze,
            w.radar.is_blank(),
            w.room@ == Room::empty(),
            w.t == 0,
            w.mode == Mode::Walk,
            w.policy@.len() == 0,
            !w.fallen && !w.limp && !w.have_state,
            w.gravity@ == seq![0i64, 0, 0],
            w.odom@ == seq![0i64, 0, 0],
            w.yaw == 0,
            w.facing == (1_000_000_000i32, 0i32),
            w.head@ == seq![0i64, 0, 0, 0],
            w.move_requested@ == seq![0i64, 0, 0],
            w.head_requested@ == seq![0i64, 0, 0, 0],
            w.obstacles == Obstacles::none(),
            w.grid@ == (Novelty { counts: Map::empty(), last: None, last_new_t: 0, faded_at: 0 }),
            w.senses() == Senses::none(),
    {
        let w = World {
            maze: false,
            radar: Radar::default(),
            room: RoomMap::new(),
            t: 0,
            mode: Mode::Walk,
            policy: String::new(),
            fallen: false,
            limp: false,
            gravity: [0, 0, 0],
            odom: [0, 0, 0],
            yaw: 0,
            facing: (1_000_000_000, 0),
            head: [0, 0, 0, 0],
            move_requested: [0, 0, 0],
            head_requested: [0, 0, 0, 0],
            obstacles: Obstacles::default(),
            grid: NoveltyGrid::default(),
            have_state: false,
            last_noise: None,
            last_voice: None,
            petting_since: None,
            pet_ended: None,
            ducks: HashMap::new(),
            known_ducks: HashSet::new(),
            greet_pending: None,
            beats: Vec::new(),
            last_company: None,
        };
        proof {
            assert(w.gravity@ =~= seq![0i64, 0, 0]);
            assert(w.odom@ =~= seq![0i64, 0, 0]);
            assert(w.head@ =~= seq![0i64, 0, 0, 0]);
            assert(w.move_requested@ =~= seq![0i64, 0, 0]);
            assert(w.head_requested@ =~= seq![0i64, 0, 0, 0]);
            assert(w.senses() =~= Senses::none());
        }
        w
    }
}

impl Radar {
    /// No bin has been looked at.
    pub open spec fn is_blank(self) -> bool {
        forall|b: int|
            0 <= b < 7 ==> {
                &&& (#[trigger] self.range@[b]) is None
                &&& self.far@[b] == 0
                &&& self.axis@[b] is None
                &&& self.at@[b] is None
            }
    }
}

/// What events have left in the world.
#[verifier::ext_equal]
pub ghost struct Senses {
    pub last_noise: Option<i64>,
    pub last_voice: Option<i64>,
    pub petting_since: Option<i64>,
    pub pet_ended: Option<i64>,
    pub ducks: Map<u16, i64>,
    pub known_ducks: Set<u16>,
    pub greet_pending: Option<(u16, bool)>,
    pub beats: Seq<i64>,
    pub last_company: Option<i64>,
}

impl Senses {
    /// The duck that waited to be greeted has been.
    pub open spec fn greeted(self) -> Senses {
        match self.greet_pending {
            Some(p) => Senses {
                known_ducks: self.known_ducks.insert(p.0),
                greet_pending: None,
                ..self
            },
            None => self,
        }
    }

    pub open spec fn none() -> Senses {
        Senses {
            last_noise: None,
            last_voice: None,
            petting_since: None,
            pet_ended: None,
            ducks: Map::empty(),
            known_ducks: Set::empty(),
            greet_pending: None,
            beats: Seq::empty(),
            last_company: None,
        }
    }

    /// After one event at time `t`.
    pub open spec fn after(self, t: i64, e: RobotEvent) -> Senses {
        match e.kind {
            EventKind::SoundNoise => Senses { last_noise: Some(t), ..self },
            EventKind::SoundVoice => Senses {
                last_voice: Some(t),
                last_company: Some(t),
                ..self
            },
            EventKind::PetStart => Senses { petting_since: Some(t), pet_ended: None, ..self },
            EventKind::PetEnd => Senses { petting_since: None, pet_ended: Some(t), ..self },
            EventKind::DuckSeen => match e.id {
                Some(id) => Senses {
                    ducks: self.ducks.insert(id, t),
                    greet_pending: Some((id, !self.known_ducks.contains(id))),
                    last_company: Some(t),
                    ..self
                },
                None => self,
            },
            EventKind::DuckLost => match e.id {
                Some(id) => Senses { ducks: self.ducks.remove(id), ..self },
                None => self,
            },
            EventKind::Beat => Senses {
                beats: if self.beats.len() >= 8 {
                    self.beats.push(t).skip(1)
                } else {
                    self.beats.push(t)
                },
                ..self
            },
        }
    }

    /// After the first `k` of `events`, all at time `t`.
    pub open spec fn after_all(self, t: i64, events: Seq<RobotEvent>, k: nat) -> Senses
        decreases k,
    {
        if k == 0 {
            self
        } else {
            self.after_all(t, events, (k - 1) as nat).after(t, events[k - 1])
        }
    }
}

impl World {
    pub open spec fn senses(self) -> Senses {
        Senses {
            last_noise: self.last_noise,
            last_voice: self.last_voice,
            petting_since: self.petting_since,
            pet_ended: self.pet_ended,
            ducks: self.ducks@,
            known_ducks: self.known_ducks@,
            greet_pending: self.greet_pending,
            beats: self.beats@,
            last_company: self.last_company,
        }
    }

    pub open spec fn is_standing(self) -> bool {
        (self.policy@ == "stand"@ || self.policy@ == "walk"@) && !self.fallen && !self.limp
    }

    pub open spec fn is_busy(self) -> bool {
        self.policy@ != "stand"@ && self.policy@ != "walk"@
    }

    pub open spec fn is_sitting(self) -> bool {
        self.policy@ == "sit"@
    }

    /// The robot is driven by the policy of that name.
    pub fn driven_by(&self, name: &str) -> (r: bool)
        ensures
            r == (self.policy@ == name@),
    {
        self.policy == name.to_owned()
    }

    /// Standing under a policy, ready to take an intent.
    pub fn standing(&self) -> (r: bool)
        ensures
            r == self.is_standing(),
    {
        (self.driven_by("stand") || self.driven_by("walk")) && !self.fallen && !self.limp
    }

    /// Between things: a skill, a rise, homing, sitting. Wait.
    pub fn busy(&self) -> (r: bool)
        ensures
            r == self.is_busy(),
    {
        !(self.driven_by("stand") || self.driven_by("walk"))
    }

    pub fn sitting(&self) -> (r: bool)
        ensures
            r == self.is_sitting(),
    {
        self.driven_by("sit")
    }

    /// The parts of two worlds that neither state frames nor events touch are the same.
    pub open spec fn same_view(self, other: World) -> bool {
        &&& self.maze == other.maze
        &&& self.radar == other.radar
        &&& self.room == other.room
        &&& self.mode == other.mode
        &&& self.obstacles == other.obstacles
    }

    /// The parts of two worlds that come with a state frame are the same.
    pub open spec fn same_state(self, other: World) -> bool {
        &&& self.t == other.t
        &&& self.policy == other.policy
        &&& self.fallen == other.fallen
        &&& self.limp == other.limp
        &&& self.gravity == other.gravity
        &&& self.odom == other.odom
        &&& self.yaw == other.yaw
        &&& self.facing == other.facing
        &&& self.head == other.head
        &&& self.move_requested == other.move_requested
        &&& self.head_requested == other.head_requested
        &&& self.grid == other.grid
        &&& self.have_state == other.have_state
    }

    /// Fold in a state frame. Its events are not folded in here: the daemon accumulates
    /// events across frames and hands them to [`World::observe_events`] itself, so none is
    /// lost or counted twice.
    pub fn observe_state(&mut self, s: &RobotState)
        requires
            s.is_standing() ==> old(self).grid@.faded(s.t as int).has_room(
                patch_of(s.odom.position@[0] as int, s.odom.position@[1] as int),
            ),
        ensures
            final(self).have_state,
            final(self).t == s.t,
            final(self).policy@ == s.policy@,
            final(self).fallen == s.safety.fallen,
            final(self).limp == s.safety.limp,
            final(self).gravity == s.safety.gravity,
            final(self).odom == s.odom.position,
            final(self).yaw == s.odom.yaw,
            final(self).facing == s.odom.facing,
            final(self).head@ == head_of(s.joints@, old(self).head@),
            final(self).grid@ == old(self).grid@.stood(
                s.is_standing(),
                s.odom.position@[0] as int,
                s.odom.position@[1] as int,
                s.t as int,
            ),
            // Measured head joints: the depth sensor hangs off where the head actually is.
            final(self).head@ == (if s.joints@.len() >= 9 {
                s.joints@.subrange(5, 9)
            } else {
                old(self).head@
            }),
            final(self).move_requested == s.movement.requested,
            final(self).head_requested == s.head,
            final(self).grid@ == (if s.is_standing() {
                old(self).grid@.faded(s.t as int).visited(
                    patch_of(s.odom.position@[0] as int, s.odom.position@[1] as int),
                    s.t as int,
                )
            } else {
                old(self).grid@.faded(s.t as int)
            }),
            final(self).same_view(*old(self)),
            final(self).senses() == old(self).senses(),
    {
        self.have_state = true;
        self.t = s.t;
        self.policy = s.policy.clone();
        self.fallen = s.safety.fallen;
        self.limp = s.safety.limp;
        self.gravity = s.safety.gravity;
        self.odom = s.odom.position;
        self.yaw = s.odom.yaw;
        self.facing = s.odom.facing;
        if s.joints.len() >= 9 {
            self.head = [s.joints[5], s.joints[6], s.joints[7], s.joints[8]];
            proof {
                assert(self.head@ =~= s.joints@.subrange(5, 9));
            }
        }
        self.move_requested = s.movement.requested;
        self.head_requested = s.head;
        self.grid.fade(self.t);
        if self.standing() {
            self.grid.visit(self.odom[0], self.odom[1], self.t);
        }
    }

    fn observe_event(&mut self, e: RobotEvent)
        ensures
            final(self).senses() == old(self).senses().after(old(self).t, e),
            final(self).same_state(*old(self)),
            final(self).same_view(*old(self)),
    {
        broadcast use vstd::std_specs::hash::group_hash_axioms;

        match e.kind {
            EventKind::SoundNoise => {
                self.last_noise = Some(self.t);
            },
            EventKind::SoundVoice => {
                self.last_voice = Some(self.t);
                self.last_company = Some(self.t);
            },
            EventKind::PetStart => {
                self.petting_since = Some(self.t);
                self.pet_ended = None;
            },
            EventKind::PetEnd => {
                self.petting_since = None;
                self.pet_ended = Some(self.t);
            },
            EventKind::DuckSeen => {
                if let Some(id) = e.id {
                    let stranger: bool = !self.known_ducks.contains(&id);
                    self.ducks.insert(id, self.t);
                    self.greet_pending = Some((id, stranger));
                    self.last_company = Some(self.t);
                }
            },
            EventKind::DuckLost => {
                if let Some(id) = e.id {
                    self.ducks.remove(&id);
                }
            },
            EventKind::Beat => {
                self.beats.push(self.t);
                if self.beats.len() > 8 {
                    let ghost pushed = self.beats@;
                    self.beats.remove(0);
                    proof {
                        assert(self.beats@ =~= pushed.skip(1));
                    }
                }
            },
        }
        proof {
            assert(self.senses() =~= old(self).senses().after(old(self).t, e));
        }
    }

    /// Fold in events, from a state frame or injected on a bench.
    pub fn observe_events(&mut self, events: &[RobotEvent])
        ensures
            final(self).senses() == old(self).senses().after_all(
                old(self).t,
                events@,
                events@.len(),
            ),
            final(self).same_state(*old(self)),
            final(self).same_view(*old(self)),
    {
        let n: usize = events.len();
        let mut i: usize = 0;
        while i < n
            invariant
                n == events@.len(),
                i <= n,
                self.senses() == old(self).senses().after_all(old(self).t, events@, i as nat),
                self.same_state(*old(self)),
                self.same_view(*old(self)),
            decreases n - i,
        {
            self.observe_event(events[i]);
            i += 1;
        }
    }

    /// The duck that was waiting for a greeting has had it: it is known from now on.
    pub fn note_greeted(&mut self)
        ensures
            final(self).senses() == old(self).senses().greeted(),
            final(self).senses() == (match old(self).greet_pending {
                Some((id, stranger)) => Senses {
                    known_ducks: old(self).known_ducks@.insert(id),
                    greet_pending: None,
                    ..old(self).senses()
                },
                None => old(self).senses(),
            }),
            final(self).same_state(*old(self)),
            final(self).same_view(*old(self)),
    {
        broadcast use vstd::std_specs::hash::group_hash_axioms;

        if let Some((id, stranger)) = self.greet_pending {
            self.known_ducks.insert(id);
            self.greet_pending = None;
        }
    }

    pub fn petting(&self) -> (r: bool)
        ensures
            r == self.petting_since is Some,
    {
        self.petting_since.is_some()
    }

    /// Time since the last loud noise; `None` = never.
    pub fn noise_age(&self) -> (a: Option<i128>)
        ensures
            a == self.age_of(self.last_noise),
    {
        match self.last_noise {
            Some(t) => Some(self.t as i128 - t as i128),
            None => None,
        }
    }

    pub fn voice_age(&self) -> (a: Option<i128>)
        ensures
            a == self.age_of(self.last_voice),
    {
        match self.last_voice {
            Some(t) => Some(self.t as i128 - t as i128),
            None => None,
        }
    }

    pub open spec fn age_of(self, at: Option<i64>) -> Option<i128> {
        match at {
            Some(t) => Some((self.t - t) as i128),
            None => None,
        }
    }

    /// The ducks heard from in the last ten seconds.
    pub open spec fn ducks_around(self) -> Set<u16> {
        self.ducks@.dom().filter(|id: u16| self.t - self.ducks@[id] < 10_000_000_000)
    }

    /// How many ducks were heard from in the last ten seconds.
    pub fn company(&self) -> (n: usize)
        ensures
            n == self.ducks_around().len(),
    {
        broadcast use vstd::std_specs::hash::group_hash_axioms;

        let total: usize = self.ducks.len();
        let mut n: usize = 0;
        let ghost mut counted: Set<u16> = Set::empty();
        let iter = self.ducks.iter();
        let ghost all = vstd::std_specs::iter::IteratorSpec::remaining(&iter);
        for p in it: iter
            invariant
                it.seq() == all,
                all.no_duplicates(),
                forall|i: int|
                    #![trigger all[i]]
                    0 <= i < all.len() ==> self.ducks@.contains_key(*all[i].0)
                        && self.ducks@[*all[i].0] == *all[i].1,
                total == self.ducks@.dom().len(),
                self.ducks@.dom().finite(),
                counted.finite(),
                counted.len() == n,
                forall|id: u16| #[trigger]
                    counted.contains(id) ==> self.ducks_around().contains(id) && exists|i: int|
                        0 <= i < it.index() && *(#[trigger] all[i]).0 == id,
                forall|i: int|
                    #![trigger all[i]]
                    0 <= i < it.index() && self.ducks_around().contains(*all[i].0)
                        ==> counted.contains(*all[i].0),
        {
            let ghost id = *p.0;
            assert(p == all[it.index()]);
            if (self.t as i128 - *p.1 as i128) < 10_000_000_000 {
                proof {
                    assert(!counted.contains(id)) by {
                        if counted.contains(id) {
                            let j = choose|j: int|
                                0 <= j < it.index() && *(#[trigger] all[j]).0 == id;
                            assert(all[j] == all[it.index()]);
                        }
                    }
                    counted = counted.insert(id);
                    assert(counted.subset_of(self.ducks@.dom()));
                    vstd::set_lib::lemma_len_subset(counted, self.ducks@.dom());
                }
                n += 1;
            }
        }
        proof {
            assert(counted =~= self.ducks_around()) by {
                assert forall|id: u16| self.ducks_around().contains(id) implies counted.contains(
                    id,
                ) by {
                    assert(all.contains((&id, &self.ducks@[id])));
                    let i = choose|i: int| 0 <= i < all.len() && all[i] == (&id, &self.ducks@[id]);
                    assert(*all[i].0 == id);
                }
            }
        }
        n
    }

    /// How long since anyone was around; from boot if never.
    pub fn alone_for(&self) -> (a: i128)
        ensures
            a == self.alone(),
    {
        match self.last_company {
            Some(t) => self.t as i128 - t as i128,
            None => self.t as i128,
        }
    }

    pub open spec fn alone(self) -> int {
        self.t - (match self.last_company {
            Some(t) => t as int,
            None => 0,
        })
    }

    /// The beats of the last four seconds among the first `k`.
    pub open spec fn recent_beats(self, k: nat) -> Seq<i64>
        decreases k,
    {
        if k == 0 {
            Seq::empty()
        } else {
            let before = self.recent_beats((k - 1) as nat);
            if self.t - self.beats@[k - 1] < 4_000_000_000 {
                before.push(self.beats@[k - 1])
            } else {
                before
            }
        }
    }

    /// The mean gap between recent beats, where there are three of them.
    pub open spec fn beat_gap(self) -> Option<int> {
        let recent = self.recent_beats(self.beats@.len());
        if recent.len() < 3 {
            None
        } else {
            Some((recent.last() - recent.first()) / (recent.len() - 1))
        }
    }

    /// The beat period, if beats have been arriving steadily (three in the last four seconds).
    pub fn beat_period(&self) -> (p: Option<i128>)
        ensures
            match p {
                Some(p) => self.beat_gap() == Some(p as int),
                None => self.beat_gap() is None,
            },
    {
        let mut first: i64 = 0;
        let mut last: i64 = 0;
        let mut count: usize = 0;
        let n: usize = self.beats.len();
        let mut i: usize = 0;
        while i < n
            invariant
                n == self.beats.len(),
                i <= n,
                count <= i,
                count == self.recent_beats(i as nat).len(),
                count > 0 ==> first == self.recent_beats(i as nat).first(),
                count > 0 ==> last == self.recent_beats(i as nat).last(),
            decreases n - i,
        {
            let b: i64 = self.beats[i];
            if (self.t as i128 - b as i128) < 4_000_000_000 {
                if count == 0 {
                    first = b;
                }
                last = b;
                count += 1;
            }
            i += 1;
        }
        if count < 3 {
            None
        } else {
            Some(floor_div(last as i128 - first as i128, count as i128 - 1))
        }
    }

    /// How high the trunk is, as far as odometry can be trusted with it.
    pub fn trunk_height(&self) -> (h: Option<i64>)
        ensures
            h == self.height(),
            h == (if self.odom@[2] > 20_000_000 {
                Some(self.odom@[2])
            } else {
                None
            }),
    {
        if self.odom[2] > 20_000_000 {
            Some(self.odom[2])
        } else {
            None
        }
    }

    /// How high the trunk is, where the odometry says so.
    pub open spec fn height(self) -> Option<i64> {
        if self.odom@[2] > 20_000_000 {
            Some(self.odom@[2])
        } else {
            None
        }
    }

    pub open spec fn pose_of(self) -> Pose {
        Pose { x: self.odom@[0], y: self.odom@[1], facing: self.facing }
    }

    /// Fold in a depth frame, turned into the trunk's frame through the head pose the state
    /// stream reports: the sectors, the radar bins it covers, and, from a fresh frame while
    /// standing, the room map.
    pub fn observe_tof(&mut self, scan: &Scan, age_s: i64)
        requires
            scan.in_reach(),
            old(self).room.integrated < u64::MAX,
        ensures
            final(self).obstacles == summary(scan.zones@, age_s),
            forall|b: int|
                0 <= b < 7 ==> #[trigger] final(self).radar.swept(
                    old(self).radar,
                    *scan,
                    old(self).t,
                    b,
                ),
            final(self).room@ == (if old(self).is_standing() && age_s <= TOF_STALE_S {
                old(self).room@.integrated(
                    old(self).pose_of(),
                    scan.sensor,
                    scan.dirs@,
                    scan.zones@,
                )
            } else {
                old(self).room@
            }),
            // A frame that is old, or taken off the feet, says nothing about the room.
            age_s > 500_000_000 || old(self).fallen || old(self).limp || (old(self).policy@
                != "stand"@ && old(self).policy@ != "walk"@) ==> final(self).room@
                == old(self).room@,
            age_s <= 500_000_000 && old(self).is_standing() ==> final(self).room@.frames
                == old(self).room@.frames + 1,
            final(self).maze == old(self).maze,
            final(self).mode == old(self).mode,
            final(self).same_state(*old(self)),
            final(self).senses() == old(self).senses(),
    {
        self.obstacles = summarise(&scan.zones, age_s);
        let mut b: usize = 0;
        while b < 7
            invariant
                b <= 7,
                forall|c: int|
                    0 <= c < b ==> #[trigger] self.radar.swept(
                        old(self).radar,
                        *scan,
                        old(self).t,
                        c,
                    ),
                forall|c: int| b <= c < 7 ==> #[trigger] self.radar.keeps(old(self).radar, c),
                self.obstacles == summary(scan.zones@, age_s),
                self.room == old(self).room,
                self.maze == old(self).maze,
                self.mode == old(self).mode,
                self.same_state(*old(self)),
                self.senses() == old(self).senses(),
            decreases 7 - b,
        {
            let v = view_bin(scan, b);
            assert(self.radar.keeps(old(self).radar, b as int));
            let ghost before = self.radar;
            if v.covered {
                self.radar.range[b] = v.nearest;
                self.radar.far[b] = v.deepest;
                self.radar.axis[b] = v.on_axis;
                self.radar.at[b] = Some(self.t);
            }
            proof {
                assert forall|c: int| b + 1 <= c < 7 implies #[trigger] self.radar.keeps(
                    old(self).radar,
                    c,
                ) by {
                    assert(before.keeps(old(self).radar, c));
                }
                assert forall|c: int| 0 <= c < b + 1 implies #[trigger] self.radar.swept(
                    old(self).radar,
                    *scan,
                    old(self).t,
                    c,
                ) by {
                    if c < b {
                        assert(before.swept(
                            old(self).radar,
                            *scan,
                            old(self).t,
                            c,
                        ));
                    }
                }
            }
            b += 1;
        }
        if self.standing() && age_s <= TOF_STALE_S {
            let pose = Pose { x: self.odom[0], y: self.odom[1], facing: self.facing };
            self.room.integrate(pose, scan.sensor, &scan.dirs, &scan.zones);
        }
    }

    /// There is no depth frame to go by.
    pub fn lose_tof(&mut self)
        ensures
            final(self).obstacles == (Obstacles { age_s: None, ..old(self).obstacles }),
            final(self).radar == old(self).radar,
            final(self).room == old(self).room,
            final(self).maze == old(self).maze,
            final(self).mode == old(self).mode,
            final(self).same_state(*old(self)),
            final(self).senses() == old(self).senses(),
    {
        self.obstacles.age_s = None;
    }
}

impl Radar {
    /// Bin `b` after a frame at time `t`: replaced where the frame covers it, kept where it
    /// does not.
    pub open spec fn swept(self, before: Radar, scan: Scan, t: i64, b: int) -> bool {
        let v = bin_view(scan, b, 64);
        if v.covered {
            &&& self.range@[b] == v.nearest
            &&& self.far@[b] == v.deepest
            &&& self.axis@[b] == v.on_axis
            &&& self.at@[b] == Some(t)
        } else {
            self.keeps(before, b)
        }
    }

    /// Bin `b` is as it was.
    pub open spec fn keeps(self, before: Radar, b: int) -> bool {
        &&& self.range@[b] == before.range@[b]
        &&& self.far@[b] == before.far@[b]
        &&& self.axis@[b] == before.axis@[b]
        &&& self.at@[b] == before.at@[b]
    }
}

} // verus!

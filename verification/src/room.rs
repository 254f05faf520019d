//! A room in the duck's memory: an occupancy grid built from the depth sensor as it goes,
//! and frontier exploration over it: walk to the nearest edge between known floor and the
//! unknown, and the map grows until there is no edge left.
//!
//! Cells are [`RES`] wide, stored sparsely so the map can grow in any direction from wherever
//! the duck booted. Each holds a log-odds occupancy: hits push it up, rays passing through
//! push it down. Odometry is the pose; on feet it drifts a few percent, which a room-sized
//! map tolerates.

use vstd::prelude::*;

use crate::sparse::{cells_of, place, Sparse};
use crate::tof::{lemma_turned_in_reach, near, turn_by, turned_by, Pose, Zone};
use crate::units::{coordinate, floor_div, held, round_div, rounded, to_coordinate};

verus! {

/// The width of a cell, nanometres.
pub const RES: i64 = 100_000_000;

/// A beam that saw nothing is trusted to be free for this many metres.
pub const CLEAR_REACH_M: i64 = 2;

/// What a hit adds to a cell's log-odds, and what a ray through it adds.
pub const HIT: i32 = 6;

pub const MISS: i32 = -2;

/// How far from zero a cell's log-odds can get.
pub const CLAMP: i32 = 30;

/// Occupied from here up.
pub const OCCUPIED: i16 = 8;

/// Free from here down; unknown between.
pub const FREE: i16 = -4;

/// Cells this close to an obstacle are not walked through (the duck is about 0.15 m wide).
pub const INFLATE_M: i64 = 200_000_000;

/// What is believed of a cell.
#[derive(Debug, Clone, Copy, PartialEq, Eq, Structural)]
pub enum Cell {
    Unknown,
    Free,
    Occupied,
}

/// A room as it is remembered.
#[verifier::ext_equal]
pub ghost struct Room {
    /// Log-odds per cell.
    pub odds: Map<(int, int), i16>,
    /// Where the duck has stood.
    pub track: Seq<(int, int)>,
    /// How many frames were folded in.
    pub frames: int,
}

/// The log-odds of a cell; a cell never touched is even.
pub open spec fn level(odds: Map<(int, int), i16>, c: (int, int)) -> int {
    if odds.contains_key(c) {
        odds[c] as int
    } else {
        0
    }
}

pub open spec fn bumped(odds: Map<(int, int), i16>, c: (int, int), by: int) -> Map<
    (int, int),
    i16,
> {
    odds.insert(c, held(level(odds, c) + by, -CLAMP as int, CLAMP as int) as i16)
}

/// The cell a point lies in.
pub open spec fn cell_of(x: int, y: int) -> (int, int) {
    (coordinate(x / (RES as int)), coordinate(y / (RES as int)))
}

impl Room {
    pub open spec fn cell(self, c: (int, int)) -> Cell {
        if self.odds.contains_key(c) && self.odds[c] >= OCCUPIED {
            Cell::Occupied
        } else if self.odds.contains_key(c) && self.odds[c] <= FREE {
            Cell::Free
        } else {
            Cell::Unknown
        }
    }
}

/// `n` steps of half a cell reach over a ray of squared length `d2`.
pub open spec fn spans(n: int, d2: int) -> bool {
    n * n * 2_500_000_000_000_000 >= d2
}

/// `n` is the least number of steps, at least one, that spans the ray.
pub open spec fn is_step_count(n: int, dx: int, dy: int) -> bool {
    let d2 = dx * dx + dy * dy;
    &&& n >= 1
    &&& spans(n, d2)
    &&& n == 1 || !spans(n - 1, d2)
}

/// How many half-cell steps a ray is sampled in.
pub open spec fn step_count(dx: int, dy: int) -> int {
    choose|n: int| is_step_count(n, dx, dy)
}

/// The cell of sample `i` of `n` on the way from `a` to `b`.
pub open spec fn sample(a: (int, int), b: (int, int), n: int, i: int) -> (int, int) {
    (
        coordinate((a.0 * n + i * (b.0 - a.0)) / (n * RES)),
        coordinate((a.1 * n + i * (b.1 - a.1)) / (n * RES)),
    )
}

/// The cells of the first `i` samples, each written once where it repeats in a row.
pub open spec fn trace(a: (int, int), b: (int, int), n: int, i: nat) -> Seq<(int, int)>
    decreases i,
{
    if i == 0 {
        Seq::empty()
    } else {
        let before = trace(a, b, n, (i - 1) as nat);
        let c = sample(a, b, n, i - 1);
        if before.len() > 0 && before.last() == c {
            before
        } else {
            before.push(c)
        }
    }
}

/// The first sample from `i` on that lies in the cell of `b`, or `n` if none does.
pub open spec fn arrival(a: (int, int), b: (int, int), n: int, i: nat) -> nat
    decreases n - i,
{
    if i >= n || sample(a, b, n, i as int) == cell_of(b.0, b.1) {
        i
    } else {
        arrival(a, b, n, i + 1)
    }
}

/// The cells along the segment from `a` to `b`, up to the cell of `b`, which is left out.
pub open spec fn ray(a: (int, int), b: (int, int)) -> Seq<(int, int)> {
    let n = step_count(b.0 - a.0, b.1 - a.1);
    trace(a, b, n, arrival(a, b, n, 0))
}

/// `cells` bumped one after the other.
pub open spec fn all_bumped(
    odds: Map<(int, int), i16>,
    cells: Seq<(int, int)>,
    by: int,
    k: nat,
) -> Map<(int, int), i16>
    decreases k,
{
    if k == 0 {
        odds
    } else {
        bumped(all_bumped(odds, cells, by, (k - 1) as nat), cells[k - 1], by)
    }
}

pub open spec fn ray_bumped(
    odds: Map<(int, int), i16>,
    a: (int, int),
    b: (int, int),
    by: int,
) -> Map<(int, int), i16> {
    all_bumped(odds, ray(a, b), by, ray(a, b).len())
}

/// A trunk-frame point in the room.
pub open spec fn placed(pose: Pose, x: int, y: int) -> (int, int) {
    (pose.x + turned_by(pose.facing, x, y).0, pose.y + turned_by(pose.facing, x, y).1)
}

/// What one beam says: a hit raises its cell and lowers what the ray passed through, floor
/// lowers both, nothing at all lowers what a near-level beam passed within its clear reach,
/// and something too close raises the cell in front of the sensor by half a hit.
pub open spec fn beam_folded(
    odds: Map<(int, int), i16>,
    pose: Pose,
    sensor: [i64; 3],
    dir: [i32; 3],
    zone: Zone,
) -> Map<(int, int), i16> {
    let origin = placed(pose, sensor[0] as int, sensor[1] as int);
    match zone {
        Zone::Hit { point, range } => {
            let p = placed(pose, point[0] as int, point[1] as int);
            bumped(ray_bumped(odds, origin, p, MISS as int), cell_of(p.0, p.1), HIT as int)
        },
        Zone::Floor { point } => {
            let p = placed(pose, point[0] as int, point[1] as int);
            bumped(ray_bumped(odds, origin, p, MISS as int), cell_of(p.0, p.1), MISS as int)
        },
        Zone::Empty => {
            if dir[2] > 350_000_000 || dir[2] < -350_000_000 {
                odds
            } else {
                let p = placed(pose, sensor[0] + CLEAR_REACH_M * dir[0], sensor[1] + CLEAR_REACH_M * dir[1]);
                ray_bumped(odds, origin, p, -1)
            }
        },
        Zone::TooClose => {
            let p = placed(
                pose,
                sensor[0] + rounded(dir[0] * 8, 100),
                sensor[1] + rounded(dir[1] * 8, 100),
            );
            bumped(odds, cell_of(p.0, p.1), 3)
        },
    }
}

/// The first `k` beams folded in, in order.
pub open spec fn frame_folded(
    odds: Map<(int, int), i16>,
    pose: Pose,
    sensor: [i64; 3],
    dirs: Seq<[i32; 3]>,
    zones: Seq<Zone>,
    k: nat,
) -> Map<(int, int), i16>
    decreases k,
{
    if k == 0 {
        odds
    } else {
        beam_folded(
            frame_folded(odds, pose, sensor, dirs, zones, (k - 1) as nat),
            pose,
            sensor,
            dirs[k - 1],
            zones[k - 1],
        )
    }
}

/// More than 50 mm lie between two points.
pub open spec fn apart(a: (int, int), b: (int, int)) -> bool {
    (a.0 - b.0) * (a.0 - b.0) + (a.1 - b.1) * (a.1 - b.1) > 2_500_000_000_000_000
}

impl Room {
    pub open spec fn empty() -> Room {
        Room { odds: Map::empty(), track: Seq::empty(), frames: 0 }
    }

    /// After one frame: its beams, then the duck's own footprint, which is free, since it is
    /// standing there; and its place on the track, if it has moved on.
    pub open spec fn integrated(
        self,
        pose: Pose,
        sensor: [i64; 3],
        dirs: Seq<[i32; 3]>,
        zones: Seq<Zone>,
    ) -> Room {
        let here = (pose.x as int, pose.y as int);
        Room {
            odds: bumped(
                frame_folded(self.odds, pose, sensor, dirs, zones, 64),
                cell_of(here.0, here.1),
                MISS as int,
            ),
            track: if self.track.len() == 0 || apart(self.track.last(), here) {
                self.track.push(here)
            } else {
                self.track
            },
            frames: self.frames + 1,
        }
    }
}

/// A room map that grows with every depth frame.
pub struct RoomMap {
    pub cells: Sparse<i16>,
    /// Where the duck has stood, for drawing.
    pub track: Vec<(i64, i64)>,
    pub integrated: u64,
}

pub open spec fn points(s: Seq<(i64, i64)>) -> Seq<(int, int)> {
    s.map_values(|p: (i64, i64)| (p.0 as int, p.1 as int))
}

impl View for RoomMap {
    type V = Room;

    open spec fn view(&self) -> Room {
        Room {
            odds: self.cells@,
            track: points(self.track@),
            frames: self.integrated as int,
        }
    }
}

impl Clone for RoomMap {
    fn clone(&self) -> (m: Self)
        ensures
            m@ == self@,
    {
        let mut track: Vec<(i64, i64)> = Vec::new();
        let n: usize = self.track.len();
        let mut i: usize = 0;
        while i < n
            invariant
                n == self.track.len(),
                i <= n,
                track@ == self.track@.take(i as int),
            decreases n - i,
        {
            track.push(self.track[i]);
            i += 1;
            proof {
                assert(track@ =~= self.track@.take(i as int));
            }
        }
        proof {
            assert(track@ =~= self.track@);
        }
        RoomMap { cells: self.cells.clone(), track, integrated: self.integrated }
    }
}

/// The grid cell of a point of the room.
pub fn key(x: i128, y: i128) -> (c: (i32, i32))
    ensures
        place(c) == cell_of(x as int, y as int),
{
    (to_coordinate(floor_div(x, RES as i128)), to_coordinate(floor_div(y, RES as i128)))
}

proof fn lemma_spans_more(m: int, n: int, d2: int)
    requires
        0 <= m <= n,
        spans(m, d2),
    ensures
        spans(n, d2),
{
    assert(m * m <= n * n) by (nonlinear_arith)
        requires
            0 <= m <= n,
    ;
}

proof fn lemma_one_step_count(n: int, dx: int, dy: int)
    requires
        is_step_count(n, dx, dy),
    ensures
        step_count(dx, dy) == n,
{
    let d2 = dx * dx + dy * dy;
    let m = step_count(dx, dy);
    assert(is_step_count(m, dx, dy));
    if m < n {
        lemma_spans_more(m, n - 1, d2);
    }
    if n < m {
        lemma_spans_more(n, m - 1, d2);
    }
}

/// The number of half-cell steps over a ray.
fn count_steps(dx: i128, dy: i128) -> (n: i128)
    requires
        -4_000_000_000_000_000_000 <= dx <= 4_000_000_000_000_000_000,
        -4_000_000_000_000_000_000 <= dy <= 4_000_000_000_000_000_000,
    ensures
        n == step_count(dx as int, dy as int),
        1 <= n <= 200_000_000_000,
{
    proof {
        assert(0 <= dx * dx <= 16_000_000_000_000_000_000_000_000_000_000_000_000) by (nonlinear_arith)
            requires
                -4_000_000_000_000_000_000 <= dx <= 4_000_000_000_000_000_000,
        ;
        assert(0 <= dy * dy <= 16_000_000_000_000_000_000_000_000_000_000_000_000) by (nonlinear_arith)
            requires
                -4_000_000_000_000_000_000 <= dy <= 4_000_000_000_000_000_000,
        ;
    }
    let d2: i128 = dx * dx + dy * dy;
    let mut lo: i128 = 0;
    let mut hi: i128 = 200_000_000_000;
    while hi - lo > 1
        invariant
            0 <= lo < hi <= 200_000_000_000,
            lo == 0 || !spans(lo as int, d2 as int),
            spans(hi as int, d2 as int),
        decreases hi - lo,
    {
        let mid: i128 = (lo + hi) / 2;
        assert(0 <= mid * mid <= 40_000_000_000_000_000_000_000) by (nonlinear_arith)
            requires
                0 <= mid <= 200_000_000_000,
        ;
        if mid * mid * 2_500_000_000_000_000 >= d2 {
            hi = mid;
        } else {
            lo = mid;
        }
    }
    proof {
        lemma_one_step_count(hi as int, dx as int, dy as int);
    }
    hi
}

pub open spec fn on_map(v: int) -> bool {
    -0x1_0000_0000_0000_0000 <= v <= 0x1_0000_0000_0000_0000
}

/// One coordinate of the cell of sample `i` of `n`.
fn sample_coordinate(a: i128, b: i128, n: i128, i: i128) -> (c: i32)
    requires
        on_map(a as int),
        -4_000_000_000_000_000_000 <= b - a <= 4_000_000_000_000_000_000,
        1 <= n <= 200_000_000_000,
        0 <= i <= n,
    ensures
        c == coordinate((a * n + i * (b - a)) / (n * RES)),
{
    proof {
        assert(-0x1_0000_0000_0000_0000 * 200_000_000_000 <= a * n <= 0x1_0000_0000_0000_0000
            * 200_000_000_000) by (nonlinear_arith)
            requires
                -0x1_0000_0000_0000_0000 <= a <= 0x1_0000_0000_0000_0000,
                1 <= n <= 200_000_000_000,
        ;
        let d = b - a;
        assert(-4_000_000_000_000_000_000 * 200_000_000_000 <= i * d <= 4_000_000_000_000_000_000
            * 200_000_000_000) by (nonlinear_arith)
            requires
                -4_000_000_000_000_000_000 <= d <= 4_000_000_000_000_000_000,
                0 <= i <= 200_000_000_000,
        ;
    }
    to_coordinate(floor_div(a * n + i * (b - a), n * RES as i128))
}

/// The cells a ray passes through before it reaches the cell of its end.
fn trace_ray(a: (i128, i128), b: (i128, i128)) -> (out: Vec<(i32, i32)>)
    requires
        on_map(a.0 as int),
        on_map(a.1 as int),
        on_map(b.0 as int),
        on_map(b.1 as int),
        -4_000_000_000_000_000_000 <= b.0 - a.0 <= 4_000_000_000_000_000_000,
        -4_000_000_000_000_000_000 <= b.1 - a.1 <= 4_000_000_000_000_000_000,
    ensures
        cells_of(out@) == ray((a.0 as int, a.1 as int), (b.0 as int, b.1 as int)),
{
    let n: i128 = count_steps(b.0 - a.0, b.1 - a.1);
    let end = key(b.0, b.1);
    let mut out: Vec<(i32, i32)> = Vec::new();
    let mut i: i128 = 0;
    let ghost (from, to) = ((a.0 as int, a.1 as int), (b.0 as int, b.1 as int));
    proof {
        assert(cells_of(out@) =~= trace(from, to, n as int, 0));
    }
    while i < n
        invariant_except_break
            arrival(from, to, n as int, 0) == arrival(from, to, n as int, i as nat),
        invariant
            from == (a.0 as int, a.1 as int),
            to == (b.0 as int, b.1 as int),
            on_map(a.0 as int),
            on_map(a.1 as int),
            -4_000_000_000_000_000_000 <= b.0 - a.0 <= 4_000_000_000_000_000_000,
            -4_000_000_000_000_000_000 <= b.1 - a.1 <= 4_000_000_000_000_000_000,
            1 <= n <= 200_000_000_000,
            0 <= i <= n,
            place(end) == cell_of(b.0 as int, b.1 as int),
            cells_of(out@) == trace(from, to, n as int, i as nat),
        ensures
            arrival(from, to, n as int, 0) == i,
        decreases n - i,
    {
        let c = (sample_coordinate(a.0, b.0, n, i), sample_coordinate(a.1, b.1, n, i));
        assert(place(c) == sample(from, to, n as int, i as int));
        if c.0 == end.0 && c.1 == end.1 {
            break;
        }
        assert(place(c) != place(end));
        let len: usize = out.len();
        let ghost before = out@;
        let again: bool = if len > 0 {
            let last = out[len - 1];
            assert(cells_of(before).last() == place(last));
            last.0 == c.0 && last.1 == c.1
        } else {
            false
        };
        if !again {
            out.push(c);
            proof {
                assert(cells_of(out@) =~= cells_of(before).push(place(c)));
            }
        }
        i += 1;
    }
    out
}

impl Default for RoomMap {
    fn default() -> (m: Self)
        ensures
            m@ == Room::empty(),
    {
        RoomMap::new()
    }
}

impl RoomMap {
    pub fn new() -> (m: Self)
        ensures
            m@ == Room::empty(),
    {
        let m = RoomMap { cells: Sparse::new(), track: Vec::new(), integrated: 0 };
        proof {
            assert(m@ =~= Room::empty());
        }
        m
    }

    /// What is believed of a cell.
    pub fn cell(&self, c: (i32, i32)) -> (r: Cell)
        ensures
            r == self@.cell(place(c)),
    {
        match self.cells.get(c) {
            Some(v) => if v >= OCCUPIED {
                Cell::Occupied
            } else if v <= FREE {
                Cell::Free
            } else {
                Cell::Unknown
            },
            None => Cell::Unknown,
        }
    }

    /// What is believed of the cell a point lies in.
    pub fn cell_at(&self, x: i64, y: i64) -> (r: Cell)
        ensures
            r == self@.cell(cell_of(x as int, y as int)),
    {
        self.cell(key(x as i128, y as i128))
    }

    fn bump(&mut self, c: (i32, i32), by: i32)
        requires
            -100 <= by <= 100,
        ensures
            final(self)@.odds == bumped(old(self)@.odds, place(c), by as int),
            final(self).track == old(self).track,
            final(self).integrated == old(self).integrated,
    {
        let v: i32 = match self.cells.get(c) {
            Some(v) => v as i32,
            None => 0,
        };
        let sum: i32 = v + by;
        let kept: i32 = if sum < -CLAMP {
            -CLAMP
        } else if sum > CLAMP {
            CLAMP
        } else {
            sum
        };
        self.cells.put(c, kept as i16);
    }

    fn bump_ray(&mut self, a: (i128, i128), b: (i128, i128), by: i32)
        requires
            -100 <= by <= 100,
            on_map(a.0 as int),
            on_map(a.1 as int),
            on_map(b.0 as int),
            on_map(b.1 as int),
            -4_000_000_000_000_000_000 <= b.0 - a.0 <= 4_000_000_000_000_000_000,
            -4_000_000_000_000_000_000 <= b.1 - a.1 <= 4_000_000_000_000_000_000,
        ensures
            final(self)@.odds == ray_bumped(
                old(self)@.odds,
                (a.0 as int, a.1 as int),
                (b.0 as int, b.1 as int),
                by as int,
            ),
            final(self).track == old(self).track,
            final(self).integrated == old(self).integrated,
    {
        let cells = trace_ray(a, b);
        let n: usize = cells.len();
        let mut k: usize = 0;
        while k < n
            invariant
                -100 <= by <= 100,
                n == cells.len(),
                k <= n,
                self@.odds == all_bumped(old(self)@.odds, cells_of(cells@), by as int, k as nat),
                self.track == old(self).track,
                self.integrated == old(self).integrated,
            decreases n - k,
        {
            assert(cells_of(cells@)[k as int] == place(cells@[k as int]));
            self.bump(cells[k], by);
            k += 1;
        }
    }
}

/// A trunk-frame point in the room.
fn to_world(pose: Pose, x: i64, y: i64) -> (p: (i128, i128))
    ensures
        (p.0 as int, p.1 as int) == placed(pose, x as int, y as int),
{
    let t = turn_by(pose.facing, x, y);
    proof {
        lemma_turned_fits(pose.facing, x as int, y as int);
    }
    (pose.x as i128 + t.0, pose.y as i128 + t.1)
}

proof fn lemma_turned_fits(facing: (i32, i32), x: int, y: int)
    requires
        i64::MIN <= x <= i64::MAX,
        i64::MIN <= y <= i64::MAX,
    ensures
        -0x10_0000_0000_0000_0000 <= turned_by(facing, x, y).0 <= 0x10_0000_0000_0000_0000,
        -0x10_0000_0000_0000_0000 <= turned_by(facing, x, y).1 <= 0x10_0000_0000_0000_0000,
{
    lemma_product(facing.0 as int, x);
    lemma_product(facing.0 as int, y);
    lemma_product(facing.1 as int, x);
    lemma_product(facing.1 as int, y);
}

proof fn lemma_product(a: int, b: int)
    requires
        -0x8000_0000 <= a <= 0x8000_0000,
        -0x8000_0000_0000_0000 <= b <= 0x8000_0000_0000_0000,
    ensures
        -0x4000_0000_0000_0000_0000_0000 <= a * b <= 0x4000_0000_0000_0000_0000_0000,
{
    assert(-0x4000_0000_0000_0000_0000_0000 <= a * b <= 0x4000_0000_0000_0000_0000_0000)
        by (nonlinear_arith)
        requires
            -0x8000_0000 <= a <= 0x8000_0000,
            -0x8000_0000_0000_0000 <= b <= 0x8000_0000_0000_0000,
    ;
}

impl RoomMap {
    /// Fold in what one beam found.
    fn fold_beam(&mut self, pose: Pose, sensor_pos: [i64; 3], dir: [i32; 3], zone: Zone)
        requires
            near(sensor_pos),
            zone.in_reach(),
        ensures
            final(self)@.odds == beam_folded(old(self)@.odds, pose, sensor_pos, dir, zone),
            final(self).track == old(self).track,
            final(self).integrated == old(self).integrated,
    {
        let origin = to_world(pose, sensor_pos[0], sensor_pos[1]);
        proof {
            lemma_turned_in_reach(pose.facing, sensor_pos[0] as int, sensor_pos[1] as int);
        }
        match zone {
            Zone::Hit { point, range } => {
                let p = to_world(pose, point[0], point[1]);
                proof {
                    lemma_turned_in_reach(pose.facing, point[0] as int, point[1] as int);
                }
                self.bump_ray(origin, p, MISS);
                self.bump(key(p.0, p.1), HIT);
            },
            Zone::Floor { point } => {
                let p = to_world(pose, point[0], point[1]);
                proof {
                    lemma_turned_in_reach(pose.facing, point[0] as int, point[1] as int);
                }
                self.bump_ray(origin, p, MISS);
                self.bump(key(p.0, p.1), MISS);
            },
            Zone::Empty => {
                // Only near-level beams say anything about the room; a sky beam sees
                // nothing because there is nothing up there.
                if dir[2] > 350_000_000 || dir[2] < -350_000_000 {
                    return;
                }
                let x: i64 = sensor_pos[0] + CLEAR_REACH_M * dir[0] as i64;
                let y: i64 = sensor_pos[1] + CLEAR_REACH_M * dir[1] as i64;
                let p = to_world(pose, x, y);
                proof {
                    lemma_turned_in_reach(pose.facing, x as int, y as int);
                }
                self.bump_ray(origin, p, MISS / 2);
            },
            Zone::TooClose => {
                let x: i64 = sensor_pos[0] + round_div(dir[0] as i128 * 8, 100) as i64;
                let y: i64 = sensor_pos[1] + round_div(dir[1] as i128 * 8, 100) as i64;
                let p = to_world(pose, x, y);
                self.bump(key(p.0, p.1), HIT / 2);
            },
        }
    }

    /// Fold in one reprojected depth frame. `pose` is the trunk in the room; `sensor_pos` is
    /// the sensor's position and `beam_dirs` the beam directions in the trunk's frame;
    /// `zones` is the frame.
    pub fn integrate(
        &mut self,
        pose: Pose,
        sensor_pos: [i64; 3],
        beam_dirs: &[[i32; 3]; 64],
        zones: &[Zone; 64],
    )
        requires
            old(self).integrated < u64::MAX,
            near(sensor_pos),
            forall|i: int| 0 <= i < 64 ==> (#[trigger] zones@[i]).in_reach(),
        ensures
            final(self)@ == old(self)@.integrated(pose, sensor_pos, beam_dirs@, zones@),
    {
        let mut i: usize = 0;
        while i < 64
            invariant
                i <= 64,
                near(sensor_pos),
                forall|i: int| 0 <= i < 64 ==> (#[trigger] zones@[i]).in_reach(),
                self@.odds == frame_folded(
                    old(self)@.odds,
                    pose,
                    sensor_pos,
                    beam_dirs@,
                    zones@,
                    i as nat,
                ),
                self.track == old(self).track,
                self.integrated == old(self).integrated,
            decreases 64 - i,
        {
            self.fold_beam(pose, sensor_pos, beam_dirs[i], zones[i]);
            i += 1;
        }
        // The duck's own footprint is free: it is standing there.
        self.bump(key(pose.x as i128, pose.y as i128), MISS);
        let n: usize = self.track.len();
        let moved: bool = if n == 0 {
            true
        } else {
            let last = self.track[n - 1];
            assert(old(self)@.track.last() == (last.0 as int, last.1 as int));
            is_apart(last, (pose.x, pose.y))
        };
        if moved {
            self.track.push((pose.x, pose.y));
        }
        self.integrated += 1;
        proof {
            let here = (pose.x as int, pose.y as int);
            if moved {
                assert(self@.track =~= old(self)@.track.push(here));
            }
            assert(self@ =~= old(self)@.integrated(pose, sensor_pos, beam_dirs@, zones@));
        }
    }
}

fn is_apart(a: (i64, i64), b: (i64, i64)) -> (r: bool)
    ensures
        r == apart((a.0 as int, a.1 as int), (b.0 as int, b.1 as int)),
{
    let dx: i128 = a.0 as i128 - b.0 as i128;
    let dy: i128 = a.1 as i128 - b.1 as i128;
    proof {
        lemma_square(dx as int);
        lemma_square(dy as int);
    }
    if dx > 50_000_000 || dx < -50_000_000 || dy > 50_000_000 || dy < -50_000_000 {
        true
    } else {
        dx * dx + dy * dy > 2_500_000_000_000_000
    }
}

proof fn lemma_square(d: int)
    ensures
        d * d >= 0,
        d > 50_000_000 || d < -50_000_000 ==> d * d > 2_500_000_000_000_000,
        -50_000_000 <= d <= 50_000_000 ==> d * d <= 2_500_000_000_000_000,
{
    assert(d * d >= 0) by (nonlinear_arith);
    assert(d > 50_000_000 || d < -50_000_000 ==> d * d > 2_500_000_000_000_000) by (nonlinear_arith);
    assert(-50_000_000 <= d <= 50_000_000 ==> d * d <= 2_500_000_000_000_000) by (nonlinear_arith);
}

/// No cell's log-odds are further from even than [`CLAMP`].
pub open spec fn clamped(odds: Map<(int, int), i16>) -> bool {
    forall|c: (int, int)| #[trigger] odds.contains_key(c) ==> -CLAMP <= odds[c] <= CLAMP
}

/// A bump touches one cell, keeps it within the clamp, and moves it by exactly as much as
/// the clamp lets it.
pub proof fn law_bump_is_local_and_clamped(
    odds: Map<(int, int), i16>,
    c: (int, int),
    by: int,
    other: (int, int),
)
    ensures
        clamped(odds) ==> clamped(bumped(odds, c, by)),
        level(bumped(odds, c, by), c) == held(
            level(odds, c) + by,
            -CLAMP as int,
            CLAMP as int,
        ),
        other != c ==> level(bumped(odds, c, by), other) == level(odds, other),
{
}

proof fn lemma_bumps_clamp(odds: Map<(int, int), i16>, cells: Seq<(int, int)>, by: int, k: nat)
    requires
        clamped(odds),
    ensures
        clamped(all_bumped(odds, cells, by, k)),
    decreases k,
{
    if k > 0 {
        lemma_bumps_clamp(odds, cells, by, (k - 1) as nat);
    }
}

proof fn lemma_frame_clamps(
    odds: Map<(int, int), i16>,
    pose: Pose,
    sensor: [i64; 3],
    dirs: Seq<[i32; 3]>,
    zones: Seq<Zone>,
    k: nat,
)
    requires
        clamped(odds),
    ensures
        clamped(frame_folded(odds, pose, sensor, dirs, zones, k)),
    decreases k,
{
    if k > 0 {
        lemma_frame_clamps(odds, pose, sensor, dirs, zones, (k - 1) as nat);
        let before = frame_folded(odds, pose, sensor, dirs, zones, (k - 1) as nat);
        let origin = placed(pose, sensor[0] as int, sensor[1] as int);
        match zones[k - 1] {
            Zone::Hit { point, range } => {
                let p = placed(pose, point[0] as int, point[1] as int);
                lemma_bumps_clamp(before, ray(origin, p), MISS as int, ray(origin, p).len());
            },
            Zone::Floor { point } => {
                let p = placed(pose, point[0] as int, point[1] as int);
                lemma_bumps_clamp(before, ray(origin, p), MISS as int, ray(origin, p).len());
            },
            Zone::Empty => {
                let dir = dirs[k - 1];
                let p = placed(pose, sensor[0] + CLEAR_REACH_M * dir[0], sensor[1] + CLEAR_REACH_M * dir[1]);
                lemma_bumps_clamp(before, ray(origin, p), -1, ray(origin, p).len());
            },
            Zone::TooClose => {},
        }
    }
}

/// However many frames are folded in, no cell is ever believed more firmly than the clamp
/// allows, so a few frames that say otherwise can always change its mind.
pub proof fn law_odds_stay_clamped(
    room: Room,
    pose: Pose,
    sensor: [i64; 3],
    dirs: Seq<[i32; 3]>,
    zones: Seq<Zone>,
)
    ensures
        clamped(Room::empty().odds),
        clamped(room.odds) ==> clamped(room.integrated(pose, sensor, dirs, zones).odds),
{
    if clamped(room.odds) {
        lemma_frame_clamps(room.odds, pose, sensor, dirs, zones, 64);
    }
}

/// A ray lowers every cell it passes through, down to the clamp, and touches no other.
pub proof fn law_ray_lowers_what_it_passes(
    odds: Map<(int, int), i16>,
    a: (int, int),
    b: (int, int),
    by: int,
    c: (int, int),
)
    requires
        clamped(odds),
        by < 0,
    ensures
        ray(a, b).contains(c) ==> level(ray_bumped(odds, a, b, by), c) < level(odds, c) || level(
            ray_bumped(odds, a, b, by),
            c,
        ) == -CLAMP,
        !ray(a, b).contains(c) ==> level(ray_bumped(odds, a, b, by), c) == level(odds, c),
{
    lemma_bumps_lower(odds, ray(a, b), by, ray(a, b).len(), c);
}

proof fn lemma_bumps_lower(
    odds: Map<(int, int), i16>,
    cells: Seq<(int, int)>,
    by: int,
    k: nat,
    c: (int, int),
)
    requires
        clamped(odds),
        by < 0,
        k <= cells.len(),
    ensures
        (exists|i: int| 0 <= i < k && #[trigger] cells[i] == c) ==> level(
            all_bumped(odds, cells, by, k),
            c,
        ) < level(odds, c) || level(all_bumped(odds, cells, by, k), c) == -CLAMP,
        (forall|i: int| 0 <= i < k ==> #[trigger] cells[i] != c) ==> level(
            all_bumped(odds, cells, by, k),
            c,
        ) == level(odds, c),
        level(all_bumped(odds, cells, by, k), c) <= level(odds, c),
    decreases k,
{
    if k > 0 {
        lemma_bumps_lower(odds, cells, by, (k - 1) as nat, c);
        lemma_bumps_clamp(odds, cells, by, (k - 1) as nat);
        let before = all_bumped(odds, cells, by, (k - 1) as nat);
        assert(-CLAMP <= level(before, c) <= CLAMP);
    }
}

/// A ray leaves out the cell it ends in, so a hit is never lowered by its own ray.
pub proof fn law_ray_leaves_out_its_end(a: (int, int), b: (int, int))
    ensures
        !ray(a, b).contains(cell_of(b.0, b.1)),
{
    let n = step_count(b.0 - a.0, b.1 - a.1);
    let stop = arrival(a, b, n, 0);
    lemma_trace_is_samples(a, b, n, stop);
    if ray(a, b).contains(cell_of(b.0, b.1)) {
        let k = choose|k: int| 0 <= k < ray(a, b).len() && ray(a, b)[k] == cell_of(b.0, b.1);
        assert(ray(a, b)[k] == trace(a, b, n, stop)[k]);
        let j = choose|j: int| 0 <= j < stop && #[trigger] sample(a, b, n, j) == ray(a, b)[k];
        lemma_arrival_is_first(a, b, n, 0, j as nat);
    }
}

proof fn lemma_trace_is_samples(a: (int, int), b: (int, int), n: int, i: nat)
    ensures
        forall|k: int|
            0 <= k < trace(a, b, n, i).len() ==> exists|j: int|
                0 <= j < i && #[trigger] sample(a, b, n, j) == #[trigger] trace(a, b, n, i)[k],
    decreases i,
{
    if i > 0 {
        lemma_trace_is_samples(a, b, n, (i - 1) as nat);
        let before = trace(a, b, n, (i - 1) as nat);
        let c = sample(a, b, n, i - 1);
        assert forall|k: int| 0 <= k < trace(a, b, n, i).len() implies exists|j: int|
            0 <= j < i && #[trigger] sample(a, b, n, j) == #[trigger] trace(a, b, n, i)[k] by {
            if k < before.len() {
                assert(trace(a, b, n, i)[k] == before[k]);
                let j = choose|j: int|
                    0 <= j < i - 1 && #[trigger] sample(a, b, n, j) == before[k];
                assert(sample(a, b, n, j) == trace(a, b, n, i)[k]);
            } else {
                assert(sample(a, b, n, i - 1) == trace(a, b, n, i)[k]);
            }
        }
    }
}

proof fn lemma_arrival_is_first(a: (int, int), b: (int, int), n: int, from: nat, j: nat)
    requires
        from <= j < arrival(a, b, n, from),
    ensures
        sample(a, b, n, j as int) != cell_of(b.0, b.1),
    decreases n - from,
{
    if j > from {
        lemma_arrival_is_first(a, b, n, from + 1, j);
    }
}

} // verus!

//! What the room map is for: what a beam finds is put where it is, seen from where the duck
//! stands and the way it faces; a ray goes straight there; and what is found is believed.

use vstd::arithmetic::div_mod::{lemma_fundamental_div_mod, lemma_fundamental_div_mod_converse};
use vstd::prelude::*;

use crate::room::{
    all_bumped, arrival, beam_folded, bumped, cell_of, clamped, frame_folded, is_step_count,
    law_bump_is_local_and_clamped, law_ray_leaves_out_its_end, law_ray_lowers_what_it_passes, level,
    placed, ray, ray_bumped, sample, spans, step_count, trace, Room,
};
use crate::tof::{Pose, Zone};
use crate::units::{coordinate, rounded};

verus! {

/// `a` is `b` billionths, to the nearest.
pub open spec fn is_nearest(a: int, b: int) -> bool {
    -500_000_000 <= 1_000_000_000 * a - b <= 500_000_000
}

/// Rounding is to the nearest.
pub proof fn law_rounding_is_to_the_nearest(a: int, b: int)
    requires
        b > 0,
    ensures
        -b <= 2 * (b * rounded(a, b) - a) <= b,
        2 * (b * rounded(a, b) - a) == b ==> a > 0,
        2 * (b * rounded(a, b) - a) == -b ==> a < 0,
{
    let m = if a < 0 {
        -a
    } else {
        a
    };
    let q = (2 * m + b) / (2 * b);
    lemma_fundamental_div_mod(2 * m + b, 2 * b);
    let r = (2 * m + b) % (2 * b);
    assert(2 * (b * q) == 2 * m + b - r) by (nonlinear_arith)
        requires
            2 * m + b == 2 * b * q + r,
    ;
    vstd::arithmetic::div_mod::lemma_mod_bound(2 * m + b, 2 * b);
    if a < 0 {
        assert(b * -q == -(b * q)) by (nonlinear_arith);
    } else if a == 0 {
        assert(q == 0) by (nonlinear_arith)
            requires
                b > 0,
                b == 2 * b * q + r,
                0 <= r < 2 * b,
        ;
    }
}

proof fn lemma_nearest(v: int)
    ensures
        is_nearest(rounded(v, 1_000_000_000), v),
{
    law_rounding_is_to_the_nearest(v, 1_000_000_000);
}

/// A point ahead of the trunk lies on its heading, and a point to its left a quarter turn
/// further round: `x` ahead is `x` times the cosine along and `x` times the sine across, `y` to
/// the left is `y` times minus the sine along and `y` times the cosine across.
pub proof fn law_points_are_placed_by_the_heading(pose: Pose, x: int, y: int)
    ensures
        ({
            let (c, s) = (pose.facing.0, pose.facing.1);
            let ahead = placed(pose, x, 0);
            let left = placed(pose, 0, y);
            let both = placed(pose, x, y);
            &&& is_nearest(ahead.0 - pose.x, x * c)
            &&& is_nearest(ahead.1 - pose.y, x * s)
            &&& is_nearest(left.0 - pose.x, -(y * s))
            &&& is_nearest(left.1 - pose.y, y * c)
            &&& is_nearest(both.0 - pose.x, x * c - y * s)
            &&& is_nearest(both.1 - pose.y, x * s + y * c)
        }),
{
    let (c, s) = (pose.facing.0 as int, pose.facing.1 as int);
    assert(c * x == x * c && s * x == x * s && c * y == y * c && s * y == y * s)
        by (nonlinear_arith);
    assert(s * 0 == 0 && c * 0 == 0);
    lemma_nearest(c * x);
    lemma_nearest(s * x);
    lemma_nearest(-(s * y));
    lemma_nearest(c * y);
    lemma_nearest(c * x - s * y);
    lemma_nearest(s * x + c * y);
}

/// Facing along an axis the placing is exact: ahead is where the duck faces, left is a quarter
/// turn to its left.
pub proof fn law_points_are_placed_on_the_axes(pose: Pose, x: int, y: int)
    ensures
        pose.facing == (1_000_000_000i32, 0i32) ==> placed(pose, x, y) == (pose.x + x, pose.y + y),
        pose.facing == (0i32, 1_000_000_000i32) ==> placed(pose, x, y) == (pose.x - y, pose.y + x),
        pose.facing == (-1_000_000_000i32, 0i32) ==> placed(pose, x, y) == (
            pose.x - x,
            pose.y - y,
        ),
        pose.facing == (0i32, -1_000_000_000i32) ==> placed(pose, x, y) == (
            pose.x + y,
            pose.y - x,
        ),
{
    law_points_are_placed_by_the_heading(pose, x, y);
}

/// `v` within what is believed at most.
pub open spec fn in_belief(v: int) -> int {
    if v < -30 {
        -30
    } else if v > 30 {
        30
    } else {
        v
    }
}

/// A hit raises the cell it lies in, floor lowers it, and either way what the ray passed on the
/// way there is lowered and nothing else is touched.
pub proof fn law_what_is_found_is_marked(
    odds: Map<(int, int), i16>,
    pose: Pose,
    sensor: [i64; 3],
    dir: [i32; 3],
    point: [i64; 3],
    range: i64,
    other: (int, int),
)
    requires
        clamped(odds),
    ensures
        ({
            let a = placed(pose, sensor[0] as int, sensor[1] as int);
            let p = placed(pose, point[0] as int, point[1] as int);
            let c = cell_of(p.0, p.1);
            let hit = beam_folded(odds, pose, sensor, dir, Zone::Hit { point, range });
            let floor = beam_folded(odds, pose, sensor, dir, Zone::Floor { point });
            &&& level(hit, c) == in_belief(level(odds, c) + 6)
            &&& level(floor, c) == in_belief(level(odds, c) - 2)
            &&& other != c ==> level(hit, other) == level(floor, other)
            &&& other != c && ray(a, p).contains(other) ==> level(hit, other) < level(odds, other)
                || level(hit, other) == -30
            &&& other != c && !ray(a, p).contains(other) ==> level(hit, other) == level(odds, other)
        }),
{
    let a = placed(pose, sensor[0] as int, sensor[1] as int);
    let p = placed(pose, point[0] as int, point[1] as int);
    let c = cell_of(p.0, p.1);
    law_ray_leaves_out_its_end(a, p);
    law_ray_lowers_what_it_passes(odds, a, p, -2, c);
    law_ray_lowers_what_it_passes(odds, a, p, -2, other);
    let r = ray_bumped(odds, a, p, -2);
    law_bump_is_local_and_clamped(r, c, 6, other);
    law_bump_is_local_and_clamped(r, c, -2, other);
}

/// A beam that saw nothing frees what it passed for two metres if it is near level, and says
/// nothing otherwise; something too close raises the cell eight hundredths of a metre in front
/// of the sensor.
pub proof fn law_what_is_not_found_is_marked(
    odds: Map<(int, int), i16>,
    pose: Pose,
    sensor: [i64; 3],
    dir: [i32; 3],
    other: (int, int),
)
    requires
        clamped(odds),
    ensures
        ({
            let a = placed(pose, sensor[0] as int, sensor[1] as int);
            let p = placed(pose, sensor[0] + 2 * dir[0], sensor[1] + 2 * dir[1]);
            let after = beam_folded(odds, pose, sensor, dir, Zone::Empty);
            let level_enough = -350_000_000 <= dir[2] <= 350_000_000;
            &&& !level_enough ==> after == odds
            &&& level_enough && ray(a, p).contains(other) ==> level(after, other) < level(
                odds,
                other,
            ) || level(after, other) == -30
            &&& level_enough && !ray(a, p).contains(other) ==> level(after, other) == level(
                odds,
                other,
            )
        }),
        ({
            let x = rounded(dir[0] * 8, 100);
            let y = rounded(dir[1] * 8, 100);
            let q = placed(pose, sensor[0] + x, sensor[1] + y);
            let after = beam_folded(odds, pose, sensor, dir, Zone::TooClose);
            &&& -50 <= 100 * x - 8 * dir[0] <= 50
            &&& -50 <= 100 * y - 8 * dir[1] <= 50
            &&& level(after, cell_of(q.0, q.1)) == in_belief(level(odds, cell_of(q.0, q.1)) + 3)
            &&& other != cell_of(q.0, q.1) ==> level(after, other) == level(odds, other)
        }),
{
    let a = placed(pose, sensor[0] as int, sensor[1] as int);
    let p = placed(pose, sensor[0] + 2 * dir[0], sensor[1] + 2 * dir[1]);
    law_ray_lowers_what_it_passes(odds, a, p, -1, other);
    law_rounding_is_to_the_nearest(dir[0] * 8, 100);
    law_rounding_is_to_the_nearest(dir[1] * 8, 100);
}

/// A cell is believed occupied from eight up, free from minus four down: two hits or two looks
/// through it settle a cell that nothing was known of, and one of either does not.
pub proof fn law_two_looks_settle_a_cell(room: Room, c: (int, int))
    ensures
        room.cell(c) is Occupied <==> level(room.odds, c) >= 8,
        room.cell(c) is Free <==> level(room.odds, c) <= -4,
        ({
            let once = Room { odds: bumped(room.odds, c, 6), ..room };
            let twice = Room { odds: bumped(once.odds, c, 6), ..room };
            let seen = Room { odds: bumped(room.odds, c, -2), ..room };
            let again = Room { odds: bumped(seen.odds, c, -2), ..room };
            level(room.odds, c) == 0 ==> {
                &&& room.cell(c) is Unknown
                &&& once.cell(c) is Unknown
                &&& twice.cell(c) is Occupied
                &&& seen.cell(c) is Unknown
                &&& again.cell(c) is Free
            }
        }),
{
}

/// A beam that says nothing.
pub open spec fn is_mute(dir: [i32; 3], zone: Zone) -> bool {
    zone is Empty && (dir[2] > 350_000_000 || dir[2] < -350_000_000)
}

proof fn lemma_one_voice(
    odds: Map<(int, int), i16>,
    pose: Pose,
    sensor: [i64; 3],
    dirs: Seq<[i32; 3]>,
    zones: Seq<Zone>,
    j: int,
    k: nat,
)
    requires
        0 <= j < 64,
        k <= 64,
        forall|i: int| 0 <= i < 64 && i != j ==> is_mute(#[trigger] dirs[i], zones[i]),
    ensures
        frame_folded(odds, pose, sensor, dirs, zones, k) == (if k <= j {
            odds
        } else {
            beam_folded(odds, pose, sensor, dirs[j], zones[j])
        }),
    decreases k,
{
    if k > 0 {
        lemma_one_voice(odds, pose, sensor, dirs, zones, j, (k - 1) as nat);
        if k - 1 != j {
            assert(is_mute(dirs[k - 1], zones[k - 1]));
        }
    }
}

/// Every beam of a frame is heard, whichever it is; the duck's own place is lowered as floor;
/// the track goes on when it has moved more than five hundredths of a metre; and the frame is
/// counted.
pub proof fn law_every_beam_is_heard(
    room: Room,
    pose: Pose,
    sensor: [i64; 3],
    dirs: Seq<[i32; 3]>,
    zones: Seq<Zone>,
    j: int,
)
    requires
        0 <= j < 64,
        forall|i: int| 0 <= i < 64 && i != j ==> is_mute(#[trigger] dirs[i], zones[i]),
    ensures
        ({
            let next = room.integrated(pose, sensor, dirs, zones);
            let beam = beam_folded(room.odds, pose, sensor, dirs[j], zones[j]);
            let here = (pose.x as int, pose.y as int);
            let at = cell_of(here.0, here.1);
            &&& level(next.odds, at) == in_belief(level(beam, at) - 2)
            &&& forall|c: (int, int)| c != at ==> #[trigger] level(next.odds, c) == level(beam, c)
            &&& next.frames == room.frames + 1
            &&& next.track == room.track || next.track == room.track.push(here)
            &&& room.track.len() == 0 ==> next.track == seq![here]
        }),
{
    lemma_one_voice(room.odds, pose, sensor, dirs, zones, j, 64);
    assert(room.track.len() == 0 ==> room.track.push((pose.x as int, pose.y as int)) =~= seq![
        (pose.x as int, pose.y as int),
    ]);
}

/// The track holds a new point exactly when the duck is more than five hundredths of a metre
/// from the last one.
pub proof fn law_track_follows_the_duck(
    room: Room,
    pose: Pose,
    sensor: [i64; 3],
    dirs: Seq<[i32; 3]>,
    zones: Seq<Zone>,
)
    requires
        room.track.len() > 0,
    ensures
        ({
            let next = room.integrated(pose, sensor, dirs, zones);
            let last = room.track.last();
            let (dx, dy) = (pose.x - last.0, pose.y - last.1);
            &&& dx * dx + dy * dy > 2_500_000_000_000_000 ==> next.track == room.track.push(
                (pose.x as int, pose.y as int),
            )
            &&& dx * dx + dy * dy <= 2_500_000_000_000_000 ==> next.track == room.track
        }),
{
    let last = room.track.last();
    let (dx, dy) = (pose.x - last.0, pose.y - last.1);
    assert((last.0 - pose.x) * (last.0 - pose.x) == dx * dx) by (nonlinear_arith)
        requires
            dx == pose.x - last.0,
    ;
    assert((last.1 - pose.y) * (last.1 - pose.y) == dy * dy) by (nonlinear_arith)
        requires
            dy == pose.y - last.1,
    ;
}

/// A point lies in its cell: a tenth of a metre wide, numbered from the origin.
pub proof fn law_cells_are_a_tenth_wide(x: int, y: int)
    requires
        -214_748_364_800_000_000 <= x < 214_748_364_800_000_000,
        -214_748_364_800_000_000 <= y < 214_748_364_800_000_000,
    ensures
        cell_of(x, y).0 * 100_000_000 <= x < cell_of(x, y).0 * 100_000_000 + 100_000_000,
        cell_of(x, y).1 * 100_000_000 <= y < cell_of(x, y).1 * 100_000_000 + 100_000_000,
{
}

proof fn lemma_least_span(n: int, d2: int) -> (k: int)
    requires
        n >= 1,
        spans(n, d2),
    ensures
        1 <= k <= n,
        spans(k, d2),
        k == 1 || !spans(k - 1, d2),
    decreases n,
{
    if n > 1 && spans(n - 1, d2) {
        lemma_least_span(n - 1, d2)
    } else {
        n
    }
}

/// The number of steps over a ray, and each is at most half a cell along either axis.
proof fn lemma_steps(dx: int, dy: int)
    ensures
        ({
            let n = step_count(dx, dy);
            &&& is_step_count(n, dx, dy)
            &&& n >= 1
            &&& -(n * 50_000_000) <= dx <= n * 50_000_000
            &&& -(n * 50_000_000) <= dy <= n * 50_000_000
        }),
{
    let d2 = dx * dx + dy * dy;
    let ax = if dx < 0 {
        -dx
    } else {
        dx
    };
    let ay = if dy < 0 {
        -dy
    } else {
        dy
    };
    let big = ax + ay + 1;
    assert(ax * ax == dx * dx) by (nonlinear_arith)
        requires
            ax == dx || ax == -dx,
    ;
    assert(ay * ay == dy * dy) by (nonlinear_arith)
        requires
            ay == dy || ay == -dy,
    ;
    assert(spans(big, d2)) by (nonlinear_arith)
        requires
            big == ax + ay + 1,
            ax >= 0,
            ay >= 0,
            d2 == ax * ax + ay * ay,
            spans(big, d2) == (big * big * 2_500_000_000_000_000 >= d2),
    {
        assert(ax * ax + ay * ay <= big * big);
        assert(big * big <= big * big * 2_500_000_000_000_000);
    }
    let k = lemma_least_span(big, d2);
    assert(is_step_count(k, dx, dy));
    let n = step_count(dx, dy);
    assert(is_step_count(n, dx, dy));
    let m = n * 50_000_000;
    assert(m * m == n * n * 2_500_000_000_000_000) by (nonlinear_arith)
        requires
            m == n * 50_000_000,
    ;
    assert(-m <= dx <= m && -m <= dy <= m) by (nonlinear_arith)
        requires
            m * m >= dx * dx + dy * dy,
            m >= 0,
    ;
}

/// Two cells touch, by a side or a corner, or are one.
pub open spec fn touch(a: (int, int), b: (int, int)) -> bool {
    -1 <= a.0 - b.0 <= 1 && -1 <= a.1 - b.1 <= 1
}

proof fn lemma_floor_step(x: int, d: int, m: int)
    requires
        m > 0,
        -m <= d <= m,
    ensures
        -1 <= coordinate((x + d) / m) - coordinate(x / m) <= 1,
{
    lemma_fundamental_div_mod(x, m);
    lemma_fundamental_div_mod(x + d, m);
    let (p, q) = (x / m, (x + d) / m);
    let (r, t) = (x % m, (x + d) % m);
    assert(-1 <= q - p <= 1) by (nonlinear_arith)
        requires
            x == m * p + r,
            x + d == m * q + t,
            0 <= r < m,
            0 <= t < m,
            -m <= d <= m,
    ;
}

proof fn lemma_sample_steps(a: (int, int), b: (int, int), i: int)
    ensures
        ({
            let n = step_count(b.0 - a.0, b.1 - a.1);
            touch(sample(a, b, n, i + 1), sample(a, b, n, i))
        }),
{
    let (dx, dy) = (b.0 - a.0, b.1 - a.1);
    let n = step_count(dx, dy);
    lemma_steps(dx, dy);
    let m = n * 100_000_000;
    assert((i + 1) * dx == i * dx + dx) by (nonlinear_arith);
    assert((i + 1) * dy == i * dy + dy) by (nonlinear_arith);
    lemma_floor_step(a.0 * n + i * dx, dx, m);
    lemma_floor_step(a.1 * n + i * dy, dy, m);
}

proof fn lemma_sample_ends(a: (int, int), b: (int, int), n: int)
    requires
        n >= 1,
    ensures
        sample(a, b, n, 0) == cell_of(a.0, a.1),
        sample(a, b, n, n) == cell_of(b.0, b.1),
{
    lemma_scaled_floor(a.0, n);
    lemma_scaled_floor(a.1, n);
    lemma_scaled_floor(b.0, n);
    lemma_scaled_floor(b.1, n);
    assert(0 * (b.0 - a.0) == 0 && 0 * (b.1 - a.1) == 0);
    assert(a.0 * n + n * (b.0 - a.0) == b.0 * n) by (nonlinear_arith);
    assert(a.1 * n + n * (b.1 - a.1) == b.1 * n) by (nonlinear_arith);
}

proof fn lemma_scaled_floor(x: int, n: int)
    requires
        n >= 1,
    ensures
        (x * n) / (n * 100_000_000) == x / 100_000_000,
{
    let (q, r) = (x / 100_000_000, x % 100_000_000);
    lemma_fundamental_div_mod(x, 100_000_000);
    assert(x * n == q * (n * 100_000_000) + r * n && 0 <= r * n < n * 100_000_000)
        by (nonlinear_arith)
        requires
            x == 100_000_000 * q + r,
            0 <= r < 100_000_000,
            n >= 1,
    ;
    lemma_fundamental_div_mod_converse(x * n, n * 100_000_000, q, r * n);
}

proof fn lemma_trace_has_no_gaps(a: (int, int), b: (int, int), i: nat)
    ensures
        ({
            let n = step_count(b.0 - a.0, b.1 - a.1);
            let t = trace(a, b, n, i);
            &&& i > 0 ==> t.len() > 0 && t[0] == sample(a, b, n, 0) && t.last() == sample(
                a,
                b,
                n,
                i - 1,
            )
            &&& forall|k: int| 0 < k < t.len() ==> touch(#[trigger] t[k], t[k - 1]) && t[k] != t[k
                - 1]
        }),
    decreases i,
{
    if i > 0 {
        lemma_trace_has_no_gaps(a, b, (i - 1) as nat);
        if i > 1 {
            lemma_sample_steps(a, b, i - 2);
        }
    }
}

proof fn lemma_arrives(a: (int, int), b: (int, int), n: int, i: nat)
    requires
        i <= n,
    ensures
        i <= arrival(a, b, n, i) <= n,
        arrival(a, b, n, i) < n ==> sample(a, b, n, arrival(a, b, n, i) as int) == cell_of(
            b.0,
            b.1,
        ),
    decreases n - i,
{
    if i < n && sample(a, b, n, i as int) != cell_of(b.0, b.1) {
        lemma_arrives(a, b, n, i + 1);
    }
}

/// A ray starts in the cell of the sensor and goes from cell to touching cell, without a gap,
/// until it touches the cell that it ends in, which it leaves out.
pub proof fn law_ray_has_no_gaps(a: (int, int), b: (int, int), k: int)
    ensures
        ({
            let r = ray(a, b);
            let end = cell_of(b.0, b.1);
            &&& cell_of(a.0, a.1) != end ==> r.len() > 0 && r[0] == cell_of(a.0, a.1) && touch(
                r.last(),
                end,
            )
            &&& cell_of(a.0, a.1) == end ==> r.len() == 0
            &&& 0 < k < r.len() ==> touch(r[k], r[k - 1]) && r[k] != r[k - 1]
            &&& !r.contains(end)
        }),
{
    let n = step_count(b.0 - a.0, b.1 - a.1);
    lemma_steps(b.0 - a.0, b.1 - a.1);
    lemma_sample_ends(a, b, n);
    lemma_arrives(a, b, n, 0);
    let stop = arrival(a, b, n, 0);
    lemma_trace_has_no_gaps(a, b, stop);
    law_ray_leaves_out_its_end(a, b);
    if stop > 0 {
        lemma_sample_steps(a, b, stop - 1);
    }
}

/// The point `i` parts of `n` of the way from `a` to `b` lies in cell `c`, along one axis.
pub open spec fn passes(a: int, b: int, n: int, i: int, c: int) -> bool {
    n * 100_000_000 * c <= a * n + i * (b - a) < n * 100_000_000 * (c + 1)
}

proof fn lemma_passes(a: int, b: int, n: int, i: int)
    requires
        n >= 1,
        0 <= i <= n,
        -214_748_364_800_000_000 <= a < 214_748_364_800_000_000,
        -214_748_364_800_000_000 <= b < 214_748_364_800_000_000,
    ensures
        passes(a, b, n, i, coordinate((a * n + i * (b - a)) / (n * 100_000_000))),
{
    let (x, m) = (a * n + i * (b - a), n * 100_000_000);
    lemma_fundamental_div_mod(x, m);
    let q = x / m;
    assert(-2_147_483_648 <= q < 2_147_483_648) by (nonlinear_arith)
        requires
            x == m * q + x % m,
            0 <= x % m < m,
            m == n * 100_000_000,
            n >= 1,
            0 <= i <= n,
            x == a * n + i * (b - a),
            -214_748_364_800_000_000 <= a < 214_748_364_800_000_000,
            -214_748_364_800_000_000 <= b < 214_748_364_800_000_000,
    {
        assert(x == a * (n - i) + i * b);
        assert(a * (n - i) >= -214_748_364_800_000_000 * (n - i));
        assert(i * b >= -214_748_364_800_000_000 * i);
        assert(x >= -214_748_364_800_000_000 * n);
        assert(a * (n - i) <= 214_748_364_799_999_999 * (n - i));
        assert(i * b <= 214_748_364_799_999_999 * i);
        assert(x <= 214_748_364_799_999_999 * n);
    }
    assert(m * q <= x < m * (q + 1)) by (nonlinear_arith)
        requires
            x == m * q + x % m,
            0 <= x % m < m,
    ;
}

proof fn lemma_trace_passes(a: (int, int), b: (int, int), n: int, i: nat, k: int) -> (j: int)
    requires
        0 <= k < trace(a, b, n, i).len(),
    ensures
        0 <= j < i,
        sample(a, b, n, j) == trace(a, b, n, i)[k],
    decreases i,
{
    let before = trace(a, b, n, (i - 1) as nat);
    if k < before.len() {
        lemma_trace_passes(a, b, n, (i - 1) as nat, k)
    } else {
        i - 1
    }
}

/// Every cell of a ray holds a point of the segment from its one end to the other.
pub proof fn law_ray_is_straight(a: (int, int), b: (int, int), k: int) -> (r: (int, int))
    requires
        -214_748_364_800_000_000 <= a.0 < 214_748_364_800_000_000,
        -214_748_364_800_000_000 <= a.1 < 214_748_364_800_000_000,
        -214_748_364_800_000_000 <= b.0 < 214_748_364_800_000_000,
        -214_748_364_800_000_000 <= b.1 < 214_748_364_800_000_000,
        0 <= k < ray(a, b).len(),
    ensures
        0 <= r.0 <= r.1,
        r.1 > 0,
        passes(a.0, b.0, r.1, r.0, ray(a, b)[k].0),
        passes(a.1, b.1, r.1, r.0, ray(a, b)[k].1),
{
    let n = step_count(b.0 - a.0, b.1 - a.1);
    lemma_steps(b.0 - a.0, b.1 - a.1);
    lemma_arrives(a, b, n, 0);
    let j = lemma_trace_passes(a, b, n, arrival(a, b, n, 0), k);
    lemma_passes(a.0, b.0, n, j);
    lemma_passes(a.1, b.1, n, j);
    (j, n)
}

/// From `p` to `q` nothing goes back on the way from `a` to `b`.
pub open spec fn is_onward(a: (int, int), b: (int, int), p: (int, int), q: (int, int)) -> bool {
    &&& a.0 <= b.0 ==> p.0 <= q.0
    &&& b.0 <= a.0 ==> q.0 <= p.0
    &&& a.1 <= b.1 ==> p.1 <= q.1
    &&& b.1 <= a.1 ==> q.1 <= p.1
}

proof fn lemma_floor_goes_on(a: int, b: int, n: int, i: int)
    requires
        n >= 1,
    ensures
        a <= b ==> (a * n + i * (b - a)) / (n * 100_000_000) <= (a * n + (i + 1) * (b - a)) / (n
            * 100_000_000),
        b <= a ==> (a * n + (i + 1) * (b - a)) / (n * 100_000_000) <= (a * n + i * (b - a)) / (n
            * 100_000_000),
{
    let (x, m) = (a * n + i * (b - a), n * 100_000_000);
    assert(a * n + (i + 1) * (b - a) == x + (b - a)) by (nonlinear_arith)
        requires
            x == a * n + i * (b - a),
    ;
    if a <= b {
        vstd::arithmetic::div_mod::lemma_div_is_ordered(x, x + (b - a), m);
    }
    if b <= a {
        vstd::arithmetic::div_mod::lemma_div_is_ordered(x + (b - a), x, m);
    }
}

proof fn lemma_samples_go_on(a: (int, int), b: (int, int), n: int, i: int)
    requires
        n >= 1,
    ensures
        is_onward(a, b, sample(a, b, n, i), sample(a, b, n, i + 1)),
{
    lemma_floor_goes_on(a.0, b.0, n, i);
    lemma_floor_goes_on(a.1, b.1, n, i);
}

proof fn lemma_trace_goes_on(a: (int, int), b: (int, int), n: int, i: nat)
    requires
        n >= 1,
    ensures
        ({
            let t = trace(a, b, n, i);
            &&& i > 0 ==> t.len() > 0 && t.last() == sample(a, b, n, i - 1)
            &&& forall|k: int|
                0 <= k < t.len() ==> is_onward(a, b, #[trigger] t[k], sample(a, b, n, i - 1))
            &&& t.no_duplicates()
        }),
    decreases i,
{
    if i > 0 {
        lemma_trace_goes_on(a, b, n, (i - 1) as nat);
        lemma_samples_go_on(a, b, n, i - 2);
        let t = trace(a, b, n, (i - 1) as nat);
        let c = sample(a, b, n, i - 1);
        assert forall|k: int| 0 <= k < t.len() implies is_onward(a, b, #[trigger] t[k], c) && (t[k]
            == c ==> t.last() == c) by {
            assert(is_onward(a, b, t[k], sample(a, b, n, i - 2)));
        }
    }
}

proof fn lemma_bumped_once(
    odds: Map<(int, int), i16>,
    cells: Seq<(int, int)>,
    by: int,
    k: nat,
    c: (int, int),
)
    requires
        clamped(odds),
        cells.no_duplicates(),
        k <= cells.len(),
        -30 <= by <= 30,
    ensures
        clamped(all_bumped(odds, cells, by, k)),
        (exists|j: int| 0 <= j < k && #[trigger] cells[j] == c) ==> level(
            all_bumped(odds, cells, by, k),
            c,
        ) == in_belief(level(odds, c) + by),
        (forall|j: int| 0 <= j < k ==> #[trigger] cells[j] != c) ==> level(
            all_bumped(odds, cells, by, k),
            c,
        ) == level(odds, c),
    decreases k,
{
    if k > 0 {
        lemma_bumped_once(odds, cells, by, (k - 1) as nat, c);
        let before = all_bumped(odds, cells, by, (k - 1) as nat);
        law_bump_is_local_and_clamped(before, cells[k - 1], by, c);
        if cells[k - 1] == c {
            assert(forall|j: int| 0 <= j < k - 1 ==> #[trigger] cells[j] != c);
        } else if exists|j: int| 0 <= j < k && #[trigger] cells[j] == c {
            let j = choose|j: int| 0 <= j < k && #[trigger] cells[j] == c;
            assert(j < k - 1);
        }
    }
}

/// A ray passes a cell once, and marks it once: by two where the beam found something behind it,
/// by one where it found nothing at all.
pub proof fn law_ray_marks_each_cell_once(
    odds: Map<(int, int), i16>,
    pose: Pose,
    sensor: [i64; 3],
    dir: [i32; 3],
    point: [i64; 3],
    range: i64,
    other: (int, int),
)
    requires
        clamped(odds),
    ensures
        ({
            let a = placed(pose, sensor[0] as int, sensor[1] as int);
            let p = placed(pose, point[0] as int, point[1] as int);
            let e = placed(pose, sensor[0] + 2 * dir[0], sensor[1] + 2 * dir[1]);
            let hit = beam_folded(odds, pose, sensor, dir, Zone::Hit { point, range });
            let floor = beam_folded(odds, pose, sensor, dir, Zone::Floor { point });
            let empty = beam_folded(odds, pose, sensor, dir, Zone::Empty);
            &&& ray(a, p).no_duplicates()
            &&& ray(a, p).contains(other) ==> level(hit, other) == in_belief(level(odds, other) - 2)
                && level(floor, other) == in_belief(level(odds, other) - 2)
            &&& -350_000_000 <= dir[2] <= 350_000_000 && ray(a, e).contains(other) ==> level(
                empty,
                other,
            ) == in_belief(level(odds, other) - 1)
        }),
{
    let a = placed(pose, sensor[0] as int, sensor[1] as int);
    let p = placed(pose, point[0] as int, point[1] as int);
    let e = placed(pose, sensor[0] + 2 * dir[0], sensor[1] + 2 * dir[1]);
    let n = step_count(p.0 - a.0, p.1 - a.1);
    lemma_steps(p.0 - a.0, p.1 - a.1);
    lemma_trace_goes_on(a, p, n, arrival(a, p, n, 0));
    lemma_bumped_once(odds, ray(a, p), -2, ray(a, p).len(), other);
    let m = step_count(e.0 - a.0, e.1 - a.1);
    lemma_steps(e.0 - a.0, e.1 - a.1);
    lemma_trace_goes_on(a, e, m, arrival(a, e, m, 0));
    lemma_bumped_once(odds, ray(a, e), -1, ray(a, e).len(), other);
    law_ray_leaves_out_its_end(a, p);
    let passed = ray_bumped(odds, a, p, -2);
    law_bump_is_local_and_clamped(passed, cell_of(p.0, p.1), 6, other);
    law_bump_is_local_and_clamped(passed, cell_of(p.0, p.1), -2, other);
}

/// A ray is followed in the fewest steps of five centimetres or less that reach its end.
pub proof fn law_ray_is_followed_closely(dx: int, dy: int)
    ensures
        ({
            let n = step_count(dx, dy);
            &&& n >= 1
            &&& n * n * 2_500_000_000_000_000 >= dx * dx + dy * dy
            &&& n > 1 ==> (n - 1) * (n - 1) * 2_500_000_000_000_000 < dx * dx + dy * dy
        }),
{
    lemma_steps(dx, dy);
}

} // verus!

//! What the senses are for: the nearest thing on each side, how far it is open all round, what
//! was heard and felt, who is about, and where the duck has been.

use vstd::arithmetic::div_mod::{lemma_fundamental_div_mod, lemma_fundamental_div_mod_converse};
use vstd::prelude::*;

use crate::dice::{chance, portion, reseeded, reseeded_by};
use crate::heading::{
    candidate_facing, candidate_visits, candidate_yaw, eighth, gaze, is_refused, searched,
};
use crate::mapping::{is_nearest, law_rounding_is_to_the_nearest};
use crate::proto::{EventKind, RobotEvent, TofFrame};
use crate::tof::Zone;
use crate::units::{rounded, wrapped, PI};
use crate::world::{
    ahead_of, bin_number, bin_view, floor_zones, is_near_axis, nearer, patch_of, sector, summary,
    Novelty, Radar, Scan, Senses, World,
};

verus! {

/// Zone `i` of a frame holds something at `range`, in a column from `lo` up to `hi`.
pub open spec fn is_thing(zones: Seq<Zone>, i: int, lo: int, hi: int, range: i64) -> bool {
    &&& zones[i] is Hit
    &&& zones[i]->range == range
    &&& lo <= i % 8 < hi
}

proof fn lemma_sector(zones: Seq<Zone>, lo: int, hi: int, k: nat, i: int)
    ensures
        0 <= i < k && is_thing(zones, i, lo, hi, zones[i]->range) ==> (sector(
            zones,
            lo,
            hi,
            k,
        ) matches Some(r) && r <= zones[i]->range),
        sector(zones, lo, hi, k) matches Some(r) ==> exists|j: int|
            0 <= j < k && #[trigger] is_thing(zones, j, lo, hi, r),
    decreases k,
{
    if k > 0 {
        lemma_sector(zones, lo, hi, (k - 1) as nat, i);
        let before = sector(zones, lo, hi, (k - 1) as nat);
        if sector(zones, lo, hi, k) is Some {
            let r = sector(zones, lo, hi, k)->0;
            if before == Some(r) {
                let j = choose|j: int| 0 <= j < k - 1 && #[trigger] is_thing(zones, j, lo, hi, r);
                assert(is_thing(zones, j, lo, hi, r));
            } else {
                assert(is_thing(zones, k - 1, lo, hi, r));
            }
        }
    }
}

/// A sector's range is that of the nearest thing in its columns: no hit there is nearer, and one
/// is just as near; with none there is none.
pub open spec fn is_nearest_of(
    zones: Seq<Zone>,
    lo: int,
    hi: int,
    range: Option<i64>,
    i: int,
) -> bool {
    &&& 0 <= i < 64 && is_thing(zones, i, lo, hi, zones[i]->range) ==> (range matches Some(r) && r
        <= zones[i]->range)
    &&& range matches Some(r) ==> exists|j: int|
        0 <= j < 64 && #[trigger] is_thing(zones, j, lo, hi, r)
}

/// The three left columns are the left, the two in the middle the way ahead, the three right
/// ones the right. Something too close is told, and so is the age of the frame.
pub proof fn law_sectors_hold_the_nearest(zones: Seq<Zone>, age: i64, i: int)
    ensures
        is_nearest_of(zones, 0, 3, summary(zones, age).left, i),
        is_nearest_of(zones, 3, 5, summary(zones, age).center, i),
        is_nearest_of(zones, 5, 8, summary(zones, age).right, i),
        0 <= i < 64 && zones[i] is TooClose ==> summary(zones, age).too_close,
        (forall|j: int| 0 <= j < 64 ==> !(#[trigger] zones[j] is TooClose)) ==> !summary(
            zones,
            age,
        ).too_close,
        summary(zones, age).age_s == Some(age),
        summary(zones, age).is_fresh() <==> age <= 500_000_000,
{
    lemma_sector(zones, 0, 3, 64, i);
    lemma_sector(zones, 3, 5, 64, i);
    lemma_sector(zones, 5, 8, 64, i);
}

/// Zone `i` is floor in one of the two middle columns.
pub open spec fn is_floor_ahead(zones: Seq<Zone>, i: int) -> bool {
    zones[i] is Floor && (i % 8 == 3 || i % 8 == 4)
}

proof fn lemma_floor(zones: Seq<Zone>, k: nat, i: int, j: int)
    ensures
        0 <= i < k && is_floor_ahead(zones, i) ==> floor_zones(zones, k) >= 1,
        0 <= i < j < k && is_floor_ahead(zones, i) && is_floor_ahead(zones, j) ==> floor_zones(
            zones,
            k,
        ) >= 2,
        (forall|n: int| 0 <= n < k ==> !#[trigger] is_floor_ahead(zones, n)) ==> floor_zones(
            zones,
            k,
        ) == 0,
        (forall|n: int| 0 <= n < k && n != i ==> !#[trigger] is_floor_ahead(zones, n))
            ==> floor_zones(zones, k) <= 1,
    decreases k,
{
    if k > 0 {
        lemma_floor(zones, (k - 1) as nat, i, j);
        assert(floor_zones(zones, k) == floor_zones(zones, (k - 1) as nat) + (if is_floor_ahead(
            zones,
            k - 1,
        ) {
            1nat
        } else {
            0
        }));
        if forall|n: int| 0 <= n < k && n != i ==> !#[trigger] is_floor_ahead(zones, n) {
            if i == k - 1 {
                assert forall|n: int| 0 <= n < k - 1 implies !#[trigger] is_floor_ahead(zones, n) by {}
            }
        }
    }
}

/// The floor is confirmed ahead by two beams in the middle that see it, if nothing there is
/// within 0.4 m; one beam, or beams to the sides, do not confirm it.
pub proof fn law_floor_is_confirmed_by_two(zones: Seq<Zone>, age: i64, i: int, j: int)
    ensures
        ({
            let o = summary(zones, age);
            let clear = o.center matches Some(r) ==> r > 400_000_000;
            &&& !clear ==> !o.floor_ahead
            &&& clear && 0 <= i < j < 64 && is_floor_ahead(zones, i) && is_floor_ahead(zones, j)
                ==> o.floor_ahead
            &&& (forall|n: int| 0 <= n < 64 && n != i ==> !#[trigger] is_floor_ahead(zones, n))
                ==> !o.floor_ahead
        }),
{
    lemma_floor(zones, 64, i, j);
}

/// A bearing falls in the bin whose middle it is nearest to: thirty degrees a bin, fifteen to
/// either side, the fourth dead ahead and the left ones positive.
pub proof fn law_bins_are_thirty_degrees(bearing: int, b: int)
    ensures
        bin_number(bearing) == b <==> (b - 3) * 30 * 3_141_592_654 - 15 * 3_141_592_654 <= 180
            * bearing < (b - 3) * 30 * 3_141_592_654 + 15 * 3_141_592_654,
        is_near_axis(bearing, b) <==> -8 * 3_141_592_654 <= 180 * bearing - (b - 3) * 30
            * 3_141_592_654 <= 8 * 3_141_592_654,
{
    let (x, m) = (12 * bearing + 7 * PI, 2 * PI);
    lemma_fundamental_div_mod(x, m);
    let q = x / m;
    assert(m * q == 6_283_185_308 * q);
    if 6_283_185_308 * b <= x < 6_283_185_308 * b + 6_283_185_308 {
        lemma_fundamental_div_mod_converse(x, m, b, x - 6_283_185_308 * b);
    }
}

/// Beam `i` looks into bin `b`, level or slightly down.
pub open spec fn looks_into(scan: Scan, i: int, b: int) -> bool {
    &&& (b - 3) * 30 * 3_141_592_654 - 15 * 3_141_592_654 <= 180 * scan.bearings@[i] < (b - 3) * 30
        * 3_141_592_654 + 15 * 3_141_592_654
    &&& -450_000_000 <= scan.dirs@[i][2] <= 50_000_000
}

/// Beam `i` looks along the middle of bin `b`, within eight degrees.
pub open spec fn looks_along(scan: Scan, i: int, b: int) -> bool {
    &&& looks_into(scan, i, b)
    &&& -8 * 3_141_592_654 <= 180 * scan.bearings@[i] - (b - 3) * 30 * 3_141_592_654 <= 8
        * 3_141_592_654
}

/// How far beam `i` reached: to what it hit, or four metres where it saw nothing.
pub open spec fn reach_of(scan: Scan, i: int) -> Option<i64> {
    match scan.zones@[i] {
        Zone::Hit { point, range } => Some(range),
        Zone::Empty => Some(4_000_000_000),
        _ => None,
    }
}

pub open spec fn hit_of(scan: Scan, i: int) -> Option<i64> {
    match scan.zones@[i] {
        Zone::Hit { point, range } => Some(range),
        _ => None,
    }
}

proof fn lemma_bin(scan: Scan, b: int, k: nat, i: int)
    ensures
        ({
            let v = bin_view(scan, b, k);
            &&& 0 <= i < k && looks_into(scan, i, b) ==> v.covered
            &&& 0 <= i < k && looks_into(scan, i, b) ==> (hit_of(scan, i) matches Some(r) ==> (
            v.nearest matches Some(n) && n <= r))
            &&& 0 <= i < k && looks_into(scan, i, b) ==> (reach_of(scan, i) matches Some(r) ==> r
                <= v.deepest)
            &&& 0 <= i < k && looks_along(scan, i, b) ==> (hit_of(scan, i) matches Some(r) ==> (
            v.on_axis matches Some(n) && n <= r))
            &&& v.covered ==> exists|j: int| 0 <= j < k && #[trigger] looks_into(scan, j, b)
            &&& v.nearest is Some ==> exists|j: int|
                0 <= j < k && #[trigger] looks_into(scan, j, b) && hit_of(scan, j) == v.nearest
            &&& v.on_axis is Some ==> exists|j: int|
                0 <= j < k && #[trigger] looks_along(scan, j, b) && hit_of(scan, j) == v.on_axis
            &&& v.deepest > 0 ==> exists|j: int|
                0 <= j < k && #[trigger] looks_into(scan, j, b) && reach_of(scan, j) == Some(
                    v.deepest,
                )
            &&& v.deepest >= 0
        }),
    decreases k,
{
    if k > 0 {
        let before = bin_view(scan, b, (k - 1) as nat);
        let v = bin_view(scan, b, k);
        lemma_bin(scan, b, (k - 1) as nat, i);
        law_bins_are_thirty_degrees(scan.bearings@[k - 1] as int, b);
        assert(scan.votes(k - 1, b) <==> looks_into(scan, k - 1, b));
        assert(looks_along(scan, k - 1, b) <==> looks_into(scan, k - 1, b) && is_near_axis(
            scan.bearings@[k - 1] as int,
            b,
        ));
        if before.covered {
            let j = choose|j: int| 0 <= j < k - 1 && #[trigger] looks_into(scan, j, b);
            assert(looks_into(scan, j, b));
        }
        if v.nearest == before.nearest && before.nearest is Some {
            let j = choose|j: int|
                0 <= j < k - 1 && #[trigger] looks_into(scan, j, b) && hit_of(scan, j)
                    == before.nearest;
            assert(looks_into(scan, j, b));
        }
        if v.on_axis == before.on_axis && before.on_axis is Some {
            let j = choose|j: int|
                0 <= j < k - 1 && #[trigger] looks_along(scan, j, b) && hit_of(scan, j)
                    == before.on_axis;
            assert(looks_along(scan, j, b));
        }
        if v.deepest == before.deepest && before.deepest > 0 {
            let j = choose|j: int|
                0 <= j < k - 1 && #[trigger] looks_into(scan, j, b) && reach_of(scan, j) == Some(
                    before.deepest,
                );
            assert(looks_into(scan, j, b));
        }
    }
}

/// After a frame, a bin that some level beam looked into holds the nearest hit of those beams,
/// the deepest they reached, and the nearest hit of those along its middle, as of now; a bin
/// that none looked into is as it was.
pub proof fn law_radar_holds_what_was_seen(
    r: Radar,
    before: Radar,
    scan: Scan,
    t: i64,
    b: int,
    i: int,
)
    requires
        r.swept(before, scan, t, b),
        0 <= i < 64,
    ensures
        looks_into(scan, i, b) ==> {
            &&& r.at@[b] == Some(t)
            &&& hit_of(scan, i) matches Some(n) ==> (r.range@[b] matches Some(m) && m <= n)
            &&& reach_of(scan, i) matches Some(n) ==> r.far@[b] >= n
            &&& r.range@[b] is Some ==> exists|j: int|
                0 <= j < 64 && #[trigger] looks_into(scan, j, b) && hit_of(scan, j) == r.range@[b]
            &&& r.far@[b] > 0 ==> exists|j: int|
                0 <= j < 64 && #[trigger] looks_into(scan, j, b) && reach_of(scan, j) == Some(
                    r.far@[b],
                )
            &&& r.axis@[b] is Some ==> exists|j: int|
                0 <= j < 64 && #[trigger] looks_along(scan, j, b) && hit_of(scan, j) == r.axis@[b]
        },
        looks_along(scan, i, b) ==> (hit_of(scan, i) matches Some(n) ==> (r.axis@[b] matches Some(
            m,
        ) && m <= n)),
        (forall|j: int| 0 <= j < 64 ==> !#[trigger] looks_into(scan, j, b)) ==> {
            &&& r.at@[b] == before.at@[b]
            &&& r.range@[b] == before.range@[b]
            &&& r.far@[b] == before.far@[b]
            &&& r.axis@[b] == before.axis@[b]
        },
        r.is_fresh(b, t as int) || r.at@[b] == before.at@[b],
        r.is_fresh(b, t + 3_000_000_001) ==> r.at@[b] != Some(t),
{
    lemma_bin(scan, b, 64, i);
}

/// A range is trusted if the sensor says so, and is a millimetre each.
pub proof fn law_ranges_are_millimetres(f: TofFrame, i: int)
    requires
        0 <= i,
    ensures
        f.range_at(i) matches Some(r) ==> {
            &&& i < f.distance_mm@.len() && i < f.status@.len()
            &&& r == f.distance_mm@[i] * 1_000_000
            &&& r > 0
            &&& seq![4u8, 5, 6, 9, 10, 12, 13].contains(f.status@[i])
        },
        i < f.distance_mm@.len() && i < f.status@.len() && f.distance_mm@[i] > 0 && seq![
            4u8,
            5,
            6,
            9,
            10,
            12,
            13,
        ].contains(f.status@[i]) ==> f.range_at(i) is Some,
{
    let valid = seq![4u8, 5, 6, 9, 10, 12, 13];
    if i < f.status@.len() {
        let s = f.status@[i];
        if valid.contains(s) {
            let k = choose|k: int| 0 <= k < valid.len() && valid[k] == s;
        }
        assert(valid[0] == 4 && valid[1] == 5 && valid[2] == 6 && valid[3] == 9 && valid[4] == 10
            && valid[5] == 12 && valid[6] == 13);
    }
}

/// An event is remembered as what it is, at its time, and as nothing else: a noise is no voice,
/// a voice is company and a duck with a beacon is, a hand stays until it goes.
pub proof fn law_events_are_remembered(s: Senses, t: i64, id: Option<u16>)
    ensures
        ({
            let n = s.after(t, RobotEvent { kind: EventKind::SoundNoise, id });
            n == Senses { last_noise: n.last_noise, ..s } && n.last_noise == Some(t)
        }),
        ({
            let n = s.after(t, RobotEvent { kind: EventKind::SoundVoice, id });
            &&& n == Senses { last_voice: n.last_voice, last_company: n.last_company, ..s }
            &&& n.last_voice == Some(t)
            &&& n.last_company == Some(t)
        }),
        ({
            let n = s.after(t, RobotEvent { kind: EventKind::PetStart, id });
            &&& n == Senses { petting_since: n.petting_since, pet_ended: n.pet_ended, ..s }
            &&& n.petting_since == Some(t)
            &&& n.pet_ended is None
        }),
        ({
            let n = s.after(t, RobotEvent { kind: EventKind::PetEnd, id });
            &&& n == Senses { petting_since: n.petting_since, pet_ended: n.pet_ended, ..s }
            &&& n.petting_since is None
            &&& n.pet_ended == Some(t)
        }),
        ({
            let n = s.after(t, RobotEvent { kind: EventKind::DuckLost, id });
            &&& n == Senses { ducks: n.ducks, ..s }
            &&& forall|d: u16|
                #[trigger] n.ducks.contains_key(d) <==> s.ducks.contains_key(d) && Some(d) != id
            &&& forall|d: u16| n.ducks.contains_key(d) ==> #[trigger] n.ducks[d] == s.ducks[d]
        }),
        ({
            let n = s.after(t, RobotEvent { kind: EventKind::DuckSeen, id });
            &&& id is None ==> n == s
            &&& forall|d: u16|
                #[trigger] n.ducks.contains_key(d) <==> s.ducks.contains_key(d) || Some(d) == id
            &&& forall|d: u16|
                Some(d) != id && n.ducks.contains_key(d) ==> #[trigger] n.ducks[d] == s.ducks[d]
            &&& n.known_ducks == s.known_ducks
            &&& n.beats == s.beats
        }),
        ({
            let n = s.after(t, RobotEvent { kind: EventKind::Beat, id });
            &&& n == Senses { beats: n.beats, ..s }
            &&& n.beats.len() > 0 && n.beats.last() == t
            &&& s.beats.len() < 8 ==> n.beats.len() == s.beats.len() + 1
            &&& s.beats.len() == 8 ==> n.beats.len() == 8
            &&& s.beats.len() == 8 ==> forall|i: int|
                0 <= i < 7 ==> #[trigger] n.beats[i] == s.beats[i + 1]
            &&& s.beats.len() < 8 ==> forall|i: int|
                0 <= i < s.beats.len() ==> #[trigger] n.beats[i] == s.beats[i]
        }),
{
}

/// The beats come `gap` apart.
pub open spec fn is_steady(beats: Seq<i64>, gap: int) -> bool {
    forall|i: int| 0 <= i < beats.len() - 1 ==> #[trigger] beats[i + 1] == beats[i] + gap
}

proof fn lemma_recent(w: World, k: nat)
    requires
        k <= w.beats@.len(),
    ensures
        (forall|i: int| 0 <= i < k ==> w.t - #[trigger] w.beats@[i] < 4_000_000_000)
            ==> w.recent_beats(k) == w.beats@.take(k as int),
        (forall|i: int| 0 <= i < k ==> w.t - #[trigger] w.beats@[i] >= 4_000_000_000)
            ==> w.recent_beats(k).len() == 0,
        w.recent_beats(k).len() <= k,
    decreases k,
{
    if k > 0 {
        lemma_recent(w, (k - 1) as nat);
        assert(w.beats@.take(k as int) =~= w.beats@.take(k - 1).push(w.beats@[k - 1]));
    } else {
        assert(w.beats@.take(0) =~= Seq::empty());
    }
}

proof fn lemma_steady(beats: Seq<i64>, gap: int, k: int)
    requires
        is_steady(beats, gap),
        0 <= k < beats.len(),
    ensures
        beats[k] == beats[0] + k * gap,
    decreases k,
{
    if k > 0 {
        lemma_steady(beats, gap, k - 1);
        assert(beats[(k - 1) + 1] == beats[k - 1] + gap);
        assert(k * gap == (k - 1) * gap + gap) by (nonlinear_arith);
    }
}

/// The beat is what lies between the beats: of three or more that come steadily, all in the last
/// four seconds, it is their gap. Without three there is none, and beats long past are none.
pub proof fn law_beat_is_the_gap_between_beats(w: World, gap: int)
    ensures
        w.beats@.len() >= 3 && is_steady(w.beats@, gap) && (forall|i: int|
            0 <= i < w.beats@.len() ==> w.t - #[trigger] w.beats@[i] < 4_000_000_000)
            ==> w.beat_gap() == Some(gap),
        w.beats@.len() < 3 ==> w.beat_gap() is None,
        (forall|i: int| 0 <= i < w.beats@.len() ==> w.t - #[trigger] w.beats@[i] >= 4_000_000_000)
            ==> w.beat_gap() is None,
{
    let b = w.beats@;
    lemma_recent(w, b.len());
    assert(b.take(b.len() as int) =~= b);
    if b.len() >= 3 && is_steady(b, gap) {
        let n = b.len() - 1;
        lemma_steady(b, gap, n);
        assert((n * gap) / n == gap) by (nonlinear_arith)
            requires
                n > 0,
        ;
    }
}

/// A duck is about for ten seconds after it was heard from, and being alone is counted from the
/// last company, or from the start.
pub proof fn law_company_is_recent(w: World, id: u16)
    ensures
        w.ducks_around().contains(id) <==> w.ducks@.contains_key(id) && w.t - w.ducks@[id]
            < 10_000_000_000,
        w.last_company matches Some(t) ==> w.alone() + t == w.t,
        w.last_company is None ==> w.alone() == w.t,
{
}

/// The novelty grid's cells are a quarter of a metre wide.
pub proof fn law_patches_are_a_quarter_wide(x: int, y: int)
    requires
        -500_000_000_000_000_000 <= x < 500_000_000_000_000_000,
        -500_000_000_000_000_000 <= y < 500_000_000_000_000_000,
    ensures
        patch_of(x, y).0 * 250_000_000 <= x < patch_of(x, y).0 * 250_000_000 + 250_000_000,
        patch_of(x, y).1 * 250_000_000 <= y < patch_of(x, y).1 * 250_000_000 + 250_000_000,
{
}

/// What lies ahead on a heading lies along its cosine and sine.
pub proof fn law_ahead_lies_on_the_heading(x: int, y: int, facing: (i32, i32), look: int)
    ensures
        is_nearest(ahead_of(x, y, facing, look).0 - x, look * facing.0),
        is_nearest(ahead_of(x, y, facing, look).1 - y, look * facing.1),
{
    law_rounding_is_to_the_nearest(look * facing.0, 1_000_000_000);
    law_rounding_is_to_the_nearest(look * facing.1, 1_000_000_000);
}

/// The difference of two headings is that of the angles they came from.
pub proof fn law_wrapping_keeps_differences(a: int, b: int)
    requires
        -3_141_592_654 <= a - b < 3_141_592_654,
    ensures
        wrapped(wrapped(a) - wrapped(b)) == a - b,
{
    let t = 6_283_185_308;
    lemma_fundamental_div_mod(a + PI, t);
    lemma_fundamental_div_mod(b + PI, t);
    let (p, q) = ((a + PI) / t, (b + PI) / t);
    let x = wrapped(a) - wrapped(b) + PI;
    assert(wrapped(a) == a - t * p && wrapped(b) == b - t * q);
    assert(t * (q - p) == t * q - t * p) by (nonlinear_arith);
    lemma_fundamental_div_mod_converse(x, t, q - p, a - b + PI);
}

/// The headings Wander chooses among lie all round the duck: the fifth is its own, and every next
/// one is an eighth of a turn further to the left.
pub proof fn law_headings_lie_all_round(w: World, k: int)
    requires
        0 <= k < 7,
    ensures
        ({
            let turn = wrapped(candidate_yaw(w, k + 1) - candidate_yaw(w, k));
            785_398_163 <= turn <= 785_398_164
        }),
        candidate_yaw(w, 4) == wrapped(w.yaw as int),
{
    let (a, b) = ((k + 1 - 4) * PI / 4, (k - 4) * PI / 4);
    assert(785_398_163 <= a - b <= 785_398_164) by {
        assert(k == 0 || k == 1 || k == 2 || k == 3 || k == 4 || k == 5 || k == 6);
    }
    law_wrapping_keeps_differences(w.yaw + a, w.yaw + b);
}

proof fn lemma_exact(v: int)
    ensures
        rounded(v * 1_000_000_000, 1_000_000_000) == v,
{
    law_rounding_is_to_the_nearest(v * 1_000_000_000, 1_000_000_000);
}

/// Each heading is judged by the ground half a metre along it: the fifth straight ahead, the
/// seventh to the left, the third to the right, the first behind.
pub proof fn law_headings_are_judged_by_their_ground(w: World, k: int)
    requires
        0 <= k < 8,
        -1_000_000_000 <= w.facing.0 <= 1_000_000_000,
        -1_000_000_000 <= w.facing.1 <= 1_000_000_000,
    ensures
        candidate_facing(w, 4) == w.facing,
        candidate_facing(w, 6) == ((-w.facing.1) as i32, w.facing.0),
        candidate_facing(w, 2) == (w.facing.1, (-w.facing.0) as i32),
        candidate_facing(w, 0) == ((-w.facing.0) as i32, (-w.facing.1) as i32),
        ({
            let (c, s) = (w.facing.0, w.facing.1);
            &&& is_nearest(candidate_facing(w, 5).0 as int, (c - s) * 707_106_781)
            &&& is_nearest(candidate_facing(w, 5).1 as int, (s + c) * 707_106_781)
            &&& is_nearest(candidate_facing(w, 3).0 as int, (c + s) * 707_106_781)
            &&& is_nearest(candidate_facing(w, 3).1 as int, (s - c) * 707_106_781)
            &&& is_nearest(candidate_facing(w, 7).0 as int, -(c + s) * 707_106_781)
            &&& is_nearest(candidate_facing(w, 7).1 as int, (c - s) * 707_106_781)
            &&& is_nearest(candidate_facing(w, 1).0 as int, (s - c) * 707_106_781)
            &&& is_nearest(candidate_facing(w, 1).1 as int, -(c + s) * 707_106_781)
        }),
        ({
            let p = ahead_of(
                w.odom@[0] as int,
                w.odom@[1] as int,
                candidate_facing(w, k),
                500_000_000,
            );
            candidate_visits(w, k) == w.grid@.count(patch_of(p.0, p.1))
        }),
{
    let (c, s) = (w.facing.0 as int, w.facing.1 as int);
    lemma_exact(c);
    lemma_exact(s);
    lemma_exact(-c);
    lemma_exact(-s);
    assert(eighth(4) == (1_000_000_000int, 0int) && eighth(6) == (0int, 1_000_000_000int));
    assert(eighth(2) == (0int, -1_000_000_000int) && eighth(0) == (-1_000_000_000int, 0int));
    assert(c * 0 == 0 && s * 0 == 0);
    assert(c * -1_000_000_000 == -c * 1_000_000_000);
    assert(s * -1_000_000_000 == -s * 1_000_000_000);
    law_rounding_is_to_the_nearest((c - s) * 707_106_781, 1_000_000_000);
    law_rounding_is_to_the_nearest((c + s) * 707_106_781, 1_000_000_000);
    law_rounding_is_to_the_nearest((s - c) * 707_106_781, 1_000_000_000);
    law_rounding_is_to_the_nearest(-(c + s) * 707_106_781, 1_000_000_000);
}

/// The nearer of two ranges is one of them and no more than either; nothing is nearer than
/// nothing.
pub proof fn law_nearer_is_the_lesser(a: Option<i64>, b: Option<i64>)
    ensures
        nearer(a, b) == a || nearer(a, b) == b,
        a is Some ==> nearer(a, b) is Some && nearer(a, b)->0 <= a->0,
        b is Some ==> nearer(a, b) is Some && nearer(a, b)->0 <= b->0,
        a is None && b is None ==> nearer(a, b) is None,
{
}

proof fn lemma_bins(r: Radar, bins: Seq<usize>, k: nat, j: int)
    requires
        k <= bins.len(),
    ensures
        0 <= r.reach(bins, k),
        0 <= j < k ==> r.far@[bins[j] as int] <= r.reach(bins, k),
        r.reach(bins, k) > 0 ==> exists|i: int|
            0 <= i < k && r.far@[#[trigger] bins[i] as int] == r.reach(bins, k),
        0 <= j < k ==> (r.range@[bins[j] as int] matches Some(n) ==> (r.closest(
            bins,
            k,
        ) matches Some(m) && m <= n)),
        r.closest(bins, k) is Some ==> exists|i: int|
            0 <= i < k && r.range@[#[trigger] bins[i] as int] == r.closest(bins, k),
    decreases k,
{
    if k > 0 {
        lemma_bins(r, bins, (k - 1) as nat, j);
        let last = bins[k - 1];
        law_nearer_is_the_lesser(r.closest(bins, (k - 1) as nat), r.range@[last as int]);
    }
}

/// Over several bins, the deepest view is the deepest of any of them and the nearest thing the
/// nearest of any.
pub proof fn law_bins_are_taken_together(r: Radar, bins: Seq<usize>, j: int)
    ensures
        ({
            let (far, near) = (r.reach(bins, bins.len()), r.closest(bins, bins.len()));
            &&& 0 <= far
            &&& 0 <= j < bins.len() ==> r.far@[bins[j] as int] <= far
            &&& far > 0 ==> exists|i: int|
                0 <= i < bins.len() && r.far@[#[trigger] bins[i] as int] == far
            &&& 0 <= j < bins.len() && r.range@[bins[j] as int] is Some ==> near is Some && near->0
                <= r.range@[bins[j] as int]->0
            &&& near is Some ==> exists|i: int|
                0 <= i < bins.len() && r.range@[#[trigger] bins[i] as int] == near
        }),
        forall|now: int|
            r.all_fresh(bins, now) <==> forall|i: int|
                0 <= i < bins.len() ==> (r.at@[#[trigger] bins[i] as int] matches Some(t) && now - t
                    <= 3_000_000_000),
{
    lemma_bins(r, bins, bins.len(), j);
    assert forall|now: int|
        r.all_fresh(bins, now) <==> forall|i: int|
            0 <= i < bins.len() ==> (r.at@[#[trigger] bins[i] as int] matches Some(t) && now - t
                <= 3_000_000_000) by {
        assert(forall|b: int|
            r.is_fresh(b, now) <==> (r.at@[b] matches Some(t) && now - t <= 3_000_000_000));
    }
}

/// Every ten minutes the visits of each patch are halved, and the odd one kept.
pub proof fn law_visits_are_halved(g: Novelty, c: (int, int), t: int)
    ensures
        t - g.faded_at < 600_000_000_000 ==> g.faded(t) == g,
        t - g.faded_at >= 600_000_000_000 ==> {
            &&& g.faded(t).faded_at == t
            &&& 2 * g.faded(t).count(c) == g.count(c) || 2 * g.faded(t).count(c) == g.count(c) + 1
            &&& g.faded(t).last == g.last
            &&& g.faded(t).last_new_t == g.last_new_t
        },
{
}

/// A look goes anywhere from a little up to a little down, to either side and a little aslant,
/// each as far as its own draw says; the neck stays.
pub proof fn law_looks_go_anywhere(seed: u64)
    ensures
        ({
            let g = gaze(seed);
            let (a, b, c) = (
                chance(seed),
                chance(reseeded_by(seed, 1)),
                chance(reseeded_by(seed, 2)),
            );
            &&& g.len() == 4
            &&& g[0] == 0
            &&& is_share(g[1] + 300_000_000, 500_000_000, a)
            &&& is_share(g[2] + 900_000_000, 1_800_000_000, b)
            &&& is_share(g[3] + 150_000_000, 300_000_000, c)
        }),
{
    reveal_with_fuel(crate::dice::reseeded_by, 3);
    lemma_share(500_000_000, chance(seed));
    lemma_share(1_800_000_000, chance(reseeded_by(seed, 1)));
    lemma_share(300_000_000, chance(reseeded_by(seed, 2)));
    assert(0 <= crate::dice::drawn(seed) as int / 4096 < 4_503_599_627_370_496);
    let (s, u) = (reseeded_by(seed, 1), reseeded_by(seed, 2));
    assert(0 <= crate::dice::drawn(s) as int / 4096 < 4_503_599_627_370_496);
    assert(0 <= crate::dice::drawn(u) as int / 4096 < 4_503_599_627_370_496);
}

/// `v` is the share `k` of `amount`, rounded down.
pub open spec fn is_share(v: int, amount: int, k: int) -> bool {
    0 <= amount * k - 4_503_599_627_370_496 * v < 4_503_599_627_370_496
}

proof fn lemma_share(amount: int, k: int)
    requires
        0 <= amount <= 2_000_000_000,
    ensures
        is_share(portion(amount, k), amount, k),
        0 <= k < 4_503_599_627_370_496 ==> 0 <= portion(amount, k) <= amount,
{
    let s = 4_503_599_627_370_496int;
    lemma_fundamental_div_mod(amount * k, s);
    if 0 <= k < s {
        let q = amount * k / s;
        assert(0 <= q <= amount) by (nonlinear_arith)
            requires
                0 <= amount,
                0 <= k < s,
                amount * k == s * q + (amount * k) % s,
                0 <= (amount * k) % s < s,
        ;
    }
}

proof fn lemma_luck(seed: u64)
    ensures
        0 <= chance(seed) < 4_503_599_627_370_496,
{
    assert(0 <= crate::dice::drawn(seed) as int / 4096 < 4_503_599_627_370_496);
}

proof fn lemma_next_draw(seed: u64, k: nat)
    ensures
        reseeded_by(seed, k + 1) == reseeded(reseeded_by(seed, k)),
        reseeded_by(seed, 0) == seed,
{
    crate::figures::law_draws_add_up(seed, k, 1);
    crate::figures::law_draws_add_up(reseeded_by(seed, k), 1, 0);
}

/// What a heading is worth: how often its ground was visited, and what it draws.
#[verifier::opaque]
spec fn worth(w: World, k: int) -> u32 {
    candidate_visits(w, k)
}

/// The search, one heading further.
proof fn lemma_searched(w: World, seed: u64, k: nat)
    requires
        !is_refused(w, k as int),
    ensures
        ({
            let best = searched(w, seed, k);
            let next = searched(w, seed, k + 1);
            let tie = 10 * chance(best.seed) - (if k == 4 {
                3 * 4_503_599_627_370_496int
            } else {
                0
            });
            &&& next.seed == reseeded(best.seed)
            &&& worth(w, k as int) < best.visits || worth(w, k as int) == best.visits && tie
                < best.tie ==> next.visits == worth(w, k as int) && next.yaw == candidate_yaw(
                w,
                k as int,
            ) && next.tie == tie
            &&& !(worth(w, k as int) < best.visits || worth(w, k as int) == best.visits && tie
                < best.tie) ==> next.visits == best.visits && next.yaw == best.yaw && next.tie
                == best.tie
        }),
{
    reveal(worth);
}

proof fn lemma_draws(w: World, seed: u64, k: nat)
    requires
        k <= 4,
        forall|j: int| 0 <= j < 8 ==> !#[trigger] is_refused(w, j),
        forall|j: int| 0 <= j < 8 ==> #[trigger] worth(w, j) >= worth(w, 4),
    ensures
        searched(w, seed, k).seed == reseeded_by(seed, k),
        searched(w, seed, k).tie >= 0,
        searched(w, seed, k).visits >= worth(w, 4),
    decreases k,
{
    lemma_next_draw(seed, 0);
    if k > 0 {
        let j = (k - 1) as nat;
        lemma_draws(w, seed, j);
        lemma_searched(w, seed, j);
        lemma_luck(searched(w, seed, j).seed);
        lemma_next_draw(seed, j);
        assert(worth(w, j as int) >= worth(w, 4));
    }
}

proof fn lemma_ahead_stays(w: World, seed: u64, k: nat)
    requires
        4 < k < 8,
        !is_refused(w, k as int),
        worth(w, k as int) >= worth(w, 4),
        ({
            let b = searched(w, seed, k);
            &&& b.yaw == candidate_yaw(w, 4)
            &&& b.tie < 0
            &&& b.visits == worth(w, 4)
            &&& b.seed == reseeded_by(seed, k)
        }),
    ensures
        ({
            let b = searched(w, seed, k + 1);
            &&& b.yaw == candidate_yaw(w, 4)
            &&& b.tie < 0
            &&& b.visits == worth(w, 4)
            &&& b.seed == reseeded_by(seed, k + 1)
        }),
{
    lemma_searched(w, seed, k);
    lemma_luck(searched(w, seed, k).seed);
    lemma_next_draw(seed, k);
}

/// Among headings whose ground is visited as little, chance decides, and leans to the one ahead:
/// at less than three tenths it is the one ahead whatever the others draw.
pub proof fn law_ties_lean_ahead(w: World, seed: u64)
    requires
        forall|k: int| 0 <= k < 8 ==> !#[trigger] is_refused(w, k),
        forall|k: int|
            0 <= k < 8 ==> #[trigger] candidate_visits(w, k) >= candidate_visits(w, 4),
        10 * chance(reseeded_by(seed, 4)) < 3 * 4_503_599_627_370_496,
    ensures
        searched(w, seed, 8).yaw == candidate_yaw(w, 4),
        searched(w, seed, 8).seed == reseeded_by(seed, 8),
{
    assert forall|k: int| 0 <= k < 8 implies #[trigger] worth(w, k) >= worth(w, 4) by {
        reveal(worth);
        assert(candidate_visits(w, k) >= candidate_visits(w, 4));
    }
    lemma_draws(w, seed, 4);
    assert(!is_refused(w, 4));
    lemma_searched(w, seed, 4);
    lemma_next_draw(seed, 4);
    assert(!is_refused(w, 5) && worth(w, 5) >= worth(w, 4));
    lemma_ahead_stays(w, seed, 5);
    assert(!is_refused(w, 6) && worth(w, 6) >= worth(w, 4));
    lemma_ahead_stays(w, seed, 6);
    assert(!is_refused(w, 7) && worth(w, 7) >= worth(w, 4));
    lemma_ahead_stays(w, seed, 7);
}

/// Events are taken in, one after the other, in the order they came.
pub proof fn law_events_are_taken_in_order(
    s: Senses,
    t: i64,
    first: Seq<RobotEvent>,
    later: Seq<RobotEvent>,
    e: RobotEvent,
)
    ensures
        s.after_all(t, first + later, (first + later).len()) == s.after_all(
            t,
            first,
            first.len(),
        ).after_all(t, later, later.len()),
        s.after_all(t, seq![e], 1) == s.after(t, e),
        s.after_all(t, Seq::empty(), 0) == s,
{
    reveal_with_fuel(Senses::after_all, 2);
    lemma_events(s, t, first, first + later, first.len());
    lemma_more_events(s, t, first, later, later.len());
}

proof fn lemma_events(s: Senses, t: i64, a: Seq<RobotEvent>, b: Seq<RobotEvent>, k: nat)
    requires
        k <= a.len() <= b.len(),
        forall|i: int| 0 <= i < k ==> #[trigger] a[i] == b[i],
    ensures
        s.after_all(t, a, k) == s.after_all(t, b, k),
    decreases k,
{
    if k > 0 {
        lemma_events(s, t, a, b, (k - 1) as nat);
        assert(a[k - 1] == b[k - 1]);
    }
}

proof fn lemma_more_events(s: Senses, t: i64, a: Seq<RobotEvent>, b: Seq<RobotEvent>, k: nat)
    requires
        k <= b.len(),
    ensures
        s.after_all(t, a + b, a.len() + k) == s.after_all(t, a, a.len()).after_all(t, b, k),
    decreases k,
{
    if k > 0 {
        lemma_more_events(s, t, a, b, (k - 1) as nat);
        assert((a + b)[a.len() + k - 1] == b[k - 1]);
    } else {
        lemma_events(s, t, a, a + b, a.len());
    }
}

} // verus!

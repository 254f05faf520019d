use braind::behaviours::{Level, Limits};
use braind::maze::{Dir, MazeMap, Side};
use braind::mission::{Mission, Phase};
use braind::world::{Mode, Radar, World, TOF_REACH_M};

fn nano(x: f64) -> i64 {
    (x * 1e9).round() as i64
}

fn limits() -> Limits {
    Limits::for_mode(Mode::Walk, nano(0.3))
}

/// A radar that sees `near` straight along every bin and `deep` at most.
fn sees(w: &mut World, near: Option<f64>, deep: f64) {
    for b in 0..7 {
        w.radar.axis[b] = near.map(nano);
        w.radar.far[b] = nano(deep);
        w.radar.at[b] = Some(w.t);
    }
}

#[test]
fn a_look_a_turn_and_a_walk_make_a_move() {
    let mut w = World::default();
    let mut m = Mission::new(&w);
    // Only the side ahead is unknown at the entrance.
    m.step(&w, limits());
    assert_eq!((m.phase, m.look), (Phase::Glancing, Some(Dir::East)));
    let (i, _) = m.step(&w, limits());
    assert_eq!(i.head.unwrap()[2], Level::flat(0), "straight ahead");
    w.t = nano(1.0);
    sees(&mut w, Some(1.5), 1.6);
    m.step(&w, limits());
    assert_eq!(m.phase, Phase::Planning);
    assert_eq!(m.map.cell((0, 0)).side(Dir::East), Side::Open);
    m.step(&w, limits());
    assert_eq!((m.phase, m.go), (Phase::Turning, Some(Dir::East)));
    m.step(&w, limits());
    assert_eq!(m.phase, Phase::Walking);
    let (i, _) = m.step(&w, limits());
    assert_eq!(i.twist, [nano(0.3), 0, 0]);
    w.t = nano(3.0);
    w.odom[0] = nano(0.8);
    let (i, done) = m.step(&w, limits());
    assert_eq!(i.twist, [0; 3]);
    assert!(!done);
    assert_eq!((m.map.at, m.map.moves, m.phase), ((1, 0), 1, Phase::Planning));
}

#[test]
fn the_glance_to_the_left_reads_the_left_bin() {
    let mut w = World::default();
    let mut m = Mission::new(&w);
    m.map = MazeMap::new();
    m.step(&w, limits());
    assert_eq!(m.look, Some(Dir::North), "left first");
    w.t = nano(0.5);
    let (i, _) = m.step(&w, limits());
    assert_eq!(i.head.unwrap()[2], Level::flat(nano(1.4)));
    assert_eq!(m.phase, Phase::Glancing, "the head has not settled");
    w.t = nano(0.9);
    sees(&mut w, Some(5.0), 5.0);
    w.radar.axis[Radar::LEFT] = Some(nano(0.55));
    w.radar.far[Radar::LEFT] = nano(0.6);
    m.step(&w, limits());
    assert_eq!(m.map.cell((0, 0)).side(Dir::North), Side::Wall);
    // The wall is 0.15 m further off than the cell's edge: the duck is that much south.
    assert_eq!(m.odom_fix, (0, nano(-0.15)));
}

#[test]
fn nothing_at_all_is_the_outside_and_no_frame_a_wall() {
    let mut w = World::default();
    let mut m = Mission::new(&w);
    m.step(&w, limits());
    w.t = nano(1.0);
    sees(&mut w, None, TOF_REACH_M as f64 / 1e9);
    m.step(&w, limits());
    assert_eq!(m.map.cell((0, 0)).side(Dir::East), Side::Outside);
    assert_eq!(m.deep_sides, 1);

    let mut m = Mission::new(&w);
    m.step(&w, limits());
    w.radar.at = [None; 7];
    w.t += nano(2.9);
    m.step(&w, limits());
    assert_eq!(m.phase, Phase::Glancing, "still waiting for a frame");
    w.t += 1;
    m.step(&w, limits());
    assert_eq!(m.map.cell((0, 0)).side(Dir::East), Side::Wall);
}

#[test]
fn a_crooked_duck_squares_up_first() {
    let mut w = World::default();
    w.yaw = nano(0.3);
    let mut m = Mission::new(&w);
    m.step(&w, limits());
    assert_eq!((m.phase, m.go, m.target_yaw), (Phase::Turning, None, 0));
    let (i, _) = m.step(&w, limits());
    assert_eq!(i.twist, [nano(0.3), 0, nano(-0.6)], "right: an arc");
    w.yaw = nano(-0.3);
    let (i, _) = m.step(&w, limits());
    assert_eq!(i.twist, [0, 0, nano(1.0)], "left: in place");
    w.yaw = nano(0.05);
    m.step(&w, limits());
    assert_eq!(m.phase, Phase::Planning);
}

#[test]
fn a_wall_in_the_way_is_remembered() {
    let mut w = World::default();
    let mut m = Mission::new(&w);
    m.map.observe(Dir::East, Side::Open);
    m.phase = Phase::Walking;
    m.go = Some(Dir::East);
    sees(&mut w, Some(0.25), 0.3);
    let (i, _) = m.step(&w, limits());
    assert_eq!(i.twist[0], nano(0.18), "slowly");
    w.t = nano(0.3);
    m.step(&w, limits());
    assert_eq!(m.phase, Phase::Planning);
    assert_eq!(m.map.cell((0, 0)).side(Dir::East), Side::Wall);
    assert_eq!(m.map.moves, 0);
}

#[test]
fn a_stalled_gait_is_nudged_and_a_stalled_move_retried() {
    let mut w = World::default();
    let mut m = Mission::new(&w);
    m.map.observe(Dir::East, Side::Open);
    m.phase = Phase::Walking;
    m.go = Some(Dir::East);
    m.step(&w, limits());
    w.t = nano(2.6);
    m.step(&w, limits());
    assert!(m.kicked);
    w.t = nano(2.7);
    let (i, _) = m.step(&w, limits());
    assert_eq!(i.twist[2], nano(0.6), "a nudge");
    for retry in 1..=2 {
        w.t += nano(12.1);
        m.step(&w, limits());
        assert_eq!(m.retries, retry);
        m.phase = Phase::Walking;
        m.phase_since = w.t;
        m.go = Some(Dir::East);
    }
    w.t += nano(12.1);
    m.step(&w, limits());
    assert_eq!(m.retries, 0);
    assert_eq!(m.map.cell((0, 0)).side(Dir::East), Side::Wall, "it keeps failing");
}

#[test]
fn a_contradiction_is_looked_at_again_and_then_given_up() {
    let w = World::default();
    let mut m = Mission::new(&w);
    m.map.observe(Dir::East, Side::Wall);
    for stucks in 1..=3 {
        let (_, done) = m.step(&w, limits());
        assert!(!done);
        assert_eq!(m.stucks, stucks);
        assert_eq!(m.map.cell((0, 0)).side(Dir::East), Side::Unknown, "forgotten");
        for d in Dir::ALL {
            m.map.observe(d, Side::Wall);
        }
    }
    let (i, done) = m.step(&w, limits());
    assert!(done && i.sound.is_none());
}

#[test]
fn a_duck_off_the_centre_line_steers_back() {
    let mut w = World::default();
    let mut m = Mission::new(&w);
    m.map.observe(Dir::East, Side::Open);
    m.phase = Phase::Walking;
    m.go = Some(Dir::East);
    w.odom[1] = nano(0.1); // to the left of the line
    let (i, _) = m.step(&w, limits());
    assert_eq!(i.twist[2], nano(-0.1));
}

#[test]
fn the_duck_turns_round_to_look_behind() {
    let w = World::default();
    let mut m = Mission::new(&w);
    m.map = MazeMap::new();
    for d in [Dir::East, Dir::North, Dir::South] {
        m.map.observe(d, Side::Wall);
    }
    m.step(&w, limits());
    assert_eq!((m.phase, m.go), (Phase::Turning, None));
    assert_eq!(m.target_yaw, Dir::West.yaw());
    // Round about, the side is straight ahead and is glanced at.
    let mut w = World::default();
    w.yaw = Dir::West.yaw();
    m.step(&w, limits());
    assert_eq!(m.phase, Phase::Planning);
    m.step(&w, limits());
    assert_eq!((m.phase, m.look), (Phase::Glancing, Some(Dir::West)));
}

#[test]
fn the_walls_are_forgotten_once_an_entry() {
    let mut w = World::default();
    let mut m = Mission::new(&w);
    m.map.observe(Dir::East, Side::Open);
    for _ in 0..4 {
        m.map.moved(Dir::East, (1, 0));
        m.map.moved(Dir::West, (0, 0));
    }
    assert_eq!(m.map.cell((0, 0)).visits, 5);
    w.yaw = Dir::West.yaw();
    m.step(&w, limits());
    assert_eq!(m.stucks, 1);
    assert_eq!((m.phase, m.look), (Phase::Glancing, Some(Dir::South)), "left first");
    m.map.observe(Dir::South, Side::Wall);
    m.map.observe(Dir::West, Side::Wall);
    m.map.observe(Dir::North, Side::Open);
    m.phase = Phase::Planning;
    m.step(&w, limits());
    assert_eq!(m.stucks, 1, "not again");
    assert_eq!((m.phase, m.go), (Phase::Turning, Some(Dir::North)), "by what it saw");
}

#[test]
fn a_slowed_duck_never_stands_still() {
    let mut w = World::default();
    let mut m = Mission::new(&w);
    m.map.observe(Dir::East, Side::Open);
    m.phase = Phase::Walking;
    m.go = Some(Dir::East);
    m.target_yaw = nano(-0.3);
    sees(&mut w, Some(0.5), 0.6);
    let crawl = Limits {
        linear: 1,
        angular: nano(1.0),
    };
    let (i, _) = m.step(&w, crawl);
    assert_eq!(i.twist, [1, 0, nano(-0.45)]);
}

#[test]
fn a_glance_at_the_end_of_the_coordinate_range_is_kept() {
    let mut w = World::default();
    let mut m = Mission::new(&w);
    m.map = MazeMap::new();
    w.odom = [i64::MAX, 0, 0];
    m.step(&w, limits());
    assert_eq!(m.map.at, (i32::MAX, 0));
    m.look = Some(Dir::East);
    m.phase = Phase::Glancing;
    w.t = nano(1.0);
    sees(&mut w, Some(0.3), 0.35);
    m.step(&w, limits());
    assert_eq!(m.phase, Phase::Planning);
    assert_eq!(m.map.cell((i32::MAX, 0)).side(Dir::East), Side::Wall);
}

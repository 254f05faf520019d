use braind::proto::{
    EventKind, Movement, Odom, RobotEvent, RobotState, Safety, TofFrame,
};
use braind::room::Cell;
use braind::tof::{Zone, COLS};
use braind::world::{summarise, NoveltyGrid, Radar, Scan, Stale, World, TOF_REACH_M};

fn nano(x: f64) -> i64 {
    (x * 1e9).round() as i64
}

/// The cosine and sine of a heading.
fn facing(yaw: f64) -> (i32, i32) {
    ((yaw.cos() * 1e9).round() as i32, (yaw.sin() * 1e9).round() as i32)
}

#[test]
fn novelty_counts_cells_not_ticks() {
    let mut g = NoveltyGrid::default();
    assert!(g.visit(nano(0.0), nano(0.0), nano(1.0)));
    assert!(!g.visit(nano(0.05), nano(0.05), nano(2.0)), "same cell, no new visit");
    assert!(g.visit(nano(0.3), nano(0.0), nano(3.0)), "next cell over");
    assert!(!g.visit(nano(0.0), nano(0.0), nano(4.0)), "back home: known");
    assert_eq!(g.visits(nano(0.0), nano(0.0)), 2);
    assert_eq!(g.cells_seen(), 2);
    assert_eq!(g.last_new_t, nano(3.0));
    assert_eq!(g.visits_ahead(nano(0.0), nano(0.0), facing(0.0), nano(0.3)), 1);
    assert_eq!(
        g.visits_ahead(
            nano(0.0),
            nano(0.0),
            facing(std::f64::consts::FRAC_PI_2),
            nano(0.3)
        ),
        0
    );
}

fn hit(range: f64) -> Zone {
    Zone::Hit {
        point: [0; 3],
        range: nano(range),
    }
}

#[test]
fn sectors_take_the_nearest_hit_and_flag_the_floor() {
    let mut zones = [Zone::Empty; 64];
    zones[0] = hit(0.9); // left, row 0
    zones[COLS + 1] = hit(0.4); // left, row 1
    zones[3] = hit(1.2); // center
    zones[7 * COLS + 3] = Zone::Floor { point: [0; 3] };
    zones[7 * COLS + 4] = Zone::Floor { point: [0; 3] };
    zones[6] = Zone::TooClose;
    let o = summarise(&zones, nano(0.1));
    assert_eq!(o.left, Some(nano(0.4)));
    assert_eq!(o.center, Some(nano(1.2)));
    assert_eq!(o.right, None);
    assert!(o.too_close);
    assert!(o.floor_ahead);
    assert!(o.fresh());
    assert_eq!(o.nearest(), Some(nano(0.4)));
    let stale = summarise(&zones, nano(2.0));
    assert!(!stale.fresh());
}

#[test]
fn a_near_thing_ahead_hides_the_floor() {
    let mut zones = [Zone::Empty; 64];
    zones[7 * COLS + 3] = Zone::Floor { point: [0; 3] };
    zones[7 * COLS + 4] = Zone::Floor { point: [0; 3] };
    assert!(summarise(&zones, 0).floor_ahead);
    zones[3] = hit(0.4);
    assert!(!summarise(&zones, 0).floor_ahead);
    zones[3] = Zone::Empty;
    zones[7 * COLS + 4] = Zone::Empty;
    assert!(!summarise(&zones, 0).floor_ahead, "one floor zone is not enough");
}

#[test]
fn events_become_ages_company_and_beats() {
    let mut w = World {
        t: nano(100.0),
        ..Default::default()
    };
    let ev = |kind, id| RobotEvent { kind, id };
    w.observe_events(&[
        ev(EventKind::PetStart, None),
        ev(EventKind::DuckSeen, Some(7)),
    ]);
    assert!(w.petting());
    assert_eq!(w.company(), 1);
    assert_eq!(w.greet_pending, Some((7, true)), "a stranger");
    w.known_ducks.insert(7);
    w.t = nano(101.0);
    w.observe_events(&[
        ev(EventKind::PetEnd, None),
        ev(EventKind::DuckSeen, Some(7)),
    ]);
    assert!(!w.petting());
    assert_eq!(w.greet_pending, Some((7, false)), "a friend now");
    for k in 0..4 {
        w.t = nano(102.0 + 0.5 * k as f64);
        w.observe_events(&[ev(EventKind::Beat, None)]);
    }
    assert_eq!(w.beat_period(), Some(nano(0.5) as i128));
    w.t = nano(110.0);
    assert!(w.beat_period().is_none(), "beats went stale");
    assert_eq!(w.alone_for(), nano(9.0) as i128);
    w.observe_events(&[ev(EventKind::DuckLost, Some(7))]);
    assert_eq!(w.company(), 0);
}

#[test]
fn only_eight_beats_are_kept_and_ages_run_on() {
    let mut w = World::default();
    let ev = |kind| RobotEvent { kind, id: None };
    assert_eq!(w.noise_age(), None);
    assert_eq!(w.voice_age(), None);
    for k in 0..12 {
        w.t = k * 100_000_000;
        w.observe_events(&[ev(EventKind::Beat)]);
    }
    assert_eq!(w.beats.len(), 8);
    assert_eq!(w.beats[0], 400_000_000);
    assert_eq!(w.beat_period(), Some(100_000_000));
    w.observe_events(&[ev(EventKind::SoundNoise), ev(EventKind::SoundVoice)]);
    w.t += 250_000_000;
    assert_eq!(w.noise_age(), Some(250_000_000));
    assert_eq!(w.voice_age(), Some(250_000_000));
    assert_eq!(w.alone_for(), 250_000_000);
}

#[test]
fn company_is_whoever_was_heard_of_lately() {
    let mut w = World::default();
    for id in 0..5u16 {
        w.t = nano(id as f64 * 3.0);
        w.observe_events(&[RobotEvent {
            kind: EventKind::DuckSeen,
            id: Some(id),
        }]);
    }
    w.t = nano(15.0);
    // Seen at 0, 3, 6, 9 and 12 s: the last three are within ten seconds.
    assert_eq!(w.company(), 3);
    w.observe_events(&[RobotEvent {
        kind: EventKind::DuckSeen,
        id: None,
    }]);
    assert_eq!(w.company(), 3, "a duck without a number is no duck");
}

#[test]
fn standing_means_a_policy_is_holding_it_up() {
    let mut w = World {
        policy: "stand".into(),
        ..Default::default()
    };
    assert!(w.standing() && !w.busy());
    w.policy = "rise".into();
    assert!(!w.standing() && w.busy());
    w.policy = "walk".into();
    w.fallen = true;
    assert!(!w.standing());
}

#[test]
fn a_state_frame_is_folded_in() {
    let mut w = World::default();
    let mut s = RobotState {
        t: nano(1.5),
        policy: "walk".into(),
        safety: Safety {
            fallen: false,
            limp: false,
            gravity: [0, 0, -1_000_000_000],
        },
        odom: Odom {
            position: [nano(0.6), nano(-0.1), nano(0.12)],
            yaw: nano(0.5),
            facing: facing(0.5),
        },
        head: [1, 2, 3, 4],
        joints: (0..15).map(|j| j * 1000).collect(),
        movement: Movement {
            requested: [nano(0.3), 0, 0],
        },
    };
    w.observe_state(&s);
    assert!(w.have_state && w.standing());
    assert_eq!(w.head, [5000, 6000, 7000, 8000], "the measured head joints");
    assert_eq!(w.grid.visits(nano(0.6), nano(-0.1)), 1);
    assert_eq!(w.trunk_height(), Some(nano(0.12)));
    s.policy = "sit".into();
    s.joints.truncate(8);
    s.odom.position = [nano(2.0), 0, nano(0.02)];
    w.observe_state(&s);
    assert!(w.sitting());
    assert_eq!(w.head, [5000, 6000, 7000, 8000], "kept: the frame is short");
    assert_eq!(w.grid.cells_seen(), 1, "a seated duck visits nothing");
    assert_eq!(w.trunk_height(), None);
}

#[test]
fn only_trustworthy_ranges_count() {
    let frame = TofFrame {
        distance_mm: vec![1200, 0, -5, 800, 700],
        status: vec![5, 5, 5, 255, 9],
    };
    let r = frame.ranges();
    assert_eq!(r[0], Some(nano(1.2)));
    assert_eq!(r[1], None);
    assert_eq!(r[2], None);
    assert_eq!(r[3], None, "no return");
    assert_eq!(r[4], Some(nano(0.7)));
    assert!(r[5..].iter().all(|v| v.is_none()), "a short frame");
}

#[test]
fn bearings_fall_in_thirty_degree_bins() {
    let bin = |deg: f64| Radar::bin_of(nano(deg.to_radians()));
    assert_eq!(bin(0.0), Some(Radar::AHEAD));
    assert_eq!(bin(14.9), Some(3));
    assert_eq!(bin(15.1), Some(4));
    assert_eq!(bin(90.0), Some(Radar::LEFT));
    assert_eq!(bin(-90.0), Some(Radar::RIGHT));
    assert_eq!(bin(104.9), Some(6));
    assert_eq!(bin(105.1), None);
    assert_eq!(bin(-105.1), None);
}

/// A frame of level beams straight ahead, all finding `zone`.
fn scan(zone: Zone) -> Scan {
    Scan {
        zones: [zone; 64],
        dirs: [[1_000_000_000, 0, 0]; 64],
        bearings: [0; 64],
        sensor: [nano(0.05), 0, nano(0.2)],
    }
}

#[test]
fn the_radar_remembers_the_glances() {
    let mut w = World {
        t: nano(10.0),
        ..Default::default()
    };
    assert!(!w.radar.fresh(Radar::AHEAD, w.t), "never looked");
    assert_eq!(w.radar.deepest(&[Radar::AHEAD], w.t), Err(Stale));
    let mut s = scan(Zone::Hit {
        point: [nano(1.0), 0, nano(0.2)],
        range: nano(1.0),
    });
    s.zones[1] = hit(0.8);
    s.bearings[1] = nano(10f64.to_radians());
    s.zones[2] = Zone::Empty;
    s.zones[3] = hit(0.1);
    s.dirs[3] = [0, 0, 100_000_000]; // looks over the walls: no vote
    w.observe_tof(&s, 0);
    assert_eq!(w.radar.nearest(&[Radar::AHEAD], w.t), Ok(Some(nano(0.8))));
    assert_eq!(w.radar.axis[Radar::AHEAD], Some(nano(1.0)), "10° is off the axis");
    assert_eq!(w.radar.deepest(&[Radar::AHEAD], w.t), Ok(TOF_REACH_M));
    assert_eq!(w.radar.nearest(&[Radar::AHEAD, Radar::LEFT], w.t), Err(Stale));
    w.t = nano(13.0);
    assert!(w.radar.fresh(Radar::AHEAD, w.t));
    w.t = nano(13.1);
    assert!(!w.radar.fresh(Radar::AHEAD, w.t));
}

#[test]
fn the_room_is_mapped_from_fresh_frames_while_standing() {
    let mut w = World::default();
    let s = scan(Zone::Hit {
        point: [nano(1.0), 0, nano(0.2)],
        range: nano(1.0),
    });
    w.observe_tof(&s, 0);
    assert_eq!(w.room.integrated, 0, "not standing");
    w.policy = "stand".into();
    w.observe_tof(&s, nano(0.6));
    assert_eq!(w.room.integrated, 0, "stale");
    w.observe_tof(&s, nano(0.5));
    assert_eq!(w.room.integrated, 1);
    assert_eq!(w.room.cell_at(nano(1.0), 0), Cell::Occupied);
    assert_eq!(w.room.cell_at(nano(0.5), 0), Cell::Free);
    w.lose_tof();
    assert!(!w.obstacles.fresh());
    assert_eq!(w.obstacles.center, Some(nano(1.0)));
}

#[test]
fn visits_fade_and_are_not_forgotten() {
    let mut w = World {
        policy: "stand".into(),
        ..Default::default()
    };
    for _ in 0..5 {
        w.grid.visit(0, 0, 0);
        w.grid.visit(nano(1.0), 0, 0);
    }
    w.grid.fade(nano(599.0));
    assert_eq!(w.grid.visits(0, 0), 5, "not yet");
    w.grid.fade(nano(600.0));
    assert_eq!(w.grid.visits(0, 0), 3);
    w.grid.fade(nano(1100.0));
    assert_eq!(w.grid.visits(0, 0), 3, "ten minutes from the last time");
    for k in 2..9 {
        w.grid.fade(nano(600.0 * k as f64));
    }
    assert_eq!(w.grid.visits(0, 0), 1);
    assert_eq!(w.grid.cells_seen(), 2);
    w.grid.visit(nano(1.0), 0, nano(5000.0));
    assert!(!w.grid.visit(0, 0, nano(5001.0)), "still a known cell");
}

#[test]
fn a_full_count_matters_only_where_a_visit_counts() {
    let mut g = NoveltyGrid::default();
    g.visit(0, 0, 0);
    g.cells.put((0, 0), u32::MAX);
    assert!(g.has_room_at(0, 0), "a stay counts for nothing");
    assert!(!g.visit(0, 0, nano(1.0)));
    assert_eq!(g.visits(0, 0), u32::MAX);
    g.visit(nano(5.0), 0, nano(2.0));
    assert!(!g.has_room_at(0, 0), "coming back would count");
    assert!(g.has_room_at(nano(9.0), 0));
    let mut w = World { grid: g, ..Default::default() };
    let s = RobotState {
        t: nano(3.0),
        policy: "sit".into(),
        safety: Safety { fallen: false, limp: false, gravity: [0, 0, nano(-1.0)] },
        odom: Odom { position: [0, 0, 0], yaw: 0, facing: facing(0.0) },
        head: [0; 4],
        joints: vec![],
        movement: Movement { requested: [0; 3] },
    };
    w.observe_state(&s);
    assert_eq!(w.grid.visits(0, 0), u32::MAX, "a seated duck visits nothing");
}

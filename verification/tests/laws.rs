use braind::arbiter::{Arbiter, Status};
use braind::behaviours::{score, Kind, Limits};
use braind::dice::Dice;
use braind::drives::{Drives, ONE};
use braind::maze::Dir;
use braind::mission::{Mission, Phase};
use braind::proto::{EventKind, RobotEvent};
use braind::room::{Cell, RoomMap};
use braind::tof::{Zone, FARTHEST};
use braind::world::{Mode, Obstacles, Radar, Scan, World};

fn nano(x: f64) -> i64 {
    (x * 1e9).round() as i64
}

/// The direction of a point.
fn bearing(dy: i128, dx: i128) -> i64 {
    ((dy as f64).atan2(dx as f64) * 1e9).round() as i64
}

fn standing(t: f64) -> World {
    World {
        t: nano(t),
        policy: "stand".into(),
        have_state: true,
        obstacles: Obstacles {
            age_s: Some(nano(0.1)),
            center: Some(nano(2.0)),
            floor_ahead: true,
            ..Default::default()
        },
        ..Default::default()
    }
}

fn limits() -> Limits {
    Limits::for_mode(Mode::Walk, nano(0.3))
}

fn bids(w: &World, d: &Drives, seed: u64) -> Vec<(Kind, Option<i128>)> {
    let mut rng = Dice::with_seed(seed);
    Kind::ALL
        .into_iter()
        .map(|k| (k, score(k, w, d, &mut rng, None)))
        .collect()
}

#[test]
fn a_mission_outbids_all_and_a_hand_all_but_the_mission() {
    let mut w = standing(10.0);
    w.maze = true;
    w.obstacles.too_close = true;
    w.observe_events(&[
        RobotEvent {
            kind: EventKind::PetStart,
            id: None,
        },
        RobotEvent {
            kind: EventKind::DuckSeen,
            id: Some(1),
        },
    ]);
    let d = Drives::default();
    for seed in 0..20 {
        let all = bids(&w, &d, seed);
        let of = |kind| all.iter().find(|b| b.0 == kind).unwrap().1.unwrap();
        for (k, s) in &all {
            assert!(*k == Kind::Maze || *s < Some(of(Kind::Maze)), "{k:?}");
            if *k != Kind::Maze && *k != Kind::Petted {
                assert!(*s < Some(of(Kind::Petted)), "{k:?}");
            }
        }
        assert!(of(Kind::Petted) > of(Kind::Startle));
    }
}

#[test]
fn a_stale_frame_says_nothing() {
    let mut w = standing(10.0);
    w.maze = true;
    w.obstacles.too_close = true;
    w.obstacles.age_s = Some(nano(0.5) + 1);
    for (k, s) in bids(&w, &Drives::default(), 3) {
        if matches!(
            k,
            Kind::Wander
                | Kind::TurnInPlace
                | Kind::Zoomies
                | Kind::Startle
                | Kind::GroundPick
                | Kind::Maze
        ) {
            assert_eq!(s, None, "{k:?}");
        }
    }
    w.obstacles.age_s = Some(nano(0.5));
    assert!(bids(&w, &Drives::default(), 3)
        .iter()
        .any(|b| b.0 == Kind::Startle && b.1.is_some()));
}

#[test]
fn the_best_bid_of_the_first_round_wins() {
    for seed in 0..30 {
        let w = standing(0.0);
        let mut a = Arbiter::new(seed, true);
        let all = bids(&w, &a.drives, seed);
        let d = a.tick(&w, limits(), &bearing);
        let Status::Active(won) = d.status else {
            panic!("{:?}", d.status)
        };
        let bid = all.iter().find(|b| b.0 == won).unwrap().1;
        for (k, s) in all {
            assert!(s <= bid, "{k:?} outbid {won:?}");
        }
    }
}

#[test]
fn a_long_day_keeps_twists_and_drives_in_bounds() {
    let mut a = Arbiter::new(3, true);
    let mut w = standing(0.0);
    let mut switches = Vec::new();
    for k in 0..12_000 {
        w.t = nano(k as f64 * 0.05);
        w.yaw = nano((k as f64 * 0.01).sin());
        w.obstacles.center = if k % 600 < 40 {
            Some(nano(0.2))
        } else {
            Some(nano(2.0))
        };
        w.move_requested = a.last_sent_twist;
        let d = a.tick(&w, limits(), &bearing);
        if let Some((_, Some(to))) = d.changed {
            switches.push((w.t, to));
        }
        if let Some(i) = d.intents {
            assert!(i.twist[0].abs() <= nano(0.3));
            assert_eq!(i.twist[1], 0);
            assert!(i.twist[2].abs() <= nano(1.0));
            assert!(i.twist[0] == 0 || i.twist[2].abs() <= nano(0.6), "{i:?}");
        }
        for v in [
            a.drives.energy,
            a.drives.curiosity,
            a.drives.social,
            a.drives.comfort,
        ] {
            assert!((0..=ONE).contains(&v));
        }
    }
    assert!(switches.len() > 20, "{switches:?}");
    for pair in switches.windows(2) {
        assert!(pair[1].0 - pair[0].0 >= nano(0.25), "{pair:?}");
    }
}

#[test]
fn a_wall_far_off_the_edge_shifts_the_odometry_by_a_quarter_metre() {
    let mut w = World::default();
    let mut m = Mission::new(&w);
    m.step(&w, limits());
    assert_eq!((m.phase, m.look), (Phase::Glancing, Some(Dir::East)));
    w.t = nano(1.0);
    w.radar.axis[Radar::AHEAD] = Some(nano(0.69));
    w.radar.far[Radar::AHEAD] = nano(0.7);
    w.radar.at[Radar::AHEAD] = Some(w.t);
    m.step(&w, limits());
    assert_eq!(m.odom_fix, (nano(-0.25), 0));
}

#[test]
fn a_replaced_behaviour_waits_out_its_cooldown() {
    let mut a = Arbiter::new(1, true);
    a.switch_to(Kind::Stretch, 0, &standing(0.0));
    let mut last = None;
    for k in 1..4_000 {
        let mut w = standing(k as f64 * 0.05);
        w.move_requested = a.last_sent_twist;
        let d = a.tick(&w, limits(), &bearing);
        match d.changed {
            Some((Some(Kind::Stretch), _)) => last = Some(w.t),
            Some((_, Some(Kind::Stretch))) => {
                if let Some(left) = last {
                    assert!(w.t - left >= nano(20.0), "{} {left}", w.t);
                }
            }
            _ => {}
        }
    }
    assert!(last.is_some());
}

#[test]
fn events_have_names() {
    for (name, kind) in [
        ("sound_noise", EventKind::SoundNoise),
        ("sound_voice", EventKind::SoundVoice),
        ("pet_start", EventKind::PetStart),
        ("pet_end", EventKind::PetEnd),
        ("beat", EventKind::Beat),
        ("duck_seen", EventKind::DuckSeen),
        ("duck_lost", EventKind::DuckLost),
    ] {
        assert_eq!(EventKind::named(name), Some(kind));
    }
    assert_eq!(EventKind::named("duck"), None);
}

#[test]
fn a_frame_out_of_reach_is_told() {
    let mut scan = Scan {
        zones: [Zone::Empty; 64],
        dirs: [[1_000_000_000, 0, 0]; 64],
        bearings: [0; 64],
        sensor: [0, 0, 0],
    };
    assert!(scan.reaches());
    scan.zones[63] = Zone::Floor {
        point: [FARTHEST - 1, -FARTHEST, i64::MAX],
    };
    assert!(scan.reaches());
    scan.zones[63] = Zone::Hit {
        point: [0, FARTHEST, 0],
        range: 0,
    };
    assert!(!scan.reaches());
}

#[test]
fn a_fresh_map_knows_nothing() {
    let m = RoomMap::default();
    assert_eq!(m.cell((0, 0)), Cell::Unknown);
    assert_eq!(m.counts(), (0, 0));
    assert_eq!(m.integrated, 0);
}

#[test]
fn a_line_of_a_bench_file_is_an_event() {
    let event = |kind, id| Some(RobotEvent { kind, id });
    for (line, e) in [
        ("pet_start\n", event(EventKind::PetStart, None)),
        ("duck_seen 7\n", event(EventKind::DuckSeen, Some(7))),
        ("  duck_lost\t65535 \r\n", event(EventKind::DuckLost, Some(65_535))),
        ("duck_seen 65536", event(EventKind::DuckSeen, None)),
        ("duck_seen 99999999999999", event(EventKind::DuckSeen, None)),
        ("duck_seen seven", event(EventKind::DuckSeen, None)),
        ("duck_seen 007 8", event(EventKind::DuckSeen, Some(7))),
        ("beat", event(EventKind::Beat, None)),
        ("duck\n", None),
        ("quack·1", None),
        ("\n", None),
        ("", None),
    ] {
        assert_eq!(RobotEvent::from_line(line), e, "{line:?}");
    }
}

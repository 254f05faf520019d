use braind::active::Active;
use braind::behaviours::{can_bid, score, Kind, Level, Limits};
use braind::dice::{Dice, STEPS};
use braind::drives::{Drives, ONE};
use braind::heading::{pick_heading, random_gaze};
use braind::proto::{EventKind, RobotEvent, Skill, SoundTag};
use braind::tof::Zone;
use braind::world::{Mode, Obstacles, Scan, World};

fn nano(x: f64) -> i64 {
    (x * 1e9).round() as i64
}

/// The direction of a point.
fn bearing(dy: i128, dx: i128) -> i64 {
    ((dy as f64).atan2(dx as f64) * 1e9).round() as i64
}

/// A bid of so many hundredths.
fn hundredths(h: i128) -> i128 {
    h * ONE as i128 * STEPS as i128
}

fn part(x: f64) -> i64 {
    (x * ONE as f64).round() as i64
}

fn standing() -> World {
    World {
        policy: "stand".into(),
        obstacles: Obstacles {
            age_s: Some(nano(0.1)),
            center: Some(nano(2.0)),
            floor_ahead: true,
            ..Default::default()
        },
        ..Default::default()
    }
}

fn event(kind: EventKind, id: Option<u16>) -> RobotEvent {
    RobotEvent { kind, id }
}

#[test]
fn nothing_bids_while_the_robot_is_down_except_nap() {
    let mut rng = Dice::with_seed(1);
    let w = World {
        policy: "held".into(),
        ..Default::default()
    };
    let d = Drives::default();
    for k in Kind::ALL {
        assert!(
            score(k, &w, &d, &mut rng, None).is_none(),
            "{k:?} bid on a held robot"
        );
    }
    let w = World {
        policy: "sit".into(),
        ..Default::default()
    };
    for k in Kind::ALL {
        assert_eq!(
            score(k, &w, &d, &mut rng, None).is_some(),
            k == Kind::Nap,
            "{k:?} on a sitting robot"
        );
    }
}

#[test]
fn a_wall_ahead_turns_wander_into_turn_in_place() {
    let mut rng = Dice::with_seed(2);
    let mut w = standing();
    let d = Drives::default();
    assert!(score(Kind::Wander, &w, &d, &mut rng, None).is_some());
    w.obstacles.center = Some(nano(0.2));
    assert!(score(Kind::Wander, &w, &d, &mut rng, None).is_none());
    assert!(score(Kind::TurnInPlace, &w, &d, &mut rng, None).unwrap() > hundredths(70));
}

#[test]
fn a_sudden_close_thing_is_a_startle_and_a_stale_frame_is_not() {
    let mut rng = Dice::with_seed(3);
    let mut w = standing();
    let d = Drives::default();
    assert!(score(Kind::Startle, &w, &d, &mut rng, Some(nano(2.0))).is_none());
    w.obstacles.center = Some(nano(0.4));
    assert_eq!(
        score(Kind::Startle, &w, &d, &mut rng, Some(nano(2.0))),
        Some(hundredths(150))
    );
    w.head[2] = nano(0.3);
    assert!(
        score(Kind::Startle, &w, &d, &mut rng, Some(nano(2.0))).is_none(),
        "a startle needs a straight head"
    );
    w.head[2] = 0;
    w.obstacles.age_s = Some(nano(3.0));
    assert!(score(Kind::Startle, &w, &d, &mut rng, Some(nano(2.0))).is_none());
}

#[test]
fn low_energy_makes_nap_the_obvious_choice() {
    let mut rng = Dice::with_seed(4);
    let w = standing();
    let d = Drives {
        energy: part(0.1),
        ..Default::default()
    };
    let nap = score(Kind::Nap, &w, &d, &mut rng, None).unwrap();
    for k in Kind::ALL {
        if k == Kind::Nap || k == Kind::Startle {
            continue;
        }
        if let Some(s) = score(k, &w, &d, &mut rng, None) {
            assert!(s < nap, "{k:?} {s} outbid nap {nap}");
        }
    }
}

#[test]
fn bids_are_what_the_drives_and_the_dice_make_them() {
    let w = standing();
    let d = Drives {
        energy: part(0.75),
        curiosity: part(0.5),
        social: part(0.3),
        comfort: part(0.25),
    };
    let seed = 11;
    let mut die = Dice::with_seed(seed);
    let k = die.fraction() as i128;
    let thrown = |kind| {
        let mut rng = Dice::with_seed(seed);
        let s = score(kind, &w, &d, &mut rng, None).unwrap();
        assert_eq!(rng.seed, die.seed, "one throw");
        s
    };
    let jitter = |h: i128| h * ONE as i128 * k;
    assert_eq!(thrown(Kind::Chill), 2 * hundredths(75) / 4 + jitter(15));
    assert_eq!(thrown(Kind::LookAround), hundredths(45) + jitter(20));
    assert_eq!(thrown(Kind::Wander), (hundredths(250 + 275 + 150)) / 10 + jitter(10));
    assert_eq!(thrown(Kind::TurnInPlace), hundredths(20) + jitter(15));
    assert_eq!(thrown(Kind::Zoomies), hundredths(3500 + 3375) / 100 + jitter(35));
    assert_eq!(thrown(Kind::Stretch), hundredths(225) / 10 + jitter(35));
    assert_eq!(thrown(Kind::Sneeze), hundredths(5) + jitter(45));
    assert_eq!(thrown(Kind::Nap), hundredths(1125) / 100 + jitter(5));
    assert_eq!(thrown(Kind::GroundPick), hundredths(40) + jitter(30));
    let mut rng = Dice::with_seed(seed);
    let maze = World {
        maze: true,
        ..standing()
    };
    assert_eq!(
        score(Kind::Maze, &maze, &d, &mut rng, None),
        Some(hundredths(200))
    );
    assert_eq!(rng.seed, seed, "a mission does not throw");
    let lonely = World {
        t: nano(180.0),
        ..standing()
    };
    assert_eq!(
        score(Kind::Lonely, &lonely, &d, &mut rng, None),
        Some(hundredths(25) + jitter(25))
    );
    assert!(!can_bid(Kind::Lonely, &standing(), &d, None), "not alone for long");
}

#[test]
fn the_dice_are_those_of_the_generator() {
    let mut rng = fastrand::Rng::with_seed(7);
    let mut dice = Dice::with_seed(7);
    for _ in 0..100 {
        assert_eq!(dice.fraction() as f64 / STEPS as f64, rng.f64());
    }
    assert_ne!(dice.seed, 7);
}

#[test]
fn wander_drives_toward_its_heading_and_stops_at_a_wall() {
    let mut rng = Dice::with_seed(5);
    let mut w = standing();
    let limits = Limits::for_mode(Mode::Walk, nano(0.3));
    let mut a = Active::enter(Kind::Wander, &w, &mut rng);
    a.target_yaw = w.yaw + nano(0.5);
    let step = a.tick(&w, limits, &mut rng, &bearing);
    assert!(step.intents.twist[0] > nano(0.29) && step.intents.twist[2] > 0);
    assert!(!step.done);
    w.obstacles.center = Some(nano(0.3));
    w.t = nano(2.0);
    let step = a.tick(&w, limits, &mut rng, &bearing);
    assert_eq!(step.intents.twist[0], 0);
    assert!(step.done);
}

#[test]
fn wander_slows_down_near_things_and_steers_within_bounds() {
    let mut rng = Dice::with_seed(5);
    let mut w = standing();
    let limits = Limits::for_mode(Mode::Walk, nano(0.5));
    assert_eq!(limits.linear, nano(0.5));
    let mut a = Active::enter(Kind::Wander, &w, &mut rng);
    a.target_yaw = nano(0.2);
    w.obstacles.center = Some(nano(0.5));
    let step = a.tick(&w, limits, &mut rng, &bearing);
    assert_eq!(step.intents.twist, [nano(0.25), 0, nano(0.3)]);
    assert_eq!(
        step.intents.head,
        Some([
            Level::flat(0),
            Level::flat(nano(0.15)),
            Level::flat(nano(0.1)),
            Level::flat(0)
        ])
    );
    a.target_yaw = nano(-2.0);
    let step = a.tick(&w, limits, &mut rng, &bearing);
    assert_eq!(step.intents.twist[2], nano(-0.6));
}

#[test]
fn wander_steers_at_the_frontier() {
    let mut rng = Dice::with_seed(5);
    let mut w = standing();
    // Floor in a line to the left: the frontier is that way.
    let floor = Scan {
        zones: [Zone::Floor {
            point: [0, nano(1.2), 0],
        }; 64],
        dirs: [[0, 1_000_000_000, 0]; 64],
        bearings: [nano(std::f64::consts::FRAC_PI_2); 64],
        sensor: [0, 0, nano(0.2)],
    };
    w.observe_tof(&floor, 0);
    w.obstacles.center = Some(nano(2.0));
    let limits = Limits::for_mode(Mode::Walk, nano(0.3));
    let mut a = Active::enter(Kind::Wander, &w, &mut rng);
    let step = a.tick(&w, limits, &mut rng, &bearing);
    assert!(a.plan.is_some());
    assert!(
        (a.target_yaw - nano(std::f64::consts::FRAC_PI_2)).abs() < nano(0.2),
        "{}",
        a.target_yaw
    );
    assert_eq!(step.intents.twist[2], nano(0.6), "hard left");
    // The same tick with another bearing steers by that bearing.
    let mut b = Active::enter(Kind::Wander, &w, &mut rng);
    assert!(b.ready(&w).is_some());
    let step = b.advance(&w, limits, &mut rng, Some(nano(-0.1)));
    assert_eq!(step.intents.twist[2], nano(-0.15));
}

#[test]
fn heading_prefers_the_unvisited_cell() {
    let mut rng = Dice::with_seed(6);
    let mut w = standing();
    // Visited straight ahead, twice.
    w.grid.visit(nano(0.5), 0, nano(1.0));
    w.grid.visit(0, 0, nano(2.0));
    w.grid.visit(nano(0.5), 0, nano(3.0));
    w.grid.visit(0, 0, nano(4.0));
    let yaw = pick_heading(&w, &mut rng);
    assert!(
        yaw.abs() > nano(0.3),
        "went straight into the visited cell: {yaw}"
    );
}

#[test]
fn a_refused_sector_is_not_headed_for() {
    for seed in 0..50 {
        let mut rng = Dice::with_seed(seed);
        let mut w = standing();
        w.obstacles.center = Some(nano(0.6));
        w.obstacles.left = Some(nano(0.4));
        w.obstacles.right = Some(nano(0.4));
        let yaw = pick_heading(&w, &mut rng);
        assert!(yaw.abs() > nano(1.5), "{yaw}");
    }
}

#[test]
fn glances_stay_in_range() {
    let mut rng = Dice::with_seed(3);
    let mut other = fastrand::Rng::with_seed(3);
    for _ in 0..50 {
        let g = random_gaze(&mut rng);
        let f = [
            0.0,
            -0.3 + other.f64() * 0.5,
            -0.9 + other.f64() * 1.8,
            -0.15 + other.f64() * 0.3,
        ];
        for (a, b) in g.iter().zip(f) {
            assert!((*a as f64 - b * 1e9).abs() <= 1.0, "{a} {b}");
        }
    }
}

#[test]
fn a_hand_on_the_back_is_a_pet_not_a_startle_and_a_new_duck_is_greeted() {
    let mut rng = Dice::with_seed(8);
    let mut w = standing();
    let d = Drives::default();
    w.t = nano(10.0);
    w.observe_events(&[event(EventKind::SoundNoise, None)]);
    assert_eq!(
        score(Kind::Startle, &w, &d, &mut rng, None),
        Some(hundredths(150))
    );
    w.observe_events(&[event(EventKind::PetStart, None)]);
    assert!(
        score(Kind::Startle, &w, &d, &mut rng, None).is_none(),
        "petting is not a threat"
    );
    assert_eq!(
        score(Kind::Petted, &w, &d, &mut rng, None),
        Some(hundredths(160))
    );
    let limits = Limits::for_mode(Mode::Walk, nano(0.3));
    let mut pet = Active::enter(Kind::Petted, &w, &mut rng);
    assert_eq!(
        pet.tick(&w, limits, &mut rng, &bearing).intents.sound,
        Some(SoundTag::Coo)
    );
    w.observe_events(&[event(EventKind::PetEnd, None)]);
    w.t = nano(12.0);
    assert!(pet.tick(&w, limits, &mut rng, &bearing).done);

    w.observe_events(&[event(EventKind::DuckSeen, Some(3))]);
    assert_eq!(
        score(Kind::Greet, &w, &d, &mut rng, None),
        Some(hundredths(140))
    );
    let mut greet = Active::enter(Kind::Greet, &w, &mut rng);
    assert_eq!(
        greet.tick(&w, limits, &mut rng, &bearing).intents.sound,
        Some(SoundTag::Greet),
        "a stranger"
    );
    w.known_ducks.insert(3);
    w.greet_pending = Some((3, false));
    let mut again = Active::enter(Kind::Greet, &w, &mut rng);
    assert_eq!(
        again.tick(&w, limits, &mut rng, &bearing).intents.sound,
        Some(SoundTag::Chirp),
        "a friend"
    );

    assert!(
        score(Kind::Dance, &w, &d, &mut rng, None).is_none(),
        "no beat yet"
    );
    for k in 0..4 {
        w.t = nano(20.0 + 0.5 * k as f64);
        w.observe_events(&[event(EventKind::Beat, None)]);
    }
    assert!(score(Kind::Dance, &w, &d, &mut rng, None).unwrap() > hundredths(90));
    let mut dance = Active::enter(Kind::Dance, &w, &mut rng);
    assert!(dance
        .tick(&w, limits, &mut rng, &bearing)
        .intents
        .pose
        .is_some());
    w.t = nano(30.0);
    assert!(
        dance.tick(&w, limits, &mut rng, &bearing).done,
        "the music stopped"
    );
}

#[test]
fn nap_sits_once_and_ground_pick_waits_for_the_skill() {
    let mut rng = Dice::with_seed(7);
    let mut w = standing();
    let limits = Limits::for_mode(Mode::Walk, nano(0.3));
    let mut nap = Active::enter(Kind::Nap, &w, &mut rng);
    assert_eq!(
        nap.tick(&w, limits, &mut rng, &bearing).intents.skill,
        Some(Skill::SitToggle)
    );
    assert_eq!(nap.tick(&w, limits, &mut rng, &bearing).intents.skill, None);

    let mut pick = Active::enter(Kind::GroundPick, &w, &mut rng);
    assert_eq!(
        pick.tick(&w, limits, &mut rng, &bearing).intents.skill,
        Some(Skill::GroundPick)
    );
    w.policy = "ground_pick".into();
    assert!(!pick.tick(&w, limits, &mut rng, &bearing).done);
    w.policy = "stand".into();
    assert!(pick.tick(&w, limits, &mut rng, &bearing).done);

    let mut refused = Active::enter(Kind::GroundPick, &w, &mut rng);
    refused.tick(&w, limits, &mut rng, &bearing);
    w.t = nano(2.1);
    assert!(refused.tick(&w, limits, &mut rng, &bearing).done, "it never took");
}

#[test]
fn gestures_swing_as_they_should() {
    let mut rng = Dice::with_seed(7);
    let limits = Limits::for_mode(Mode::Walk, nano(0.3));
    let mut w = standing();
    let value = |l: Level| l.base as f64 / 1e9 + l.amp as f64 / 1e9 * (l.phase as f64 / 1e9).sin();
    let near = |a: f64, b: f64| assert!((a - b).abs() < 1e-7, "{a} {b}");

    let mut chill = Active::enter(Kind::Chill, &w, &mut rng);
    let mut preen = Active::enter(Kind::Preen, &w, &mut rng);
    let mut ruffle = Active::enter(Kind::Ruffle, &w, &mut rng);
    let mut lonely = Active::enter(Kind::Lonely, &w, &mut rng);
    let mut petted = Active::enter(Kind::Petted, &w, &mut rng);
    w.t = nano(1.25);
    let age: f64 = 1.25;
    let i = chill.tick(&w, limits, &mut rng, &bearing).intents;
    near(value(i.pose.unwrap().0), (age * 0.8).sin() * 0.003);
    let i = preen.tick(&w, limits, &mut rng, &bearing).intents;
    near(value(i.mouth.unwrap()), ((age * 6.0).sin() * 0.5 + 0.5) * 0.6);
    assert_eq!(i.head.unwrap()[2], Level::flat(nano(1.0)), "to the left");
    let i = ruffle.tick(&w, limits, &mut rng, &bearing).intents;
    near(
        value(i.pose.unwrap().1),
        (age * 12.0).sin() * 0.12 * (1.0 - age / 2.5),
    );
    near(value(i.head.unwrap()[3]), (age * 12.0).cos() * 0.25);
    let i = lonely.tick(&w, limits, &mut rng, &bearing).intents;
    near(value(i.head.unwrap()[2]), 0.8 * (age * 1.2).sin());
    let i = petted.tick(&w, limits, &mut rng, &bearing).intents;
    near(value(i.mouth.unwrap()), ((age * 3.0).sin() * 0.5 + 0.5) * 0.15);

    for k in 0..4 {
        w.t = nano(20.0 + 0.5 * k as f64);
        w.observe_events(&[event(EventKind::Beat, None)]);
    }
    w.t += nano(0.2);
    let mut dance = Active::enter(Kind::Dance, &w, &mut rng);
    let i = dance.tick(&w, limits, &mut rng, &bearing).intents;
    let phase = 0.2 / 0.5 * std::f64::consts::TAU;
    let pose = i.pose.unwrap();
    near(value(pose.0), 0.006 * phase.sin() - 0.003);
    near(value(pose.1), 0.12 * (phase / 2.0).sin());
    let head = i.head.unwrap();
    near(value(head[1]), 0.15 * phase.cos());
    near(value(head[2]), 0.35 * (phase / 2.0).cos());
    near(value(head[3]), 0.1 * phase.sin());
}

#[test]
fn the_short_behaviours_end() {
    let mut rng = Dice::with_seed(9);
    let limits = Limits::for_mode(Mode::Roller, nano(0.3));
    assert_eq!((limits.linear, limits.angular), (nano(0.6), nano(0.3)));
    for (kind, end, sound) in [
        (Kind::Zoomies, 3.5, Some(SoundTag::Wheee)),
        (Kind::Stretch, 3.0, Some(SoundTag::Coo)),
        (Kind::Ruffle, 2.5, Some(SoundTag::Chirp)),
        (Kind::Preen, 3.5, Some(SoundTag::Peck)),
        (Kind::Sneeze, 1.5, None),
        (Kind::Startle, 1.5, Some(SoundTag::Alarm)),
        (Kind::Lonely, 3.0, Some(SoundTag::Inquire)),
        (Kind::LookAround, 8.0, None),
        (Kind::TurnInPlace, 4.0, None),
    ] {
        let mut w = standing();
        let mut a = Active::enter(kind, &w, &mut rng);
        let first = a.tick(&w, limits, &mut rng, &bearing);
        assert!(!first.done, "{kind:?}");
        assert_eq!(first.intents.sound, sound, "{kind:?}");
        w.t = nano(end);
        let last = a.tick(&w, limits, &mut rng, &bearing);
        assert!(!last.done, "{kind:?} ended early");
        assert_eq!(last.intents.sound, None, "{kind:?} twice");
        w.t += 1;
        assert!(a.tick(&w, limits, &mut rng, &bearing).done, "{kind:?}");
    }
    let mut w = standing();
    let mut sneeze = Active::enter(Kind::Sneeze, &w, &mut rng);
    w.t = nano(0.6);
    let i = sneeze.tick(&w, limits, &mut rng, &bearing).intents;
    assert_eq!(i.sound, Some(SoundTag::Peck));
    assert_eq!(i.mouth, Some(Level::flat(nano(1.0))));
    let mut startle = Active::enter(Kind::Startle, &w, &mut rng);
    assert_eq!(
        startle.tick(&w, limits, &mut rng, &bearing).intents.twist,
        [nano(-0.6), 0, 0],
        "a hop back"
    );
    w.t += nano(0.4);
    assert_eq!(
        startle.tick(&w, limits, &mut rng, &bearing).intents.twist,
        [0, 0, 0],
        "then freeze"
    );
}

#[test]
fn turns_go_left_in_place_and_right_as_an_arc() {
    let mut rng = Dice::with_seed(1);
    let limits = Limits::for_mode(Mode::Walk, 0);
    let mut w = standing();
    w.obstacles.left = Some(nano(0.5));
    let mut right = Active::enter(Kind::TurnInPlace, &w, &mut rng);
    assert!(right.target_yaw <= nano(-1.0) && right.target_yaw >= nano(-2.6));
    assert_eq!(
        right.tick(&w, limits, &mut rng, &bearing).intents.twist,
        [nano(0.3), 0, nano(-0.6)]
    );
    w.obstacles.right = Some(nano(0.4));
    let mut left = Active::enter(Kind::TurnInPlace, &w, &mut rng);
    assert_eq!(
        left.tick(&w, limits, &mut rng, &bearing).intents.twist,
        [0, 0, nano(1.0)]
    );
    left.target_yaw = nano(0.1);
    assert!(left.tick(&w, limits, &mut rng, &bearing).done, "near enough");
}

#[test]
fn kinds_have_names_dwells_and_costs() {
    assert_eq!(Kind::GroundPick.name(), "ground_pick");
    assert_eq!(Kind::TurnInPlace.name(), "turn_in_place");
    assert_eq!(Kind::Nap.min_dwell(), nano(40.0));
    assert_eq!(Kind::Maze.min_dwell(), nano(600.0));
    assert_eq!(Kind::Zoomies.activity(), nano(1.0) as u32);
    let reflexes: Vec<Kind> = Kind::ALL.into_iter().filter(|k| k.is_reflex()).collect();
    assert_eq!(reflexes, [Kind::Startle, Kind::Petted, Kind::Greet]);
}

#[test]
fn every_gesture_is_heard_once() {
    for (kind, end) in [
        (Kind::Stretch, 3.0),
        (Kind::Ruffle, 2.5),
        (Kind::Preen, 3.5),
        (Kind::Sneeze, 1.5),
    ] {
        let mut rng = Dice::with_seed(9);
        let limits = Limits::for_mode(Mode::Walk, nano(0.3));
        let mut w = standing();
        let mut a = Active::enter(kind, &w, &mut rng);
        let mut sounds = 0;
        for k in 1..200 {
            w.t = nano(k as f64 * 0.05);
            let step = a.tick(&w, limits, &mut rng, &bearing);
            sounds += usize::from(step.intents.sound.is_some());
            assert_eq!(step.done, w.t > nano(end), "{kind:?} at {}", w.t);
            if step.done {
                break;
            }
        }
        assert_eq!(sounds, 1, "{kind:?}");
    }
}

#[test]
fn the_first_draws_are_the_generators_own() {
    // The seed moves on by a constant; the value folds a product of the new seed.
    for seed in [0, 7, u64::MAX] {
        let mut dice = Dice::with_seed(seed);
        let k = dice.fraction();
        let s = seed.wrapping_add(0x2d35_8dcc_aa6c_78a5);
        let product = u128::from(s) * u128::from(s ^ 0x8bb8_4b93_962e_acc9);
        assert_eq!(dice.seed, s);
        assert_eq!(k, ((product as u64) ^ ((product >> 64) as u64)) >> 12);
    }
}

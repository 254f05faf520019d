use braind::arbiter::{Arbiter, Status};
use braind::behaviours::{Kind, Level, Limits};
use braind::daemon::{follow_up, outgoing, should_enable, Command};
use braind::drives::ONE;
use braind::maze::MazeMap;
use braind::proto::{EventKind, RobotEvent, Skill, SoundTag};
use braind::world::{Mode, Obstacles, World};

fn nano(x: f64) -> i64 {
    (x * 1e9).round() as i64
}

fn part(x: f64) -> i64 {
    (x * ONE as f64).round() as i64
}

/// The direction of a point.
fn bearing(dy: i128, dx: i128) -> i64 {
    ((dy as f64).atan2(dx as f64) * 1e9).round() as i64
}

/// A score of one.
const SCORE: i128 = 16_212_958_658_533_785_600_000_000_000_000;

fn standing(t: f64) -> World {
    World {
        t: nano(t),
        policy: "stand".into(),
        have_state: true,
        obstacles: Obstacles {
            age_s: Some(nano(0.1)),
            center: Some(nano(2.0)),
            floor_ahead: true,
            ..Default::default()
        },
        ..Default::default()
    }
}

fn limits() -> Limits {
    Limits::for_mode(Mode::Walk, nano(0.3))
}

#[test]
fn off_sends_nothing_and_on_picks_something() {
    let mut a = Arbiter::new(1, false);
    let d = a.tick(&standing(0.0), limits(), &bearing);
    assert_eq!(d.status, Status::Off);
    assert!(d.intents.is_none());
    a.on = true;
    let d = a.tick(&standing(0.05), limits(), &bearing);
    assert!(matches!(d.status, Status::Active(_)), "{:?}", d.status);
    assert!(d.intents.is_some());
}

#[test]
fn a_foreign_twist_makes_the_brain_yield_and_come_back() {
    let mut a = Arbiter::new(2, true);
    let _ = a.tick(&standing(0.0), limits(), &bearing);
    // Past the send grace, a twist that is not ours: a gamepad.
    let mut w = standing(1.0);
    w.move_requested = [nano(0.12), 0, nano(0.7)];
    let d = a.tick(&w, limits(), &bearing);
    assert_eq!(d.status, Status::Yielded);
    assert_eq!(
        d.intents.map(|i| i.twist),
        Some([0; 3]),
        "one neutral on the way out"
    );
    let d = a.tick(&standing(4.0), limits(), &bearing);
    assert_eq!(d.status, Status::Yielded, "still inside the yield window");
    let d = a.tick(&standing(6.5), limits(), &bearing);
    assert!(matches!(d.status, Status::Active(_)), "{:?}", d.status);
}

#[test]
fn our_own_previous_twist_echoed_late_is_not_foreign() {
    let mut a = Arbiter::new(9, true);
    let d = a.tick(&standing(0.0), limits(), &bearing);
    let sent = d.intents.unwrap().twist;
    // Next frame the stream still shows what we sent a tick ago: ours.
    let mut w = standing(0.05);
    w.move_requested = sent;
    assert!(matches!(
        a.tick(&w, limits(), &bearing).status,
        Status::Active(_)
    ));
    // The behaviour ends and we send zero; the stream lags with the old value: ours.
    a.stop(&w, Status::Waiting, None);
    let mut w = standing(0.1);
    w.move_requested = sent;
    let d = a.tick(&w, limits(), &bearing);
    assert_ne!(d.status, Status::Yielded, "{:?}", d.status);
}

#[test]
fn a_reflex_preempts_a_dwell_and_the_incumbent_otherwise_holds() {
    let mut a = Arbiter::new(3, true);
    let mut w = standing(0.0);
    let d = a.tick(&w, limits(), &bearing);
    let first = match d.status {
        Status::Active(k) => k,
        s => panic!("{s:?}"),
    };
    // Within the dwell, no ordinary challenger replaces it.
    for k in 1..8 {
        w.t = nano(k as f64 * 0.3);
        let d = a.tick(&w, limits(), &bearing);
        if first.min_dwell() > w.t {
            assert!(
                matches!(d.status, Status::Active(x) if x == first) || first == Kind::TurnInPlace,
                "{:?} at {}",
                d.status,
                w.t
            );
        }
    }
    // A thing appears at the beak: Startle now, dwell or not.
    w.t += nano(0.3);
    w.obstacles.too_close = true;
    let d = a.tick(&w, limits(), &bearing);
    assert_eq!(d.status, Status::Active(Kind::Startle));
    assert!(a.drives.comfort < part(0.5));
}

#[test]
fn a_new_behaviour_clears_the_old_ones_body_pose() {
    let mut a = Arbiter::new(11, true);
    let mut w = standing(0.0);
    // Force a Chill (pose active) then a Wander by hand.
    a.switch_to(Kind::Chill, SCORE, &w);
    let d = a.tick(&w, limits(), &bearing);
    assert!(d.intents.unwrap().pose.is_some());
    w.t = nano(0.1);
    a.switch_to(Kind::Wander, SCORE, &w);
    let d = a.tick(&w, limits(), &bearing);
    let i = d.intents.unwrap();
    assert_eq!(
        i.pose,
        Some((Level::flat(0), Level::flat(0), Level::flat(0))),
        "pose released so the twist is obeyed"
    );
    assert!(i.twist[0] > 0);
}

#[test]
fn it_waits_while_the_robot_is_rising_and_stops_when_it_falls() {
    let mut a = Arbiter::new(4, true);
    let _ = a.tick(&standing(0.0), limits(), &bearing);
    let mut w = standing(0.1);
    w.policy = "rise".into();
    let d = a.tick(&w, limits(), &bearing);
    assert_eq!(d.status, Status::Waiting);
    assert!(d.intents.is_none(), "nothing while a skill runs");
    w.policy = "walk".into();
    w.fallen = true;
    let d = a.tick(&w, limits(), &bearing);
    assert_eq!(d.status, Status::Waiting);
    assert!(d.intents.is_some(), "a neutral on the way down");
    assert!(a.active_kind().is_none());
}

#[test]
fn a_tired_duck_naps_and_wakes_rested() {
    let mut a = Arbiter::new(5, true);
    a.drives.energy = part(0.1);
    let mut w = standing(0.0);
    let d = a.tick(&w, limits(), &bearing);
    assert_eq!(d.status, Status::Active(Kind::Nap));
    assert_eq!(d.intents.unwrap().skill, Some(Skill::SitToggle));
    w.policy = "sit".into();
    let mut t = 0.1;
    let mut woke = None;
    while t < 400.0 {
        w.t = nano(t);
        let d = a.tick(&w, limits(), &bearing);
        if d.status != Status::Active(Kind::Nap) {
            woke = Some((t, d.status));
            break;
        }
        t += 0.5;
    }
    let (t, status) = woke.expect("never woke");
    assert!(t > 40.0, "woke before the dwell: {t}");
    assert!(a.drives.energy > part(0.5), "{}", a.drives.energy);
    // On a sitting robot nothing but Nap applies; it waits to be stood up.
    assert_eq!(status, Status::Waiting);
}

#[test]
fn a_sound_or_a_hand_wakes_a_sleeper() {
    for kind in [
        EventKind::SoundNoise,
        EventKind::SoundVoice,
        EventKind::PetStart,
    ] {
        let mut a = Arbiter::new(5, true);
        a.drives.energy = part(0.1);
        let mut w = standing(0.0);
        assert_eq!(
            a.tick(&w, limits(), &bearing).status,
            Status::Active(Kind::Nap)
        );
        w.policy = "sit".into();
        w.t = nano(3.0);
        assert_eq!(
            a.tick(&w, limits(), &bearing).status,
            Status::Active(Kind::Nap)
        );
        w.t = nano(3.1);
        w.observe_events(&[RobotEvent { kind, id: None }]);
        let d = a.tick(&w, limits(), &bearing);
        assert_eq!(d.status, Status::Waiting, "{kind:?}");
        assert_eq!(d.intents.unwrap().skill, Some(Skill::SitToggle));
        assert_eq!(d.changed, Some((Some(Kind::Nap), None)));
    }
}

#[test]
fn the_same_seed_decides_the_same() {
    let run = |seed| {
        let mut a = Arbiter::new(seed, true);
        let mut all = Vec::new();
        for k in 0..400 {
            let mut w = standing(k as f64 * 0.05);
            w.have_state = true;
            let d = a.tick(&w, limits(), &bearing);
            all.push((d.status, d.intents.map(|i| i.twist)));
        }
        all
    };
    assert_eq!(run(7), run(7));
    assert_ne!(run(7), run(8));
}

#[test]
fn gestures_do_not_repeat_straight_away() {
    let mut a = Arbiter::new(1, true);
    let w = standing(0.0);
    a.switch_to(Kind::Sneeze, SCORE, &w);
    a.stop(&standing(1.0), Status::Waiting, Some(Kind::Sneeze));
    for k in 0..79 {
        let d = a.tick(&standing(1.0 + 0.25 * k as f64), limits(), &bearing);
        assert_ne!(d.status, Status::Active(Kind::Sneeze), "at {k}");
        a.active = None;
    }
}

#[test]
fn a_mission_starts_first_and_a_solved_maze_is_left_alone() {
    let mut a = Arbiter::new(3, true);
    let mut w = standing(0.0);
    w.maze = true;
    w.obstacles.too_close = true;
    assert_eq!(
        a.tick(&w, limits(), &bearing).status,
        Status::Active(Kind::Maze),
        "a mission outbids a reflex"
    );
    assert_eq!(a.maze_map().map(|m| m.moves), Some(0));
    // Out in the open: two deep sides after three moves.
    let m = a.active.as_mut().unwrap();
    m.mission.deep_sides = 2;
    m.mission.map = MazeMap::at_entrance();
    m.mission.map.moves = 3;
    m.mission.phase = braind::mission::Phase::Planning;
    w.t = nano(0.1);
    let d = a.tick(&w, limits(), &bearing);
    assert_eq!(d.intents.unwrap().sound, Some(SoundTag::Wheee), "a parting sound");
    assert_eq!(d.changed, Some((Some(Kind::Maze), None)));
    assert!(a.maze_solved);
    assert_eq!(a.maze_map().map(|m| m.moves), Some(3), "the map is kept");
    w.t = nano(1.0);
    assert_eq!(
        a.tick(&w, limits(), &bearing).status,
        Status::Active(Kind::Startle)
    );
}

#[test]
fn a_wanderer_says_where_it_goes() {
    let mut a = Arbiter::new(1, true);
    assert_eq!(a.wander_target(), None);
    let w = standing(0.0);
    a.switch_to(Kind::Wander, SCORE, &w);
    assert_eq!(a.wander_target(), None, "no path yet");
    a.active.as_mut().unwrap().plan = Some(vec![(1, 2), (3, 4)]);
    assert_eq!(a.wander_target(), Some((3, 4)));
    assert_eq!(a.active_kind(), Some(Kind::Wander));
}

#[test]
fn a_decision_becomes_commands() {
    let mut a = Arbiter::new(11, true);
    let mut w = standing(0.0);
    a.switch_to(Kind::Wander, SCORE, &w);
    let i = a.tick(&w, limits(), &bearing).intents.unwrap();
    let (out, moved) = outgoing(&i, false);
    assert!(moved);
    assert!(matches!(out[0], Command::Move { vy: 0, .. }));
    assert!(matches!(out[1], Command::Head { .. }));
    assert!(
        matches!(out[2], Command::Pose { active: false, .. }),
        "released"
    );
    assert!(matches!(out[3], Command::Mouth { .. }));
    assert_eq!(out.len(), 4);
    w.t = nano(0.1);
    a.switch_to(Kind::Startle, SCORE, &w);
    w.t = nano(0.6);
    let i = a.tick(&w, limits(), &bearing).intents.unwrap();
    let (out, moved) = outgoing(&i, moved);
    assert!(!moved, "frozen");
    assert_eq!(
        out[0],
        Command::Move {
            vx: 0,
            vy: 0,
            vyaw: 0
        },
        "stopped once"
    );
    assert_eq!(out.last(), Some(&Command::Sound { tag: SoundTag::Alarm }));
    w.t = nano(0.7);
    let i = a.tick(&w, limits(), &bearing).intents.unwrap();
    let (out, _) = outgoing(&i, moved);
    assert!(!matches!(out[0], Command::Move { .. }), "and once only");
}

#[test]
fn a_greeted_duck_is_known() {
    let mut a = Arbiter::new(2, true);
    let mut w = standing(0.0);
    w.observe_events(&[RobotEvent {
        kind: EventKind::DuckSeen,
        id: Some(9),
    }]);
    let d = a.tick(&w, limits(), &bearing);
    assert_eq!(d.status, Status::Active(Kind::Greet));
    assert_eq!(d.intents.unwrap().sound, Some(SoundTag::Greet));
    follow_up(&mut w, &d);
    assert!(w.known_ducks.contains(&9));
    assert_eq!(w.greet_pending, None);
    w.observe_events(&[RobotEvent {
        kind: EventKind::DuckSeen,
        id: Some(9),
    }]);
    assert_eq!(w.greet_pending, Some((9, false)));
}

#[test]
fn the_robot_is_enabled_only_when_asked_and_held() {
    let mut w = World {
        have_state: true,
        policy: "held".into(),
        ..Default::default()
    };
    assert!(should_enable(true, false, &w));
    assert!(!should_enable(false, false, &w));
    assert!(!should_enable(true, true, &w), "once");
    w.policy = "limp_fall".into();
    assert!(!should_enable(true, false, &w));
    assert_eq!(Mode::named(&"roller".to_string()), Mode::Roller);
    assert_eq!(Mode::named(&"walk".to_string()), Mode::Walk);
}

#[test]
fn a_foreign_head_makes_the_brain_yield() {
    let mut a = Arbiter::new(2, true);
    a.switch_to(Kind::Chill, SCORE, &standing(0.0));
    let _ = a.tick(&standing(0.0), limits(), &bearing);
    let mut w = standing(1.0);
    w.head_requested = [0, 0, nano(1.2), 0];
    assert_eq!(a.tick(&w, limits(), &bearing).status, Status::Yielded);
    assert_eq!(
        a.tick(&standing(5.9), limits(), &bearing).status,
        Status::Yielded
    );
    assert!(matches!(
        a.tick(&standing(6.1), limits(), &bearing).status,
        Status::Active(_)
    ));
}

#[test]
fn its_own_head_is_not_foreign() {
    let mut a = Arbiter::new(2, true);
    a.switch_to(Kind::Lonely, SCORE, &standing(0.0));
    let _ = a.tick(&standing(0.0), limits(), &bearing);
    // Somewhere in the swing it was asked for.
    let mut w = standing(0.5);
    w.head_requested = [0, nano(-0.1), nano(0.7), 0];
    assert_eq!(
        a.tick(&w, limits(), &bearing).status,
        Status::Active(Kind::Lonely)
    );
}

#[test]
fn a_foreign_skill_makes_the_brain_yield_and_its_own_does_not() {
    let mut a = Arbiter::new(2, true);
    let mut w = standing(0.0);
    a.switch_to(Kind::GroundPick, SCORE, &w);
    let _ = a.tick(&w, limits(), &bearing);
    w.t = nano(0.5);
    w.policy = "ground_pick".into();
    let d = a.tick(&w, limits(), &bearing);
    assert_eq!(d.status, Status::Waiting, "its own");
    assert_eq!(a.active_kind(), Some(Kind::GroundPick));
    w.t = nano(1.0);
    w.policy = "kick_left".into();
    assert_eq!(a.tick(&w, limits(), &bearing).status, Status::Yielded);
    let mut b = Arbiter::new(2, true);
    w.policy = "ground_pick".into();
    assert_eq!(b.tick(&w, limits(), &bearing).status, Status::Yielded);
}

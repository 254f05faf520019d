use braind::drives::{Drives, MIDDLE, ONE};
use braind::world::World;

fn nano(x: f64) -> i64 {
    (x * 1e9).round() as i64
}

/// A drive as a share of a full one.
fn part(v: i64) -> f64 {
    v as f64 / ONE as f64
}

#[test]
fn energy_drains_moving_and_recovers_napping() {
    let world = World {
        policy: "stand".into(),
        ..Default::default()
    };
    let mut d = Drives::default();
    for _ in 0..600 {
        d.update(nano(0.1), nano(1.0) as u32, false, false, &world); // a minute of zoomies
    }
    assert!(part(d.energy) < 0.6, "{}", part(d.energy));
    for _ in 0..600 {
        d.update(nano(0.1), 0, true, false, &world); // a minute asleep
    }
    assert!(
        part(d.energy) > 0.95,
        "a minute asleep should nearly fill it: {}",
        part(d.energy)
    );
    assert!(part(d.energy) <= 1.0);
}

#[test]
fn a_second_moves_a_drive_by_its_rate() {
    let world = World {
        policy: "stand".into(),
        ..Default::default()
    };
    let at = |energy| Drives {
        energy,
        curiosity: 0,
        social: 0,
        comfort: 0,
    };
    let mut d = at(ONE / 2);
    d.update(nano(1.0), nano(1.0) as u32, false, false, &world);
    assert_eq!(ONE / 2 - d.energy, ONE / 240);
    assert_eq!(d.curiosity, ONE / 120);
    assert_eq!(d.comfort, ONE / 180);
    let mut d = at(ONE / 2);
    d.update(nano(1.0), 0, false, false, &world);
    assert_eq!(d.energy - ONE / 2, ONE / 400);
    let mut d = at(ONE / 2);
    d.update(nano(1.0), 0, true, false, &world);
    assert_eq!(d.energy - ONE / 2, ONE / 90);
    let mut d = at(ONE);
    d.update(nano(1.0), 0, true, false, &world);
    assert_eq!(d.energy, ONE, "full is full");
    let mut d = at(0);
    d.update(nano(1.0), nano(0.1) as u32, false, true, &world);
    assert_eq!((d.energy, d.curiosity), (0, 0), "empty is empty");
}

#[test]
fn curiosity_builds_standing_still_and_pays_out_on_a_new_place() {
    let world = World {
        policy: "stand".into(),
        ..Default::default()
    };
    let mut d = Drives {
        curiosity: 0,
        ..Default::default()
    };
    for _ in 0..600 {
        d.update(nano(0.1), 0, false, false, &world);
    }
    assert!(part(d.curiosity) > 0.4, "{}", part(d.curiosity));
    let before = d.curiosity;
    d.update(nano(0.1), nano(0.5) as u32, false, true, &world);
    assert!(part(d.curiosity) < part(before) - 0.1);
}

#[test]
fn comfort_returns_to_the_middle() {
    let world = World::default();
    let mut d = Drives::default();
    d.startled();
    assert!(part(d.comfort) < 0.3);
    for _ in 0..3000 {
        d.update(nano(0.1), 0, false, false, &world);
    }
    assert_eq!(d.comfort, MIDDLE);
    d.comfort = ONE;
    for _ in 0..3000 {
        d.update(nano(0.1), 0, false, false, &world);
    }
    assert_eq!(d.comfort, MIDDLE, "from above too");
}

#[test]
fn comfort_rises_under_a_hand() {
    let world = World {
        policy: "stand".into(),
        petting_since: Some(0),
        ..Default::default()
    };
    let mut d = Drives::default();
    d.update(nano(1.0), 0, false, false, &world);
    assert_eq!(d.comfort, MIDDLE + ONE / 60);
    d.update(nano(90.0), 0, false, false, &world);
    assert_eq!(d.comfort, ONE, "full");
    d.update(nano(1.0), 0, false, false, &World::default());
    assert_eq!(d.comfort, ONE - ONE / 180, "and drifts back");
}

use braind::double::area_text;
use braind::room::{key, Cell, RoomMap};
use braind::tof::{Pose, Zone};

fn nano(x: f64) -> i64 {
    (x * 1e9).round() as i64
}

fn at(x: f64, y: f64, yaw: f64) -> Pose {
    Pose {
        x: nano(x),
        y: nano(y),
        facing: (
            (yaw.cos() * 1e9).round() as i32,
            (yaw.sin() * 1e9).round() as i32,
        ),
    }
}

fn cell(x: f64, y: f64) -> (i32, i32) {
    key(nano(x) as i128, nano(y) as i128)
}

/// A frame with one level beam straight ahead hitting a wall `r` metres out, the rest
/// floor at 1 m.
fn frame(r: f64) -> ([[i32; 3]; 64], [Zone; 64]) {
    let dirs = [[1_000_000_000, 0, 0]; 64];
    let mut zones = [Zone::Floor {
        point: [nano(1.0), 0, nano(-0.12)],
    }; 64];
    zones[0] = Zone::Hit {
        point: [nano(r), 0, nano(0.1)],
        range: nano(r),
    };
    (dirs, zones)
}

const SENSOR: [i64; 3] = [50_000_000, 0, 200_000_000];

#[test]
fn a_hit_marks_the_wall_and_clears_the_way_to_it() {
    let mut m = RoomMap::new();
    let (dirs, zones) = frame(1.5);
    for _ in 0..3 {
        m.integrate(at(0.0, 0.0, 0.0), SENSOR, &dirs, &zones);
    }
    assert_eq!(m.cell_at(nano(1.5), nano(0.0)), Cell::Occupied);
    assert_eq!(m.cell_at(nano(0.8), nano(0.0)), Cell::Free);
    assert_eq!(m.cell_at(nano(0.0), nano(1.0)), Cell::Unknown);
    assert!(!m.walkable(cell(1.35, 0.0)), "inflated around the wall");
    assert!(m.walkable(cell(0.6, 0.0)));
}

#[test]
fn the_frontier_is_the_edge_of_the_known_floor() {
    let mut m = RoomMap::new();
    let (dirs, zones) = frame(2.5);
    for _ in 0..3 {
        m.integrate(at(0.0, 0.0, 0.0), SENSOR, &dirs, &zones);
    }
    // Floor known to 1 m ahead in a line; the frontier is out there, not at our feet.
    let path = m
        .path_to_frontier((nano(0.0), nano(0.0)), nano(0.3))
        .expect("a frontier");
    let (tx, ty) = *path.last().unwrap();
    assert!(
        tx > nano(0.3) && ty.abs() < nano(0.2),
        "target {tx},{ty}"
    );
    assert!(path.len() >= 3);
    // Turned around (yaw π) the beams paint the other way; both sides become known.
    let mut back = m.clone();
    for _ in 0..2 {
        back.integrate(at(0.0, 0.0, std::f64::consts::PI), SENSOR, &dirs, &zones);
    }
    assert_eq!(back.cell_at(nano(-2.5), nano(0.0)), Cell::Occupied);
}

#[test]
fn the_path_is_the_shortest_and_keeps_to_cell_middles() {
    let mut m = RoomMap::new();
    let (dirs, zones) = frame(2.5);
    for _ in 0..3 {
        m.integrate(at(0.0, 0.0, 0.0), SENSOR, &dirs, &zones);
    }
    let path = m.path_to_frontier((0, 0), nano(0.3)).unwrap();
    // A corridor one cell wide: every cell of it touches the unknown, so the goal is the
    // first at least three cells out.
    assert_eq!(
        path,
        [
            (nano(0.15), nano(0.05)),
            (nano(0.25), nano(0.05)),
            (nano(0.35), nano(0.05))
        ]
    );
    assert!(m.is_frontier(cell(0.35, 0.05)));
    assert!(!m.is_frontier(cell(-0.35, 0.05)), "unknown ground is no edge");
    assert_eq!(
        m.path_to_frontier((nano(5.0), nano(5.0)), 0),
        None,
        "nothing known there"
    );
    assert_eq!(m.path_to_frontier((0, 0), nano(9.0)), None, "none so far out");
}

#[test]
fn ascii_and_svg_render_something() {
    let mut m = RoomMap::new();
    assert!(m.ascii((nano(0.0), nano(0.0))).contains("nothing"));
    let (dirs, zones) = frame(1.6);
    m.integrate(at(0.0, 0.0, 0.0), SENSOR, &dirs, &zones);
    m.integrate(at(0.0, 0.0, 0.0), SENSOR, &dirs, &zones);
    let a = m.ascii((nano(0.0), nano(0.0)));
    assert!(a.contains('@') && a.contains('#'), "{a}");
    let s = m.svg((0, 0), (1_000_000_000, 0), Some((nano(1.0), nano(0.0))));
    assert!(s.contains("<rect") && s.contains("<circle"));
}

#[test]
fn the_drawings_of_a_room_are_exact() {
    let mut m = RoomMap::new();
    assert_eq!(m.ascii((0, 0)), "(nothing known yet)\n");
    assert_eq!(
        m.svg((0, 0), (0, 0), None),
        "<svg xmlns=\"http://www.w3.org/2000/svg\" width=\"200\" height=\"40\"><text x=\"10\" y=\"25\">nothing known yet</text></svg>\n"
    );
    let (dirs, zones) = frame(0.3);
    m.integrate(at(0.0, 0.0, 0.0), SENSOR, &dirs, &zones);
    m.integrate(at(0.06, 0.0, 0.0), SENSOR, &dirs, &zones);
    assert_eq!(m.track.len(), 2);
    // The floor beams outvote the hit: the line to 1 m is floor.
    assert_eq!(m.counts(), (11, 0));
    assert_eq!(m.ascii((nano(0.2), 0)), "*.@........\n");
    assert_eq!(
        m.svg((nano(0.25), 0), (1_000_000_000, 0), None),
        {
            let mut t = String::from("<svg xmlns=\"http://www.w3.org/2000/svg\" width=\"128\" height=\"64\" viewBox=\"0 0 128 64\" font-family=\"sans-serif\">\n<rect width=\"128\" height=\"64\" fill=\"#fafaf7\"/>\n");
            for k in 0..11 {
                t.push_str(&format!(
                    "<rect x=\"{}.0\" y=\"20.0\" width=\"8\" height=\"8\" fill=\"#dbe9f6\"/>\n",
                    20 + 8 * k
                ));
            }
            t.push_str("<polyline points=\"20.0,28.0 24.8,28.0\" fill=\"none\" stroke=\"#e07b39\" stroke-width=\"2\" opacity=\"0.8\"/>\n");
            t.push_str("<circle cx=\"40.0\" cy=\"28.0\" r=\"5\" fill=\"#e6b422\" stroke=\"#333\"/>\n<line x1=\"40.0\" y1=\"28.0\" x2=\"60.0\" y2=\"28.0\" stroke=\"#333\" stroke-width=\"2\"/>\n");
            t.push_str("<text x=\"20\" y=\"58.0\" font-size=\"12\" fill=\"#555\">0.1 m² floor seen · 0 obstacle cells · 2 frames · 0.1 m cells</text>\n</svg>\n");
            t
        }
    );
}

#[test]
fn beliefs_are_clamped_and_can_be_changed() {
    let mut m = RoomMap::new();
    let dirs = [[1_000_000_000, 0, 0]; 64];
    let wall = [Zone::Hit {
        point: [nano(1.0), 0, 0],
        range: nano(1.0),
    }; 64];
    m.integrate(at(0.0, 0.0, 0.0), SENSOR, &dirs, &wall);
    assert_eq!(m.cells.get(cell(1.0, 0.0)), Some(30));
    assert_eq!(m.cells.get(cell(0.5, 0.0)), Some(-30));
    // Nothing there any more: level beams that see nothing clear two metres, slowly.
    let clear = [Zone::Empty; 64];
    m.integrate(at(0.0, 0.0, 0.0), SENSOR, &dirs, &clear);
    assert_eq!(m.cells.get(cell(1.0, 0.0)), Some(-30));
    assert_eq!(m.cell_at(nano(1.9), 0), Cell::Free);
    assert_eq!(m.cell_at(nano(2.2), 0), Cell::Unknown);
    // A sky beam says nothing, something too close half a hit.
    let mut sky = RoomMap::new();
    sky.integrate(at(0.0, 0.0, 0.0), SENSOR, &[[0, 0, 1_000_000_000]; 64], &clear);
    assert_eq!(sky.counts(), (0, 0));
    assert_eq!(sky.cells.get(cell(0.0, 0.0)), Some(-2), "the duck's own footprint");
    let mut close = RoomMap::new();
    let mut zones = [Zone::Empty; 64];
    zones[7] = Zone::TooClose;
    close.integrate(at(0.0, 0.0, 0.0), SENSOR, &[[1_000_000_000, 0, 900_000_000]; 64], &zones);
    assert_eq!(close.cells.get(cell(0.13, 0.0)), Some(3));
}

#[test]
fn the_floor_area_is_rounded_as_a_double() {
    // Halfway cases fall as the product of doubles does: above, onto or below the half.
    for (cells, text) in [
        (0, "0.0"),
        (5, "0.1"),
        (25, "0.2"),
        (45, "0.5"),
        (75, "0.8"),
        (215, "2.1"),
        (11, "0.1"),
        (123_456, "1234.6"),
    ] {
        assert_eq!(area_text(cells), text, "{cells} cells");
    }
    for cells in (0..30_000).chain([1 << 53, (1 << 53) + 1, u64::MAX / 3, u64::MAX]) {
        assert_eq!(area_text(cells), format!("{:.1}", cells as f64 * 0.1 * 0.1), "{cells} cells");
    }
}

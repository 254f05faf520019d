use braind::maze::{Dir, MazeMap, Plan, Side};

fn nano(x: f64) -> i64 {
    (x * 1e9).round() as i64
}

#[test]
fn the_ascii_map_reads_like_the_generator() {
    let mut m = MazeMap::at_entrance();
    m.observe(Dir::East, Side::Open);
    m.moved(Dir::East, (1, 0));
    m.observe(Dir::North, Side::Wall);
    m.observe(Dir::East, Side::Open);
    let text = m.ascii();
    assert!(text.contains('@'), "{text}");
    assert!(text.contains("--"), "{text}");
    assert!(text.contains("··"), "an unlooked side is dotted: {text}");
    let svg = m.svg();
    assert!(
        svg.starts_with("<svg") && svg.contains("<polyline") && svg.contains("stroke-dasharray")
    );
}

#[test]
fn the_drawings_are_exact() {
    let mut m = MazeMap::at_entrance();
    m.observe(Dir::East, Side::Open);
    m.moved(Dir::East, (1, 0));
    m.observe(Dir::North, Side::Wall);
    m.observe(Dir::East, Side::Outside);
    assert_eq!(m.ascii(), "+--+--+\n|1  @ >\n+--+··+\n");
    let svg = m.svg();
    assert!(svg.starts_with(
        "<svg xmlns=\"http://www.w3.org/2000/svg\" width=\"180\" height=\"136\" viewBox=\"0 0 180 136\" font-family=\"sans-serif\">\n<rect width=\"180\" height=\"136\" fill=\"#fafaf7\"/>\n<rect x=\"30\" y=\"30\" width=\"60\" height=\"60\" fill=\"#dbe9f6\"/>\n<line x1=\"30\" y1=\"30\" x2=\"90\" y2=\"30\" stroke=\"#333\" stroke-width=\"4\" stroke-linecap=\"round\"/>\n"
    ), "{svg}");
    assert!(svg.ends_with(
        "<polyline points=\"60,60 120,60\" fill=\"none\" stroke=\"#e07b39\" stroke-width=\"3\" stroke-linejoin=\"round\" opacity=\"0.85\"/>\n<circle cx=\"60\" cy=\"60\" r=\"9\" fill=\"#2a9d3f\"/>\n<circle cx=\"120\" cy=\"60\" r=\"9\" fill=\"#e6b422\" stroke=\"#333\" stroke-width=\"2\"/>\n<text x=\"30\" y=\"130\" font-size=\"12\" fill=\"#555\">2 cells walked · 1 moves · dotted = never looked · green = outside</text>\n</svg>\n"
    ), "{svg}");
}

/// A 3x3 maze as a wall oracle (exit north of (2,2)):
///
/// ```text
/// +--+--+  +
/// |     |  |
/// +  +  +  +
/// |  |     |
/// +  +--+  +
/// |        |
/// +--+--+--+
/// ```
fn oracle(cell: (i32, i32), d: Dir) -> Side {
    let outside = |c: (i32, i32)| !(0..3).contains(&c.0) || !(0..3).contains(&c.1);
    let n = d.step(cell);
    if outside(n) {
        return if cell == (2, 2) && d == Dir::North {
            Side::Outside
        } else {
            Side::Wall
        };
    }
    let closed = [
        ((0, 1), (1, 1)),
        ((1, 0), (1, 1)),
        ((2, 0), (2, 1)),
        ((1, 2), (2, 2)),
    ];
    let pair = (cell, n);
    let shut = closed
        .iter()
        .any(|&(a, b)| pair == (a, b) || pair == (b, a));
    if shut {
        Side::Wall
    } else {
        Side::Open
    }
}

#[test]
fn depth_first_reaches_the_exit_without_looping() {
    let mut m = MazeMap::new();
    let mut steps = 0;
    loop {
        steps += 1;
        assert!(steps < 60, "looped: {:?}", m.at);
        match m.plan() {
            Plan::Look(d) => m.observe(d, oracle(m.at, d)),
            Plan::Go(d) => {
                let to = d.step(m.at);
                m.moved(d, to);
            }
            Plan::Exit(d) => {
                assert_eq!((m.at, d), ((2, 2), Dir::North));
                break;
            }
            Plan::Stuck => panic!("stuck at {:?}", m.at),
        }
    }
    // Every cell visited at most a few times: no cycling.
    for (c, cell) in m.cells.entries() {
        assert!(cell.visits <= 3, "{c:?} visited {} times", cell.visits);
    }
}

/// Explore by `truth` until the plan is to leave or to give up; the moves it took.
fn explore(m: &mut MazeMap, truth: &dyn Fn((i32, i32), Dir) -> Side) -> (Plan, u32) {
    for _ in 0..1000 {
        match m.plan() {
            Plan::Look(d) => m.observe(d, truth(m.at, d)),
            Plan::Go(d) => {
                let to = d.step(m.at);
                assert!(
                    m.cell(to).visits == 0 || m.trail.last() == Some(&to),
                    "neither on nor back: {:?} to {to:?}",
                    m.at
                );
                m.moved(d, to);
            }
            end => return (end, m.moves),
        }
    }
    panic!("walked for ever")
}

#[test]
fn a_maze_without_an_exit_is_explored_and_given_up() {
    // Two cells in a row, walls all round.
    let sealed = |c: (i32, i32), d: Dir| match (c, d) {
        ((0, 0), Dir::East) | ((1, 0), Dir::West) => Side::Open,
        _ => Side::Wall,
    };
    let mut m = MazeMap::at_entrance();
    assert_eq!(explore(&mut m, &sealed), (Plan::Stuck, 2));
    assert_eq!(m.at, (0, 0), "home again");
    assert!(m.trail.is_empty() && m.is_explored());
    assert_eq!(m.cells.entries().iter().filter(|(_, c)| c.visits > 0).count(), 2);
}

#[test]
fn the_same_two_cells_by_hand() {
    let mut m = MazeMap::new();
    m.observe(Dir::East, Side::Open);
    for d in [Dir::North, Dir::South, Dir::West] {
        m.observe(d, Side::Wall);
    }
    m.moved(Dir::East, (1, 0));
    for d in [Dir::East, Dir::North, Dir::South] {
        m.observe(d, Side::Wall);
    }
    assert_eq!(m.plan(), Plan::Go(Dir::West), "everything known, but not home yet");
    m.moved(Dir::West, (0, 0));
    assert_eq!(m.plan(), Plan::Stuck);
}

#[test]
fn an_exploration_takes_two_moves_a_cell_at_most() {
    // Nine cells, the entrance from the west, an exit in the far corner.
    let mut m = MazeMap::at_entrance();
    let walled = |c: (i32, i32), d: Dir| match (c, d) {
        ((0, 0), Dir::North) | ((0, 1), Dir::South) => Side::Wall,
        ((2, 0), Dir::North) | ((2, 1), Dir::South) => Side::Open,
        _ => oracle(c, d),
    };
    let (end, moves) = explore(&mut m, &walled);
    assert_eq!(end, Plan::Exit(Dir::North));
    assert!(moves <= 2 * 8, "{moves}");
    // The same with the exit walled up.
    let mut m = MazeMap::at_entrance();
    let sealed = |c: (i32, i32), d: Dir| match walled(c, d) {
        Side::Outside => Side::Wall,
        side => side,
    };
    let (end, moves) = explore(&mut m, &sealed);
    assert_eq!((end, m.at), (Plan::Stuck, (0, 0)));
    assert!(moves <= 2 * 8, "{moves}");
}

#[test]
fn the_side_behind_is_looked_at_before_giving_up() {
    let mut m = MazeMap::new();
    for d in [Dir::East, Dir::North, Dir::South] {
        m.observe(d, Side::Wall);
    }
    assert_eq!(m.plan(), Plan::Look(Dir::West));
    assert!(!m.is_explored());
    m.observe(Dir::West, Side::Wall);
    assert_eq!(m.plan(), Plan::Stuck);
}

#[test]
fn a_slip_does_not_end_the_mission() {
    let mut m = MazeMap::new();
    m.observe(Dir::East, Side::Open);
    m.moved(Dir::East, (1, 0));
    m.observe(Dir::North, Side::Open);
    m.moved(Dir::North, (1, 1));
    m.moved(Dir::South, (1, 0));
    m.observe(Dir::East, Side::Wall);
    m.observe(Dir::South, Side::Wall);
    // The way back is called a wall now, and the only opening leads where it has been.
    m.observe(Dir::West, Side::Wall);
    assert_eq!(m.plan(), Plan::Go(Dir::North));
}

#[test]
fn an_edge_is_the_same_from_both_cells() {
    let mut m = MazeMap::new();
    m.observe(Dir::East, Side::Wall);
    assert_eq!(m.edge((0, 0), Dir::East), Side::Wall);
    m.moved(Dir::East, (1, 0));
    assert_eq!(m.edge((0, 0), Dir::East), Side::Open, "the passage just walked");
    assert_eq!(m.edge((1, 0), Dir::West), Side::Open);
    m.observe(Dir::North, Side::Outside);
    m.moved(Dir::North, (1, 1));
    assert_eq!(m.edge((1, 0), Dir::North), Side::Outside, "still the way out");
    for x in -2..3 {
        for y in -2..3 {
            for d in Dir::ALL {
                assert_eq!(m.edge((x, y), d), m.edge(d.step((x, y)), d.back()));
            }
        }
    }
}

#[test]
fn the_path_tells_the_visits() {
    let mut m = MazeMap::at_entrance();
    m.moved(Dir::East, (1, 0));
    m.forget_here();
    m.moved(Dir::North, (1, 1));
    m.observe(Dir::East, Side::Wall);
    m.moved(Dir::South, (1, 0));
    assert_eq!(m.path, [(0, 0), (1, 0), (1, 1), (1, 0)]);
    assert_eq!(m.path.len() as u32, m.moves + 1);
    for (c, cell) in m.cells.entries() {
        let times = m.path.iter().filter(|p| **p == c).count();
        assert_eq!(cell.visits as usize, times, "{c:?}");
    }
}

#[test]
fn a_line_is_drawn_for_every_side_that_is_not_open() {
    let mut m = MazeMap::at_entrance();
    explore(&mut m, &|c, d| oracle(c, d));
    let (mut lines, mut dashed) = (0, 0);
    for (c, cell) in m.cells.entries() {
        for d in Dir::ALL {
            let side = m.edge(c, d);
            if cell.visits > 0 && side != Side::Open {
                lines += 1;
                dashed += usize::from(side != Side::Wall);
            }
        }
    }
    let s = m.svg();
    assert_eq!(s.matches("<line").count(), lines);
    assert_eq!(s.matches("stroke-dasharray").count(), dashed);
    assert_eq!(s.matches("<polyline").count(), 1);
    let points = s.split("points=\"").nth(1).unwrap().split('"').next().unwrap();
    assert_eq!(points.split(' ').count(), m.path.len());
    assert!(s.ends_with("</svg>\n"));
    assert_eq!(MazeMap::new().svg().matches("<polyline").count(), 0);
}

#[test]
fn a_dead_end_backtracks_along_the_trail() {
    let mut m = MazeMap::new();
    // Corridor east two cells, dead end; the way back must be planned.
    m.observe(Dir::East, Side::Open);
    m.observe(Dir::North, Side::Wall);
    m.observe(Dir::South, Side::Wall);
    m.moved(Dir::East, (1, 0));
    for d in [Dir::East, Dir::North, Dir::South] {
        m.observe(d, Side::Wall);
    }
    assert_eq!(m.plan(), Plan::Go(Dir::West), "back the way we came");
    m.moved(Dir::West, (0, 0));
    assert!(m.trail.is_empty());
    assert_eq!(
        m.plan(),
        Plan::Look(Dir::West),
        "the one unknown side of the start"
    );
}

#[test]
fn localisation_snaps_to_the_grid() {
    let mut m = MazeMap::new();
    m.localise(nano(0.85), nano(-0.1), nano(1.4));
    assert_eq!(m.at, (1, 0));
    assert_eq!(m.facing, Dir::North);
    assert_eq!(Dir::from_yaw(nano(-3.0)), Dir::West);
    assert_eq!(Dir::from_yaw(nano(-1.6)), Dir::South);
}

#[test]
fn turns_and_steps_fit_together() {
    for d in Dir::ALL {
        assert_eq!(d.left().left().left().left(), d);
        assert_eq!(d.left().right(), d);
        assert_eq!(d.back().back(), d);
        assert_eq!(d.back().step(d.step((3, -7))), (3, -7));
        assert_eq!(Dir::from_yaw(d.yaw()), d);
    }
}

#[test]
fn a_glance_is_recorded_for_both_cells() {
    let mut m = MazeMap::new();
    m.observe(Dir::North, Side::Wall);
    assert_eq!(m.cell((0, 0)).side(Dir::North), Side::Wall);
    assert_eq!(m.cell((0, 1)).side(Dir::South), Side::Wall);
    assert_eq!(m.edge((0, 1), Dir::South), Side::Wall);
    m.observe(Dir::South, Side::Outside);
    assert_eq!(m.cell((0, -1)).side(Dir::North), Side::Unknown, "the outside is not a cell");
    assert_eq!(m.cells_known(), 2);
    assert_eq!(m.plan(), Plan::Exit(Dir::South));
}

#[test]
fn forgetting_keeps_the_visits() {
    let mut m = MazeMap::new();
    m.observe(Dir::East, Side::Open);
    m.moved(Dir::East, (1, 0));
    m.moved(Dir::West, (0, 0));
    m.moved(Dir::East, (1, 0));
    assert_eq!(m.cell((1, 0)).visits, 2);
    m.forget_here();
    assert_eq!(m.cell((1, 0)).side(Dir::West), Side::Unknown);
    assert_eq!(m.cell((1, 0)).visits, 2);
    assert_eq!(m.cell((0, 0)).side(Dir::East), Side::Open, "only here");
    assert!(m.trail.is_empty());
    m.forget_walls();
    assert_eq!(m.cell((0, 0)).side(Dir::East), Side::Unknown);
    assert_eq!(m.cell((0, 0)).visits, 2);
    assert_eq!(m.cell((1, 0)).visits, 2);
    assert_eq!(m.plan(), Plan::Look(Dir::North), "facing east, left first");
    assert_eq!(m.unknown_ahead(), Some(Dir::North));
}

#[test]
fn a_walled_in_duck_is_stuck() {
    let mut m = MazeMap::new();
    for d in Dir::ALL {
        m.observe(d, Side::Wall);
    }
    assert_eq!(m.plan(), Plan::Stuck);
}

#[test]
fn a_side_with_nowhere_fresh_leads_to_the_least_visited() {
    let mut m = MazeMap::new();
    m.observe(Dir::East, Side::Open);
    m.observe(Dir::North, Side::Open);
    m.observe(Dir::South, Side::Wall);
    m.moved(Dir::East, (1, 0));
    m.moved(Dir::West, (0, 0));
    m.moved(Dir::North, (0, 1));
    m.moved(Dir::South, (0, 0));
    m.moved(Dir::North, (0, 1));
    m.moved(Dir::South, (0, 0));
    m.observe(Dir::West, Side::Wall);
    // Facing south, no trail: east was visited once, north twice.
    assert_eq!(m.plan(), Plan::Go(Dir::East));
}

#[test]
fn localisation_is_held_to_the_coordinate_range() {
    let mut m = MazeMap::new();
    m.localise(i64::MAX, i64::MIN, 0);
    assert_eq!(m.at, (i32::MAX, i32::MIN));
    m.localise(i64::MIN, i64::MAX, 0);
    assert_eq!(m.at, (i32::MIN, i32::MAX));
    // The outside is nobody's neighbour.
    m.observe(Dir::West, Side::Outside);
    assert_eq!(m.cell(m.at).side(Dir::West), Side::Outside);
    assert_eq!(m.plan(), Plan::Exit(Dir::West));
}

#[test]
fn no_cell_is_entered_more_often_than_its_neighbours_ask_for() {
    let mut m = MazeMap::at_entrance();
    for _ in 0..200 {
        match m.plan() {
            Plan::Look(d) => {
                let side = oracle(m.at, d);
                m.observe(d, side);
            }
            Plan::Go(d) => {
                let to = d.step(m.at);
                m.moved(d, to);
            }
            Plan::Exit(_) | Plan::Stuck => break,
        }
    }
    for x in 0..3 {
        for y in 0..3 {
            assert!(m.cell((x, y)).visits <= 5);
        }
    }
    assert!(m.moves <= 2 * 8);
}

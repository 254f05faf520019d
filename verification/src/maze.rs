//! A maze in the duck's memory: a grid of cells with the walls it has seen and the cells it
//! has visited, and a depth-first explorer over it that cannot loop.
//!
//! Localisation is the grid itself: cells are `CELL_M` wide, headings are the four axes,
//! and odometry snapped to the nearest cell centre is the position. No socket, no physics;
//! the behaviour feeds it scan results and asks it where to go next.

use vstd::prelude::*;

use crate::sparse::{is_cell, lists, place, Sparse};
use crate::units::{floor_div, held, round_div, rounded, FRAC_PI_2, PI};

verus! {

/// The width of a maze cell, nanometres.
pub const CELL_M: i64 = 800_000_000;

/// A heading along the maze's axes. `+x` is where the duck faces on boot.
#[derive(Debug, Clone, Copy, PartialEq, Eq, Structural, Hash, Default)]
pub enum Dir {
    #[default]
    East,
    North,
    West,
    South,
}

/// The quarter turns from east to `d`, counter-clockwise.
pub open spec fn quarter(d: Dir) -> int {
    match d {
        Dir::East => 0,
        Dir::North => 1,
        Dir::West => 2,
        Dir::South => 3,
    }
}

/// The heading `q` quarter turns counter-clockwise of east.
pub open spec fn heading(q: int) -> Dir {
    let r = q % 4;
    if r == 0 {
        Dir::East
    } else if r == 1 {
        Dir::North
    } else if r == 2 {
        Dir::West
    } else {
        Dir::South
    }
}

/// The heading `q` quarter turns to the left of `d`.
pub open spec fn turned(d: Dir, q: int) -> Dir {
    heading(quarter(d) + q)
}

/// The neighbour of `c` in direction `d`.
pub open spec fn beyond(c: (int, int), d: Dir) -> (int, int) {
    match d {
        Dir::East => (c.0 + 1, c.1),
        Dir::North => (c.0, c.1 + 1),
        Dir::West => (c.0 - 1, c.1),
        Dir::South => (c.0, c.1 - 1),
    }
}

impl Dir {
    pub const ALL: [Dir; 4] = [Dir::East, Dir::North, Dir::West, Dir::South];

    /// The axis nearest to a heading.
    pub fn from_yaw(yaw: i64) -> (d: Dir)
        ensures
            d == heading(rounded(yaw as int, FRAC_PI_2 as int)),
    {
        let q: i128 = round_div(yaw as i128, FRAC_PI_2 as i128);
        let r: i128 = q - 4 * floor_div(q, 4);
        if r == 0 {
            Dir::East
        } else if r == 1 {
            Dir::North
        } else if r == 2 {
            Dir::West
        } else {
            Dir::South
        }
    }

    pub fn yaw(self) -> (a: i64)
        ensures
            a == axis_yaw(self),
    {
        match self {
            Dir::East => 0,
            Dir::North => FRAC_PI_2,
            Dir::West => PI,
            Dir::South => -FRAC_PI_2,
        }
    }

    pub fn left(self) -> (d: Dir)
        ensures
            d == turned(self, 1),
    {
        match self {
            Dir::East => Dir::North,
            Dir::North => Dir::West,
            Dir::West => Dir::South,
            Dir::South => Dir::East,
        }
    }

    pub fn right(self) -> (d: Dir)
        ensures
            d == turned(self, 3),
    {
        self.left().left().left()
    }

    pub fn back(self) -> (d: Dir)
        ensures
            d == turned(self, 2),
    {
        self.left().left()
    }

    /// The neighbouring cell this way.
    pub fn step(self, cell: (i32, i32)) -> (n: (i32, i32))
        requires
            is_cell(beyond(place(cell), self)),
        ensures
            place(n) == beyond(place(cell), self),
    {
        match self {
            Dir::East => (cell.0 + 1, cell.1),
            Dir::North => (cell.0, cell.1 + 1),
            Dir::West => (cell.0 - 1, cell.1),
            Dir::South => (cell.0, cell.1 - 1),
        }
    }
}

/// The yaw of an axis: a quarter turn per step, west at half a turn, south negative.
pub open spec fn axis_yaw(d: Dir) -> int {
    match d {
        Dir::East => 0,
        Dir::North => FRAC_PI_2 as int,
        Dir::West => PI as int,
        Dir::South => -FRAC_PI_2,
    }
}

/// What a side of a cell turned out to be.
#[derive(Debug, Clone, Copy, PartialEq, Eq, Structural)]
pub enum Side {
    Unknown,
    Wall,
    Open,
    /// Open onto the outside: the exit.
    Outside,
}

/// What is known of one cell: its four sides, and how often the duck stood in it.
#[derive(Debug, Clone, Copy, PartialEq, Eq, Structural)]
pub struct Cell {
    pub east: Side,
    pub north: Side,
    pub west: Side,
    pub south: Side,
    pub visits: u32,
}

/// A cell nothing is known of.
pub open spec fn blank() -> Cell {
    Cell {
        east: Side::Unknown,
        north: Side::Unknown,
        west: Side::Unknown,
        south: Side::Unknown,
        visits: 0,
    }
}

impl Cell {
    pub open spec fn looks(self, d: Dir) -> Side {
        match d {
            Dir::East => self.east,
            Dir::North => self.north,
            Dir::West => self.west,
            Dir::South => self.south,
        }
    }

    pub open spec fn with(self, d: Dir, s: Side) -> Cell {
        match d {
            Dir::East => Cell { east: s, ..self },
            Dir::North => Cell { north: s, ..self },
            Dir::West => Cell { west: s, ..self },
            Dir::South => Cell { south: s, ..self },
        }
    }

    /// The cell with its sides forgotten.
    pub open spec fn unseen(self) -> Cell {
        Cell { visits: self.visits, ..blank() }
    }

    fn unknown() -> (c: Cell)
        ensures
            c == blank(),
    {
        Cell {
            east: Side::Unknown,
            north: Side::Unknown,
            west: Side::Unknown,
            south: Side::Unknown,
            visits: 0,
        }
    }

    pub fn side(&self, d: Dir) -> (s: Side)
        ensures
            s == self.looks(d),
    {
        match d {
            Dir::East => self.east,
            Dir::North => self.north,
            Dir::West => self.west,
            Dir::South => self.south,
        }
    }

    fn marked(self, d: Dir, s: Side) -> (c: Cell)
        ensures
            c == self.with(d, s),
    {
        let mut c = self;
        match d {
            Dir::East => {
                c.east = s;
            },
            Dir::North => {
                c.north = s;
            },
            Dir::West => {
                c.west = s;
            },
            Dir::South => {
                c.south = s;
            },
        }
        c
    }
}

/// What the explorer wants next.
#[derive(Debug, Clone, Copy, PartialEq, Eq, Structural)]
pub enum Plan {
    /// Look this way before deciding (the side is unknown).
    Look(Dir),
    /// Go to the neighbouring cell in this direction.
    Go(Dir),
    /// Step out through this side: the exit.
    Exit(Dir),
    /// Everything reachable is explored and none of it opens outside.
    Stuck,
}

/// The maze as the duck believes it.
pub struct Maze {
    pub cells: Map<(int, int), Cell>,
    pub at: (int, int),
    pub facing: Dir,
    /// The cells behind us, most recent last.
    pub trail: Seq<(int, int)>,
    pub moves: int,
    /// Every cell entered, in order.
    pub path: Seq<(int, int)>,
}

/// The four directions, left first: the order in which the explorer prefers them.
pub open spec fn preference(facing: Dir) -> Seq<Dir> {
    seq![turned(facing, 1), facing, turned(facing, 3), turned(facing, 2)]
}

/// The first of `order` that `wanted` holds of.
pub open spec fn first(order: Seq<Dir>, wanted: spec_fn(Dir) -> bool) -> Option<Dir>
    decreases order.len(),
{
    if order.len() == 0 {
        None
    } else if wanted(order[0]) {
        Some(order[0])
    } else {
        first(order.skip(1), wanted)
    }
}

/// One opening leads from `a` to `b`.
pub open spec fn joined(
    truth: spec_fn((int, int), Dir) -> Side,
    a: (int, int),
    b: (int, int),
) -> bool {
    exists|d: Dir| beyond(a, d) == b && #[trigger] truth(a, d) is Open
}

/// Step `i` of a walk goes through an opening.
pub open spec fn steps(
    truth: spec_fn((int, int), Dir) -> Side,
    walk: Seq<(int, int)>,
    i: int,
) -> bool {
    joined(truth, walk[i], walk[i + 1])
}

/// A walk through openings, cell by cell.
pub open spec fn is_walk(truth: spec_fn((int, int), Dir) -> Side, walk: Seq<(int, int)>) -> bool {
    forall|i: int| 0 <= i < walk.len() - 1 ==> #[trigger] steps(truth, walk, i)
}

/// Nothing is left to find out in a cell: every side is known, none leads outside, and every
/// opening leads to a visited cell.
pub open spec fn finished(m: Maze, c: (int, int)) -> bool {
    forall|d: Dir|
        {
            &&& !(#[trigger] m.cell(c).looks(d) is Unknown)
            &&& !(m.cell(c).looks(d) is Outside)
            &&& m.cell(c).looks(d) is Open ==> visited(m, beyond(c, d))
        }
}

/// What the two records of one edge come to. A glance is recorded on both sides, so the two
/// differ only where the duck has since walked through or seen the outside: a way out wins,
/// then a passage, then a wall.
pub open spec fn agreed(a: Side, b: Side) -> Side {
    if a is Outside || b is Outside {
        Side::Outside
    } else if a is Open || b is Open {
        Side::Open
    } else if a is Wall || b is Wall {
        Side::Wall
    } else {
        Side::Unknown
    }
}

impl Maze {
    /// The sides as they were recorded.
    pub open spec fn recorded(self) -> spec_fn((int, int), Dir) -> Side {
        |c: (int, int), d: Dir| self.cell(c).looks(d)
    }

    /// Recorded openings lead from where the duck stands to `c`.
    pub open spec fn reaches(self, c: (int, int)) -> bool {
        exists|walk: Seq<(int, int)>|
            {
                &&& walk.len() > 0
                &&& walk[0] == self.at
                &&& walk.last() == c
                &&& #[trigger] is_walk(self.recorded(), walk)
            }
    }

    /// Everything that can be reached is looked at and visited, and none of it opens outside.
    pub open spec fn explored(self) -> bool {
        forall|c: (int, int)| #[trigger] self.reaches(c) ==> finished(self, c)
    }

    pub open spec fn cell(self, c: (int, int)) -> Cell {
        if self.cells.contains_key(c) {
            self.cells[c]
        } else {
            blank()
        }
    }

    /// The current cell's side in direction `d`.
    pub open spec fn here(self, d: Dir) -> Side {
        self.cell(self.at).looks(d)
    }

    /// How often the neighbour in direction `d` was visited.
    pub open spec fn visits_beyond(self, d: Dir) -> u32 {
        self.cell(beyond(self.at, d)).visits
    }

    /// The start of an exploration: standing in a cell nothing is known of.
    pub open spec fn start() -> Maze {
        Maze {
            cells: Map::<(int, int), Cell>::empty().insert((0, 0), Cell { visits: 1, ..blank() }),
            at: (0, 0),
            facing: Dir::East,
            trail: Seq::empty(),
            moves: 0,
            path: seq![(0, 0)],
        }
    }

    /// The start of the mission: walls all round but ahead.
    pub open spec fn entrance() -> Maze {
        Maze {
            cells: Map::<(int, int), Cell>::empty().insert(
                (0, 0),
                Cell {
                    east: Side::Unknown,
                    north: Side::Wall,
                    west: Side::Wall,
                    south: Side::Wall,
                    visits: 1,
                },
            ),
            ..Maze::start()
        }
    }

    /// After a glance in direction `d` showed `side`.
    pub open spec fn observed(self, d: Dir, side: Side) -> Maze {
        let mine = self.cells.insert(self.at, self.cell(self.at).with(d, side));
        let n = beyond(self.at, d);
        Maze {
            cells: if side is Outside {
                mine
            } else {
                mine.insert(n, self.cell(n).with(turned(d, 2), side))
            },
            ..self
        }
    }

    /// After a glance in direction `d` showed `side`, wherever the duck stands: at the end of the
    /// coordinate range there may be no neighbour to share it with.
    pub open spec fn noted(self, d: Dir, side: Side) -> Maze {
        if side is Outside || is_cell(beyond(self.at, d)) {
            self.observed(d, side)
        } else {
            Maze {
                cells: self.cells.insert(self.at, self.cell(self.at).with(d, side)),
                ..self
            }
        }
    }

    /// After a move in direction `d` that landed in `arrived`.
    pub open spec fn moved(self, d: Dir, arrived: (int, int)) -> Maze {
        let landed = self.cell(arrived);
        Maze {
            cells: self.cells.insert(
                arrived,
                Cell { visits: (landed.visits + 1) as u32, ..landed }.with(turned(d, 2), Side::Open),
            ),
            at: arrived,
            facing: d,
            trail: if self.trail.len() > 0 && self.trail.last() == arrived {
                self.trail.drop_last()
            } else {
                self.trail.push(self.at)
            },
            moves: self.moves + 1,
            path: self.path.push(arrived),
        }
    }

    /// After the current cell's sides and the trail are forgotten.
    pub open spec fn forgot_here(self) -> Maze {
        Maze {
            cells: self.cells.insert(self.at, self.cell(self.at).unseen()),
            trail: Seq::empty(),
            ..self
        }
    }

    /// After every side and the trail are forgotten; every visit count stays.
    pub open spec fn forgot_walls(self) -> Maze {
        Maze {
            cells: self.cells.map_values(|c: Cell| c.unseen()),
            trail: Seq::empty(),
            ..self
        }
    }

    /// The direction back along the trail, if the trail's end is next door.
    pub open spec fn way_back(self) -> Option<Dir> {
        if self.trail.len() == 0 {
            None
        } else {
            first(
                seq![Dir::East, Dir::North, Dir::West, Dir::South],
                |d: Dir| beyond(self.at, d) == self.trail.last(),
            )
        }
    }

    /// Whether `d` leads through an opening that no opening leads to a less visited cell than.
    pub open spec fn least_visited(self, d: Dir) -> bool {
        &&& self.here(d) is Open
        &&& forall|e: Dir| #[trigger] self.here(e) is Open ==> self.visits_beyond(d) <= self.visits_beyond(e)
    }

    /// The first of `order` whose side of the current cell is `side`.
    pub open spec fn first_side(self, order: Seq<Dir>, side: Side) -> Option<Dir> {
        first(order, |d: Dir| self.here(d) == side)
    }

    /// Whether `d` leads through an opening into a cell never visited.
    pub open spec fn fresh(self, d: Dir) -> bool {
        self.here(d) is Open && self.visits_beyond(d) == 0
    }

    /// The first of `order` that leads into a cell never visited.
    pub open spec fn first_fresh(self, order: Seq<Dir>) -> Option<Dir> {
        first(order, |d: Dir| self.fresh(d))
    }

    /// The first of `order` that leads to a least visited neighbour.
    pub open spec fn first_least(self, order: Seq<Dir>) -> Option<Dir> {
        first(order, |d: Dir| self.least_visited(d))
    }

    /// Depth first: the exit if seen; else an unvisited cell; else a side not looked at; else
    /// back along the trail, unless the map now calls that a wall; else, unless it is back
    /// where the trail began with everything explored, the least visited neighbour; else the
    /// side behind, if it was never looked at. Of several, the one preferred first.
    pub open spec fn planned(self) -> Plan {
        let order = preference(self.facing);
        let ahead = order.take(3);
        let behind = turned(self.facing, 2);
        if let Some(d) = self.first_side(order, Side::Outside) {
            Plan::Exit(d)
        } else if let Some(d) = self.first_fresh(ahead) {
            Plan::Go(d)
        } else if let Some(d) = self.first_side(ahead, Side::Unknown) {
            Plan::Look(d)
        } else if self.fresh(behind) {
            Plan::Go(behind)
        } else if self.way_back() is Some && self.here(self.way_back()->0) != Side::Wall {
            Plan::Go(self.way_back()->0)
        } else if self.trail.len() == 0 && self.explored() {
            Plan::Stuck
        } else if let Some(d) = self.first_least(order) {
            Plan::Go(d)
        } else if self.here(behind) is Unknown {
            Plan::Look(behind)
        } else {
            Plan::Stuck
        }
    }

    /// The first side among left, straight, right that has not been looked at.
    pub open spec fn unlooked(self) -> Option<Dir> {
        self.first_side(preference(self.facing).take(3), Side::Unknown)
    }

    /// The edge between `c` and its neighbour in direction `d`, as either side recorded it.
    pub open spec fn edge(self, c: (int, int), d: Dir) -> Side {
        agreed(self.cell(c).looks(d), self.cell(beyond(c, d)).looks(turned(d, 2)))
    }
}

/// The map plus the explorer's own state: where it is, which way it faces, the path it
/// came by (for backtracking).
#[derive(Debug)]
pub struct MazeMap {
    pub cells: Sparse<Cell>,
    pub at: (i32, i32),
    pub facing: Dir,
    /// The cells behind us, most recent last: depth-first backtracking pops these.
    pub trail: Vec<(i32, i32)>,
    pub moves: u32,
    /// Every cell entered, in order: the route, for drawing.
    pub path: Vec<(i32, i32)>,
}

/// The duck has stood in cell `c`.
pub open spec fn visited(m: Maze, c: (int, int)) -> bool {
    m.cell(c).visits > 0
}

pub open spec fn places(s: Seq<(i32, i32)>) -> Seq<(int, int)> {
    s.map_values(|c: (i32, i32)| place(c))
}

impl View for MazeMap {
    type V = Maze;

    open spec fn view(&self) -> Maze {
        Maze {
            cells: self.cells@,
            at: place(self.at),
            facing: self.facing,
            trail: places(self.trail@),
            moves: self.moves as int,
            path: places(self.path@),
        }
    }
}

fn copied(v: &Vec<(i32, i32)>) -> (r: Vec<(i32, i32)>)
    ensures
        r@ == v@,
{
    let mut r: Vec<(i32, i32)> = Vec::new();
    let mut i: usize = 0;
    while i < v.len()
        invariant
            i <= v.len(),
            r@ == v@.take(i as int),
        decreases v.len() - i,
    {
        r.push(v[i]);
        proof {
            assert(v@.take(i as int).push(v@[i as int]) =~= v@.take(i + 1));
        }
        i += 1;
    }
    proof {
        assert(v@.take(v@.len() as int) =~= v@);
    }
    r
}

impl Clone for MazeMap {
    fn clone(&self) -> (m: Self)
        ensures
            m@ == self@,
            m.at == self.at,
            m.moves == self.moves,
    {
        MazeMap {
            cells: self.cells.clone(),
            at: self.at,
            facing: self.facing,
            trail: copied(&self.trail),
            moves: self.moves,
            path: copied(&self.path),
        }
    }
}

fn same(a: (i32, i32), b: (i32, i32)) -> (r: bool)
    ensures
        r == (place(a) == place(b)),
        r == (a == b),
{
    a.0 == b.0 && a.1 == b.1
}

proof fn lemma_first(order: Seq<Dir>, wanted: spec_fn(Dir) -> bool, i: int)
    requires
        0 <= i <= order.len(),
        forall|j: int| 0 <= j < i ==> !wanted(#[trigger] order[j]),
    ensures
        i == order.len() ==> first(order, wanted) is None,
        i < order.len() && wanted(order[i]) ==> first(order, wanted) == Some(order[i]),
    decreases i,
{
    if i > 0 {
        let rest = order.skip(1);
        assert forall|j: int| 0 <= j < i - 1 implies !wanted(#[trigger] rest[j]) by {
            assert(rest[j] == order[j + 1]);
        }
        lemma_first(rest, wanted, i - 1);
    }
}

impl MazeMap {
    pub fn new() -> (m: Self)
        ensures
            m@ == Maze::start(),
    {
        let mut cells: Sparse<Cell> = Sparse::new();
        let mut start = Cell::unknown();
        start.visits = 1;
        cells.put((0, 0), start);
        let mut path: Vec<(i32, i32)> = Vec::new();
        path.push((0, 0));
        let m = MazeMap { cells, at: (0, 0), facing: Dir::East, trail: Vec::new(), moves: 0, path };
        proof {
            assert(m@.trail =~= Seq::empty());
            assert(m@.path =~= seq![(0int, 0int)]);
        }
        m
    }

    /// The mission's start: outside the maze, facing the entrance. The way in is ahead; the
    /// other three sides of the start cell are declared walls so exploration and backtracking
    /// never leave the maze by the way they came.
    pub fn at_entrance() -> (m: Self)
        ensures
            m@ == Maze::entrance(),
    {
        let mut m = Self::new();
        let cell = m.cell((0, 0)).marked(Dir::East.left(), Side::Wall).marked(
            Dir::East.right(),
            Side::Wall,
        ).marked(Dir::East.back(), Side::Wall);
        m.cells.put((0, 0), cell);
        proof {
            assert(m@.cells =~= Maze::entrance().cells);
        }
        m
    }

    /// Snap odometry to the grid, held to the coordinate range; the heading to the nearest axis.
    pub fn localise(&mut self, odom_x: i64, odom_y: i64, yaw: i64)
        ensures
            final(self)@ == (Maze {
                at: (snapped(odom_x as int), snapped(odom_y as int)),
                facing: heading(rounded(yaw as int, FRAC_PI_2 as int)),
                ..old(self)@
            }),
            final(self).at == (snapped(odom_x as int) as i32, snapped(odom_y as int) as i32),
            final(self).moves == old(self).moves,
    {
        self.at = (snap(odom_x), snap(odom_y));
        self.facing = Dir::from_yaw(yaw);
    }

    pub fn cell(&self, c: (i32, i32)) -> (v: Cell)
        ensures
            v == self@.cell(place(c)),
    {
        match self.cells.get(c) {
            Some(v) => v,
            None => Cell::unknown(),
        }
    }

    /// What is known of the neighbour of `c` in direction `d`; past the coordinate range,
    /// nothing.
    pub(crate) fn cell_beyond(&self, c: (i32, i32), d: Dir) -> (v: Cell)
        ensures
            v == self@.cell(beyond(place(c), d)),
    {
        if !has_beyond(c, d) {
            proof {
                self.cells.lemma_keys_are_cells();
            }
            Cell::unknown()
        } else {
            self.cell(d.step(c))
        }
    }

    /// Record what a glance from the current cell showed in direction `d`. A wall on our
    /// side is a wall on the neighbour's side too.
    pub fn observe(&mut self, d: Dir, side: Side)
        requires
            side is Outside || is_cell(beyond(place(old(self).at), d)),
        ensures
            final(self)@ == old(self)@.observed(d, side),
            final(self).at == old(self).at,
            final(self).moves == old(self).moves,
    {
        let here = self.at;
        let mine = self.cell(here).marked(d, side);
        self.cells.put(here, mine);
        if side != Side::Outside {
            let other = d.step(here);
            let theirs = self.cell(other).marked(d.back(), side);
            self.cells.put(other, theirs);
        }
        proof {
            assert(self@.cells =~= old(self)@.observed(d, side).cells);
        }
    }

    /// Record what a glance showed, on the neighbour's side too where there is one.
    pub(crate) fn note(&mut self, d: Dir, side: Side)
        ensures
            final(self)@ == old(self)@.noted(d, side),
            final(self).at == old(self).at,
            final(self).moves == old(self).moves,
    {
        if side == Side::Outside || has_beyond(self.at, d) {
            self.observe(d, side);
        } else {
            let here = self.at;
            let mine = self.cell(here).marked(d, side);
            self.cells.put(here, mine);
            proof {
                assert(self@.cells =~= old(self)@.noted(d, side).cells);
            }
        }
    }

    /// Arrived in the cell `d` of the last one (call after the move lands).
    pub fn moved(&mut self, d: Dir, arrived: (i32, i32))
        requires
            old(self).moves < u32::MAX,
            old(self)@.cell(place(arrived)).visits < u32::MAX,
        ensures
            final(self)@ == old(self)@.moved(d, place(arrived)),
            final(self).at == arrived,
            final(self).moves == old(self).moves + 1,
    {
        let from = self.at;
        // Going forward pushes the trail; a backtrack pops it.
        let n: usize = self.trail.len();
        if n > 0 && same(self.trail[n - 1], arrived) {
            self.trail.pop();
        } else {
            self.trail.push(from);
        }
        self.at = arrived;
        self.facing = d;
        self.path.push(arrived);
        // The way we came is open, whatever we thought.
        let mut landed = self.cell(arrived);
        landed.visits = landed.visits + 1;
        self.cells.put(arrived, landed.marked(d.back(), Side::Open));
        self.moves = self.moves + 1;
        proof {
            let next = old(self)@.moved(d, place(arrived));
            assert(self@.trail =~= next.trail);
            assert(self@.path =~= next.path);
            assert(self@.cells =~= next.cells);
        }
    }

    fn find_side(&self, order: [Dir; 4], n: usize, side: Side) -> (r: Option<Dir>)
        requires
            n <= 4,
        ensures
            r == self@.first_side(order@.take(n as int), side),
    {
        let here = self.cell(self.at);
        let ghost wanted = |d: Dir| self@.here(d) == side;
        let ghost some = order@.take(n as int);
        let mut i: usize = 0;
        while i < n
            invariant
                i <= n <= 4,
                here == self@.cell(self@.at),
                wanted == (|d: Dir| self@.here(d) == side),
                some == order@.take(n as int),
                forall|j: int| 0 <= j < i ==> !wanted(#[trigger] some[j]),
            decreases n - i,
        {
            let d = order[i];
            if here.side(d) == side {
                proof {
                    assert(some[i as int] == d);
                    lemma_first(some, wanted, i as int);
                }
                return Some(d);
            }
            i += 1;
        }
        proof {
            lemma_first(some, wanted, n as int);
        }
        None
    }

    fn find_fresh(&self, order: [Dir; 4], n: usize) -> (r: Option<Dir>)
        requires
            n <= 4,
        ensures
            r == self@.first_fresh(order@.take(n as int)),
    {
        let here = self.cell(self.at);
        let ghost wanted = |d: Dir| self@.fresh(d);
        let ghost some = order@.take(n as int);
        let mut i: usize = 0;
        while i < n
            invariant
                i <= n <= 4,
                here == self@.cell(self@.at),
                wanted == (|d: Dir| self@.fresh(d)),
                some == order@.take(n as int),
                forall|j: int| 0 <= j < i ==> !wanted(#[trigger] some[j]),
            decreases n - i,
        {
            let d = order[i];
            if here.side(d) == Side::Open && self.cell_beyond(self.at, d).visits == 0 {
                proof {
                    assert(some[i as int] == d);
                    lemma_first(some, wanted, i as int);
                }
                return Some(d);
            }
            i += 1;
        }
        proof {
            lemma_first(some, wanted, n as int);
        }
        None
    }

    fn find_way_back(&self) -> (r: Option<Dir>)
        ensures
            r == self@.way_back(),
    {
        let n: usize = self.trail.len();
        if n == 0 {
            return None;
        }
        let prev = self.trail[n - 1];
        let (x, y) = (prev.0 as i64 - self.at.0 as i64, prev.1 as i64 - self.at.1 as i64);
        let ghost all = seq![Dir::East, Dir::North, Dir::West, Dir::South];
        let ghost wanted = |d: Dir| beyond(self@.at, d) == self@.trail.last();
        proof {
            assert(self@.trail.last() == place(prev));
            reveal_with_fuel(first, 5);
            assert(all.skip(1).skip(1).skip(1).skip(1).len() == 0);
            assert(self@.way_back() == first(all, wanted));
        }
        if x == 1 && y == 0 {
            Some(Dir::East)
        } else if x == 0 && y == 1 {
            Some(Dir::North)
        } else if x == -1 && y == 0 {
            Some(Dir::West)
        } else if x == 0 && y == -1 {
            Some(Dir::South)
        } else {
            None
        }
    }

    fn find_least(&self, order: [Dir; 4]) -> (r: Option<Dir>)
        requires
            order@ == preference(self@.facing),
        ensures
            r == self@.first_least(order@),
    {
        let here = self.cell(self.at);
        let mut best: Option<(u32, Dir)> = None;
        let mut at: usize = 0;
        let mut i: usize = 0;
        while i < 4
            invariant
                i <= 4,
                here == self@.cell(self@.at),
                best is None ==> forall|j: int| 0 <= j < i ==> !(self@.here(#[trigger] order@[j]) is Open),
                best matches Some(b) ==> {
                    &&& at < i
                    &&& b.1 == order@[at as int]
                    &&& self@.here(b.1) is Open
                    &&& b.0 == self@.visits_beyond(b.1)
                    &&& forall|j: int|
                        0 <= j < i && self@.here(#[trigger] order@[j]) is Open ==> b.0
                            <= self@.visits_beyond(order@[j])
                    &&& forall|j: int|
                        0 <= j < at && self@.here(#[trigger] order@[j]) is Open ==> b.0
                            < self@.visits_beyond(order@[j])
                },
            decreases 4 - i,
        {
            let d = order[i];
            if here.side(d) == Side::Open {
                let v: u32 = self.cell_beyond(self.at, d).visits;
                let better = match best {
                    None => true,
                    Some(b) => v < b.0,
                };
                if better {
                    best = Some((v, d));
                    at = i;
                }
            }
            i += 1;
        }
        proof {
            let wanted = |d: Dir| self@.least_visited(d);
            assert(self@.first_least(order@) == first(order@, wanted));
            match best {
                None => {
                    assert forall|j: int| 0 <= j < 4 implies !wanted(#[trigger] order@[j]) by {}
                    lemma_first(order@, wanted, 4);
                },
                Some(b) => {
                    assert(self@.least_visited(b.1)) by {
                        assert forall|e: Dir| #[trigger] self@.here(e) is Open implies b.0
                            <= self@.visits_beyond(e) by {
                            let j = lemma_preference_is_all(self@.facing, e);
                            assert(order@[j] == e);
                        }
                    }
                    assert forall|j: int| 0 <= j < at implies !wanted(#[trigger] order@[j]) by {}
                    lemma_first(order@, wanted, at as int);
                },
            }
        }
        match best {
            Some(b) => Some(b.1),
            None => None,
        }
    }

    /// Depth-first: an exit if seen; else an unvisited open neighbour (left, straight,
    /// right: the order keeps the walk looking deliberate); else look at an unknown side;
    /// else backtrack along the trail, and give up where it began with everything explored.
    pub fn plan(&self) -> (p: Plan)
        ensures
            p == self@.planned(),
    {
        let order = [self.facing.left(), self.facing, self.facing.right(), self.facing.back()];
        proof {
            assert(order@ =~= preference(self@.facing));
            assert(order@.take(4) =~= order@);
        }
        if let Some(d) = self.find_side(order, 4, Side::Outside) {
            return Plan::Exit(d);
        }
        if let Some(d) = self.find_fresh(order, 3) {
            return Plan::Go(d);
        }
        if let Some(d) = self.find_side(order, 3, Side::Unknown) {
            return Plan::Look(d);
        }
        let here = self.cell(self.at);
        // Back only counts as unexplored when we did not come from there.
        let behind = self.facing.back();
        if here.side(behind) == Side::Open && self.cell_beyond(self.at, behind).visits == 0 {
            return Plan::Go(behind);
        }
        // Backtrack along the trail, but only through a side the map does not now call a
        // wall (a localisation slip can contradict the trail; the wall wins).
        if let Some(d) = self.find_way_back() {
            if here.side(d) != Side::Wall {
                return Plan::Go(d);
            }
        }
        if self.trail.len() == 0 && self.is_explored() {
            return Plan::Stuck;
        }
        // Otherwise the least-visited open neighbour, so a slip does not end the mission.
        if let Some(d) = self.find_least(order) {
            return Plan::Go(d);
        }
        if here.side(behind) == Side::Unknown {
            return Plan::Look(behind);
        }
        Plan::Stuck
    }

    fn is_finished(&self, c: (i32, i32)) -> (r: bool)
        ensures
            r == finished(self@, place(c)),
    {
        let cell = self.cell(c);
        let ghost m = self@;
        let mut i: usize = 0;
        while i < 4
            invariant
                i <= 4,
                m == self@,
                cell == m.cell(place(c)),
                forall|j: int|
                    0 <= j < i ==> {
                        let d = #[trigger] Dir::ALL@[j];
                        &&& !(m.cell(place(c)).looks(d) is Unknown)
                        &&& !(m.cell(place(c)).looks(d) is Outside)
                        &&& m.cell(place(c)).looks(d) is Open ==> visited(m, beyond(place(c), d))
                    },
            decreases 4 - i,
        {
            let d = Dir::ALL[i];
            let side = cell.side(d);
            let settled = match side {
                Side::Unknown => false,
                Side::Outside => false,
                Side::Open => self.cell_beyond(c, d).visits > 0,
                Side::Wall => true,
            };
            if !settled {
                assert(m.cell(place(c)).looks(d) == side);
                return false;
            }
            i += 1;
        }
        proof {
            assert forall|d: Dir|
                {
                    &&& !(#[trigger] m.cell(place(c)).looks(d) is Unknown)
                    &&& !(m.cell(place(c)).looks(d) is Outside)
                    &&& m.cell(place(c)).looks(d) is Open ==> visited(m, beyond(place(c), d))
                } by {
                assert(Dir::ALL@[quarter(d)] == d);
            }
        }
        true
    }

    /// Put the neighbour of `c` in direction `d` on the list, if an opening leads there and it
    /// is not on it yet.
    fn enlist(
        &self,
        c: (i32, i32),
        d: Dir,
        seen: &mut Sparse<bool>,
        list: &mut Vec<(i32, i32)>,
    )
        requires
            gathered(self@, old(seen)@, places(old(list)@)),
            places(old(list)@).contains(place(c)),
            finished(self@, place(c)),
        ensures
            gathered(self@, final(seen)@, places(final(list)@)),
            old(list)@.len() <= final(list)@.len(),
            final(list)@.take(old(list)@.len() as int) == old(list)@,
            forall|p: (int, int)| #[trigger] old(seen)@.contains_key(p) ==> final(seen)@.contains_key(p),
            self@.cell(place(c)).looks(d) is Open ==> final(seen)@.contains_key(beyond(place(c), d)),
    {
        proof {
            assert(old(list)@.take(old(list)@.len() as int) =~= old(list)@);
            assert(!(self@.cell(place(c)).looks(d) is Unknown));
        }
        if self.cell(c).side(d) != Side::Open {
            return;
        }
        let ghost m = self@;
        proof {
            self.cells.lemma_keys_are_cells();
            assert(visited(m, beyond(place(c), d)));
            assert(m.cells.contains_key(beyond(place(c), d)));
        }
        let n = d.step(c);
        if seen.get(n).is_none() {
            let ghost before = places(list@);
            seen.put(n, true);
            list.push(n);
            proof {
                let after = places(list@);
                assert(after =~= before.push(place(n)));
                assert(list@.take(old(list)@.len() as int) =~= old(list)@);
                let j = choose|j: int| 0 <= j < before.len() && before[j] == place(c);
                assert(m.reaches(before[j]));
                lemma_reach_further(m, place(c), d);
                lemma_gathers(m, old(seen)@, before, place(n));
            }
        }
    }

    /// Everything that can be reached is looked at and visited, and none of it opens outside.
    pub fn is_explored(&self) -> (r: bool)
        ensures
            r == self@.explored(),
    {
        let ghost m = self@;
        let mut seen: Sparse<bool> = Sparse::new();
        let mut list: Vec<(i32, i32)> = Vec::new();
        seen.put(self.at, true);
        list.push(self.at);
        proof {
            let walk = seq![m.at];
            assert(is_walk(m.recorded(), walk));
            assert(m.reaches(m.at));
            assert(places(list@) =~= seq![m.at]);
            assert(places(list@)[0] == m.at);
            self.cells.lemma_keys_are_cells();
            self.cells.lemma_known_is_finite();
        }
        let mut i: usize = 0;
        while i < list.len()
            invariant
                i <= list.len(),
                m == self@,
                m.cells.dom().finite(),
                list@.len() > 0,
                place(list@[0]) == m.at,
                gathered(m, seen@, places(list@)),
                forall|j: int| 0 <= j < i ==> settled_in(m, seen@, place(#[trigger] list@[j])),
            decreases m.cells.dom().insert(m.at).len() - i,
        {
            let c = list[i];
            proof {
                assert(places(list@)[i as int] == place(c));
                lemma_gathered_size(m, seen@, places(list@));
            }
            if !self.is_finished(c) {
                proof {
                    assert(m.reaches(place(c)));
                }
                return false;
            }
            let ghost start = seen@;
            let ghost first_list = list@;
            self.enlist(c, Dir::East, &mut seen, &mut list);
            proof {
                assert(list@[i as int] == c);
                assert(places(list@)[i as int] == place(c));
            }
            let ghost s1 = seen@;
            let ghost l1 = list@;
            self.enlist(c, Dir::North, &mut seen, &mut list);
            proof {
                assert(list@[i as int] == l1[i as int]) by {
                    assert(list@.take(l1.len() as int)[i as int] == l1[i as int]);
                }
                assert(places(list@)[i as int] == place(c));
            }
            let ghost s2 = seen@;
            let ghost l2 = list@;
            self.enlist(c, Dir::West, &mut seen, &mut list);
            proof {
                assert(list@[i as int] == l2[i as int]) by {
                    assert(list@.take(l2.len() as int)[i as int] == l2[i as int]);
                }
                assert(places(list@)[i as int] == place(c));
            }
            let ghost s3 = seen@;
            let ghost l3 = list@;
            self.enlist(c, Dir::South, &mut seen, &mut list);
            proof {
                assert forall|j: int| 0 <= j <= i implies list@[j] == #[trigger] first_list[j] by {
                    assert(list@.take(l3.len() as int)[j] == l3[j]);
                    assert(l3.take(l2.len() as int)[j] == l2[j]);
                    assert(l2.take(l1.len() as int)[j] == l1[j]);
                    assert(l1.take(first_list.len() as int)[j] == first_list[j]);
                }
                assert forall|p: (int, int)| #[trigger] start.contains_key(p) implies seen@.contains_key(p) by {
                    assert(s1.contains_key(p));
                    assert(s2.contains_key(p));
                    assert(s3.contains_key(p));
                }
                assert forall|d: Dir| #[trigger] m.cell(place(c)).looks(d) is Open implies seen@.contains_key(
                    beyond(place(c), d)) by {
                    match d {
                        Dir::East => {
                            assert(s1.contains_key(beyond(place(c), d)));
                            assert(s2.contains_key(beyond(place(c), d)));
                            assert(s3.contains_key(beyond(place(c), d)));
                        },
                        Dir::North => {
                            assert(s2.contains_key(beyond(place(c), d)));
                            assert(s3.contains_key(beyond(place(c), d)));
                        },
                        Dir::West => {
                            assert(s3.contains_key(beyond(place(c), d)));
                        },
                        Dir::South => {},
                    }
                }
                assert forall|j: int| 0 <= j < i + 1 implies settled_in(m, seen@, place(#[trigger] list@[j])) by {
                    assert(list@[j] == first_list[j]);
                    if j < i {
                        assert(settled_in(m, start, place(first_list[j])));
                    }
                }
            }
            i += 1;
        }
        proof {
            let region = Set::new(|p: (int, int)| seen@.contains_key(p));
            assert(places(list@)[0] == m.at);
            assert forall|p: (int, int)| #[trigger] region.contains(p) implies finished(m, p) by {
                let j = choose|j: int| 0 <= j < places(list@).len() && places(list@)[j] == p;
                assert(settled_in(m, seen@, place(list@[j])));
            }
            assert forall|p: (int, int), d: Dir| region.contains(p) && #[trigger] m.cell(p).looks(d) is Open
                implies region.contains(beyond(p, d)) by {
                let j = choose|j: int| 0 <= j < places(list@).len() && places(list@)[j] == p;
                assert(settled_in(m, seen@, place(list@[j])));
            }
            lemma_closed_is_explored(m, region);
        }
        true
    }

    /// Forget what this cell's sides looked like and drop the trail: the recovery from a
    /// contradiction, after which the explorer looks again.
    pub fn forget_here(&mut self)
        ensures
            final(self)@ == old(self)@.forgot_here(),
            final(self).at == old(self).at,
            final(self).moves == old(self).moves,
    {
        let mut cell = Cell::unknown();
        cell.visits = self.cell(self.at).visits;
        self.cells.put(self.at, cell);
        self.trail = Vec::new();
        proof {
            assert(self@.trail =~= Seq::empty());
        }
    }

    /// Forget every wall in the map but keep the visit counts: the recovery when the map
    /// has painted itself into a corner (a failed move recorded as a wall, say).
    pub fn forget_walls(&mut self)
        ensures
            final(self)@ == old(self)@.forgot_walls(),
            final(self).at == old(self).at,
            final(self).moves == old(self).moves,
    {
        let list = self.cells.entries();
        let ghost before = self.cells@;
        let n: usize = list.len();
        let mut i: usize = 0;
        while i < n
            invariant
                n == list.len(),
                i <= n,
                lists(before, list@),
                before == old(self).cells@,
                self.at == old(self).at,
                self.facing == old(self).facing,
                self.moves == old(self).moves,
                self.path == old(self).path,
                self.cells@.dom() == before.dom(),
                forall|j: int|
                    0 <= j < i ==> self.cells@[place(#[trigger] list@[j].0)] == list@[j].1.unseen(),
                forall|j: int| i <= j < n ==> self.cells@[place(#[trigger] list@[j].0)] == list@[j].1,
            decreases n - i,
        {
            let (c, old_cell) = list[i];
            let mut cell = Cell::unknown();
            cell.visits = old_cell.visits;
            self.cells.put(c, cell);
            proof {
                assert(before.contains_key(place(list@[i as int].0)));
                assert(self.cells@.dom() =~= before.dom());
            }
            i += 1;
        }
        self.trail = Vec::new();
        proof {
            assert(self@.trail =~= Seq::empty());
            let after = old(self)@.forgot_walls().cells;
            assert forall|c: (int, int)| before.contains_key(c) implies #[trigger] self.cells@[c]
                == after[c] by {
                let j = choose|j: int| 0 <= j < list@.len() && place(#[trigger] list@[j].0) == c;
                assert(self.cells@[place(list@[j].0)] == list@[j].1.unseen());
            }
            assert(self@.cells =~= after);
        }
    }

    /// The first side among left, straight, right that has not been looked at.
    pub fn unknown_ahead(&self) -> (d: Option<Dir>)
        ensures
            d == self@.unlooked(),
    {
        let order = [self.facing.left(), self.facing, self.facing.right(), self.facing.back()];
        proof {
            assert(order@ =~= preference(self@.facing));
        }
        self.find_side(order, 3, Side::Unknown)
    }

    pub fn cells_known(&self) -> (n: usize)
        ensures
            n == self@.cells.dom().len(),
            self@.cells.dom().finite(),
    {
        self.cells.len()
    }

    /// The edge between cell `c` and its neighbour in direction `d`, as either side recorded
    /// it: a wall seen from one cell is the same wall from the other.
    pub fn edge(&self, c: (i32, i32), d: Dir) -> (s: Side)
        ensures
            s == self@.edge(place(c), d),
    {
        let mine = self.cell(c).side(d);
        let theirs = self.cell_beyond(c, d).side(d.back());
        if mine == Side::Outside || theirs == Side::Outside {
            Side::Outside
        } else if mine == Side::Open || theirs == Side::Open {
            Side::Open
        } else if mine == Side::Wall || theirs == Side::Wall {
            Side::Wall
        } else {
            Side::Unknown
        }
    }
}

/// A list of cells that can be reached, each once, and the same cells as a map's keys.
spec fn gathered(m: Maze, seen: Map<(int, int), bool>, list: Seq<(int, int)>) -> bool {
    &&& list.no_duplicates()
    &&& forall|p: (int, int)| #[trigger] seen.contains_key(p) <==> list.contains(p)
    &&& forall|j: int| 0 <= j < list.len() ==> m.reaches(#[trigger] list[j])
    &&& forall|j: int|
        0 <= j < list.len() ==> m.cells.dom().insert(m.at).contains(#[trigger] list[j])
}

/// Nothing is left to find out in `c`, and what its openings lead to is on the list.
spec fn settled_in(m: Maze, seen: Map<(int, int), bool>, c: (int, int)) -> bool {
    &&& finished(m, c)
    &&& forall|d: Dir| #[trigger] m.cell(c).looks(d) is Open ==> seen.contains_key(beyond(c, d))
}

proof fn lemma_gathers(m: Maze, seen: Map<(int, int), bool>, list: Seq<(int, int)>, n: (int, int))
    requires
        gathered(m, seen, list),
        !seen.contains_key(n),
        m.reaches(n),
        m.cells.contains_key(n),
    ensures
        gathered(m, seen.insert(n, true), list.push(n)),
{
    let after = list.push(n);
    assert forall|p: (int, int)| #[trigger] seen.insert(n, true).contains_key(p) <==> after.contains(p) by {
        if list.contains(p) {
            let j = choose|j: int| 0 <= j < list.len() && list[j] == p;
            assert(after[j] == p);
        }
        if p == n {
            assert(after[list.len() as int] == n);
        }
        if after.contains(p) && p != n {
            let j = choose|j: int| 0 <= j < after.len() && after[j] == p;
            assert(list[j] == p);
        }
        assert(seen.contains_key(p) <==> list.contains(p));
    }
    assert(!list.contains(n));
    assert(after.no_duplicates());
}

proof fn lemma_gathered_size(m: Maze, seen: Map<(int, int), bool>, list: Seq<(int, int)>)
    requires
        gathered(m, seen, list),
        m.cells.dom().finite(),
    ensures
        list.len() <= m.cells.dom().insert(m.at).len(),
{
    list.unique_seq_to_set();
    let all = m.cells.dom().insert(m.at);
    assert(list.to_set().subset_of(all)) by {
        assert forall|p: (int, int)| #[trigger] list.to_set().contains(p) implies all.contains(p) by {
            let j = choose|j: int| 0 <= j < list.len() && list[j] == p;
            assert(all.contains(list[j]));
        }
    }
    vstd::set_lib::lemma_len_subset(list.to_set(), all);
}

/// What can be reached can be left by its openings.
proof fn lemma_reach_further(m: Maze, c: (int, int), d: Dir)
    requires
        m.reaches(c),
        m.cell(c).looks(d) is Open,
    ensures
        m.reaches(beyond(c, d)),
{
    let walk = choose|walk: Seq<(int, int)>|
        {
            &&& walk.len() > 0
            &&& walk[0] == m.at
            &&& walk.last() == c
            &&& #[trigger] is_walk(m.recorded(), walk)
        };
    let longer = walk.push(beyond(c, d));
    assert forall|i: int| 0 <= i < longer.len() - 1 implies #[trigger] steps(
        m.recorded(),
        longer,
        i,
    ) by {
        if i < walk.len() - 1 {
            assert(steps(m.recorded(), walk, i));
            assert(longer[i] == walk[i] && longer[i + 1] == walk[i + 1]);
        } else {
            assert(beyond(longer[i], d) == longer[i + 1] && (m.recorded())(longer[i], d) is Open);
        }
    }
    assert(is_walk(m.recorded(), longer));
    assert(longer[0] == m.at);
    assert(longer.last() == beyond(c, d));
}

/// Everything is explored if the duck stands in a region that no opening leaves and that holds
/// nothing left to find out.
pub proof fn lemma_closed_is_explored(m: Maze, region: Set<(int, int)>)
    requires
        region.contains(m.at),
        forall|c: (int, int)| #[trigger] region.contains(c) ==> finished(m, c),
        forall|c: (int, int), d: Dir|
            region.contains(c) && #[trigger] m.cell(c).looks(d) is Open ==> region.contains(beyond(c, d)),
    ensures
        m.explored(),
{
    assert forall|c: (int, int)| #[trigger] m.reaches(c) implies finished(m, c) by {
        let walk = choose|walk: Seq<(int, int)>|
            {
                &&& walk.len() > 0
                &&& walk[0] == m.at
                &&& walk.last() == c
                &&& #[trigger] is_walk(m.recorded(), walk)
            };
        lemma_walk_stays(m, region, walk, walk.len() - 1);
    }
}

proof fn lemma_walk_stays(m: Maze, region: Set<(int, int)>, walk: Seq<(int, int)>, i: int)
    requires
        region.contains(m.at),
        forall|c: (int, int), d: Dir|
            region.contains(c) && #[trigger] m.cell(c).looks(d) is Open ==> region.contains(beyond(c, d)),
        walk.len() > 0,
        walk[0] == m.at,
        is_walk(m.recorded(), walk),
        0 <= i < walk.len(),
    ensures
        region.contains(walk[i]),
    decreases i,
{
    if i > 0 {
        lemma_walk_stays(m, region, walk, i - 1);
        assert(steps(m.recorded(), walk, i - 1));
        let d = choose|d: Dir| beyond(walk[i - 1], d) == walk[i] && #[trigger] (m.recorded())(
            walk[i - 1],
            d,
        ) is Open;
        assert(m.cell(walk[i - 1]).looks(d) is Open);
    }
}

/// Every direction has a place in the preference.
proof fn lemma_preference_is_all(facing: Dir, e: Dir) -> (j: int)
    ensures
        0 <= j < 4,
        preference(facing)[j] == e,
        preference(facing).len() == 4,
{
    let p = preference(facing);
    if p[0] == e {
        0
    } else if p[1] == e {
        1
    } else if p[2] == e {
        2
    } else {
        3
    }
}

/// There is a neighbour in direction `d`.
fn has_beyond(c: (i32, i32), d: Dir) -> (r: bool)
    ensures
        r == is_cell(beyond(place(c), d)),
{
    match d {
        Dir::East => c.0 < i32::MAX,
        Dir::North => c.1 < i32::MAX,
        Dir::West => c.0 > i32::MIN,
        Dir::South => c.1 > i32::MIN,
    }
}

/// Odometry snapped to the nearest cell centre along one axis, the ends of the coordinate
/// range included.
pub open spec fn snapped(odom: int) -> int {
    held(rounded(odom, CELL_M as int), i32::MIN as int, i32::MAX as int)
}

fn snap(odom: i64) -> (c: i32)
    ensures
        c == snapped(odom as int),
{
    let c: i128 = round_div(odom as i128, CELL_M as i128);
    if c < i32::MIN as i128 {
        i32::MIN
    } else if c > i32::MAX as i128 {
        i32::MAX
    } else {
        c as i32
    }
}

} // verus!

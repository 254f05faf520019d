//! The maze map as text and as a picture.

use vstd::prelude::*;

use crate::maze::{beyond, visited, Cell, Dir, Maze, MazeMap, Side};
use crate::extent::{bound, box_of, Bounds};
use crate::picture::{in_frame, law_picture_shows_every_side, shows_the_maze};
use crate::sparse::{cells_of, picked, place};
use crate::text::{number, numeral_of, shown, spread};

verus! {

/// The box around the cells the duck stood in; with none, the one cell at the start.
pub open spec fn frame(m: Maze) -> Bounds {
    match box_of(picked(m.cells, stepped_on())) {
        Some(b) => b,
        None => Bounds { x0: 0, x1: 0, y0: 0, y1: 0 },
    }
}

/// A side drawn across: nothing is known of a side between two cells never visited.
pub open spec fn across(m: Maze, c: (int, int), d: Dir) -> Seq<char> {
    if !visited(m, c) && !visited(m, beyond(c, d)) {
        "  "@
    } else {
        match m.edge(c, d) {
            Side::Wall => "--"@,
            Side::Open => "  "@,
            Side::Outside => "^^"@,
            Side::Unknown => "··"@,
        }
    }
}

/// A side drawn upright.
pub open spec fn upright(m: Maze, c: (int, int), d: Dir) -> Seq<char> {
    if !visited(m, c) && !visited(m, beyond(c, d)) {
        " "@
    } else {
        match m.edge(c, d) {
            Side::Wall => "|"@,
            Side::Open => " "@,
            Side::Outside => ">"@,
            Side::Unknown => ":"@,
        }
    }
}

/// What stands in a cell: the duck, the visit count, or nothing.
pub open spec fn inside(m: Maze, c: (int, int)) -> Seq<char> {
    if c == m.at {
        "@ "@
    } else if visited(m, c) {
        shown(m.cell(c).visits as int) + " "@
    } else {
        "  "@
    }
}

/// The line between two rows: each cell's side towards `d`, between pillars.
pub open spec fn pillar_pieces(m: Maze, b: Bounds, y: int, d: Dir) -> spec_fn(int) -> Seq<char> {
    |i: int| across(m, (b.x0 + i, y), d) + "+"@
}

pub open spec fn pillars(m: Maze, b: Bounds, y: int, d: Dir) -> Seq<char> {
    "+"@ + spread(b.width(), pillar_pieces(m, b, y, d)) + "\n"@
}

pub open spec fn room_pieces(m: Maze, b: Bounds, y: int) -> spec_fn(int) -> Seq<char> {
    |i: int| upright(m, (b.x0 + i, y), Dir::West) + inside(m, (b.x0 + i, y))
}

/// A row of cells, with the sides between them.
pub open spec fn room_line(m: Maze, b: Bounds, y: int) -> Seq<char> {
    spread(b.width(), room_pieces(m, b, y)) + upright(m, (b.x1 as int, y), Dir::East) + "\n"@
}

pub open spec fn line_pieces(m: Maze, b: Bounds) -> spec_fn(int) -> Seq<char> {
    |r: int| pillars(m, b, b.y1 - r, Dir::North) + room_line(m, b, b.y1 - r)
}

/// The whole map, rows from north to south.
pub open spec fn drawing(m: Maze, b: Bounds) -> Seq<char> {
    spread(b.height(), line_pieces(m, b)) + pillars(m, b, b.y0 as int, Dir::South)
}

impl MazeMap {
    /// Every cell the duck stood in.
    fn walked(&self) -> (cells: Vec<(i32, i32)>)
        ensures
            cells_of(cells@).to_set() == picked(self@.cells, stepped_on()),
            cells.len() == cells_walked(self@),
    {
        self.cells.select(is_stepped_on, Ghost(stepped_on()))
    }

    /// The box around every cell the duck stood in.
    fn bounds(&self) -> (b: Bounds)
        ensures
            b == frame(self@),
            b.x0 <= b.x1,
            b.y0 <= b.y1,
            in_frame(self@),
    {
        let found = bound(&self.walked());
        proof {
            let s = picked(self@.cells, stepped_on());
            assert forall|c: (int, int)| #[trigger] visited(self@, c) implies frame(self@).holds(
                c,
            ) by {
                assert(s.contains(c));
            }
        }
        match found {
            Some(b) => b,
            None => Bounds { x0: 0, x1: 0, y0: 0, y1: 0 },
        }
    }

    fn stood_in(&self, c: (i32, i32)) -> (r: bool)
        ensures
            r == visited(self@, place(c)),
    {
        self.cell(c).visits > 0
    }

    fn stood_beyond(&self, c: (i32, i32), d: Dir) -> (r: bool)
        ensures
            r == visited(self@, beyond(place(c), d)),
    {
        self.cell_beyond(c, d).visits > 0
    }

    fn horizontal(&self, c: (i32, i32), d: Dir) -> (s: &'static str)
        ensures
            s@ == across(self@, place(c), d),
    {
        if !self.stood_in(c) && !self.stood_beyond(c, d) {
            return "  ";
        }
        match self.edge(c, d) {
            Side::Wall => "--",
            Side::Open => "  ",
            Side::Outside => "^^",
            Side::Unknown => "··",
        }
    }

    fn vertical(&self, c: (i32, i32), d: Dir) -> (s: &'static str)
        ensures
            s@ == upright(self@, place(c), d),
    {
        if !self.stood_in(c) && !self.stood_beyond(c, d) {
            return " ";
        }
        match self.edge(c, d) {
            Side::Wall => "|",
            Side::Open => " ",
            Side::Outside => ">",
            Side::Unknown => ":",
        }
    }

    fn body(&self, c: (i32, i32)) -> (s: String)
        ensures
            s@ == inside(self@, place(c)),
    {
        if c.0 == self.at.0 && c.1 == self.at.1 {
            "@ ".to_owned()
        } else if self.stood_in(c) {
            let mut s = number(self.cell(c).visits as i64);
            s.append(" ");
            s
        } else {
            "  ".to_owned()
        }
    }

    fn pillar_row(&self, b: &Bounds, y: i32, d: Dir) -> (s: String)
        requires
            b.x0 <= b.x1,
        ensures
            s@ == pillars(self@, *b, y as int, d),
    {
        let mut t = String::new();
        let n: i64 = b.x1 as i64 - b.x0 as i64 + 1;
        let mut i: i64 = 0;
        while i < n
            invariant
                0 <= i <= n,
                n == b.width(),
                b.x0 <= b.x1,
                t@ == spread(i as nat, pillar_pieces(self@, *b, y as int, d)),
            decreases n - i,
        {
            let x: i32 = (b.x0 as i64 + i) as i32;
            let mut piece = self.horizontal((x, y), d).to_owned();
            piece.append("+");
            t.append(piece.as_str());
            i += 1;
        }
        let mut s = "+".to_owned();
        s.append(t.as_str());
        s.append("\n");
        s
    }

    fn room_row(&self, b: &Bounds, y: i32) -> (s: String)
        requires
            b.x0 <= b.x1,
        ensures
            s@ == room_line(self@, *b, y as int),
    {
        let mut t = String::new();
        let n: i64 = b.x1 as i64 - b.x0 as i64 + 1;
        let mut i: i64 = 0;
        while i < n
            invariant
                0 <= i <= n,
                n == b.width(),
                b.x0 <= b.x1,
                t@ == spread(i as nat, room_pieces(self@, *b, y as int)),
            decreases n - i,
        {
            let x: i32 = (b.x0 as i64 + i) as i32;
            let mut piece = self.vertical((x, y), Dir::West).to_owned();
            piece.append(self.body((x, y)).as_str());
            t.append(piece.as_str());
            i += 1;
        }
        t.append(self.vertical((b.x1, y), Dir::East));
        t.append("\n");
        t
    }

    /// The map as the duck believes it, in the generator's notation: `--` a wall, spaces an
    /// opening, `··` a side never looked at; cells show their visit count, `@` is the duck.
    /// Rows run north to south so it reads like the room seen from above.
    pub fn ascii(&self) -> (s: String)
        ensures
            s@ == drawing(self@, frame(self@)),
    {
        let b = self.bounds();
        let mut out = String::new();
        let n: i64 = b.y1 as i64 - b.y0 as i64 + 1;
        let mut r: i64 = 0;
        while r < n
            invariant
                0 <= r <= n,
                n == b.height(),
                b.x0 <= b.x1,
                b.y0 <= b.y1,
                out@ == spread(r as nat, line_pieces(self@, b)),
            decreases n - r,
        {
            let y: i32 = (b.y1 as i64 - r) as i32;
            let mut piece = self.pillar_row(&b, y, Dir::North);
            piece.append(self.room_row(&b, y).as_str());
            out.append(piece.as_str());
            r += 1;
        }
        out.append(self.pillar_row(&b, b.y0, Dir::South).as_str());
        out
    }
}

/// The width of a cell on the page, in pixels.
const S: i64 = 60;

/// The margin around the page, in pixels.
const M: i64 = 30;

/// Where a column of cells starts on the page.
pub open spec fn page_x(b: Bounds, x: int) -> int {
    30 + (x - b.x0) * 60
}

/// Where a row of cells starts on the page: north is up.
pub open spec fn page_y(b: Bounds, y: int) -> int {
    30 + (b.y1 - y) * 60
}

pub open spec fn page_width(b: Bounds) -> int {
    (b.x1 - b.x0 + 1) * 60 + 60
}

pub open spec fn page_height(b: Bounds) -> int {
    (b.y1 - b.y0 + 1) * 60 + 76
}

/// The opening tag and the background.
pub open spec fn page_head(b: Bounds) -> Seq<char> {
    let w = shown(page_width(b));
    let h = shown(page_height(b));
    "<svg xmlns=\"http://www.w3.org/2000/svg\" width=\""@ + w + "\" height=\""@ + h
        + "\" viewBox=\"0 0 "@ + w + " "@ + h + "\" font-family=\"sans-serif\">\n<rect width=\""@
        + w + "\" height=\""@ + h + "\" fill=\"#fafaf7\"/>\n"@
}

/// The darker a cell, the more often it was visited.
pub open spec fn shade(visits: u32) -> Seq<char> {
    if visits == 1 {
        "#dbe9f6"@
    } else if visits == 2 {
        "#b7d3ee"@
    } else {
        "#8fbbe3"@
    }
}

pub open spec fn square(x: int, y: int, fill: Seq<char>) -> Seq<char> {
    "<rect x=\""@ + shown(x) + "\" y=\""@ + shown(y)
        + "\" width=\"60\" height=\"60\" fill=\""@ + fill + "\"/>\n"@
}

/// How a side is stroked; an opening is not drawn.
pub open spec fn stroke(side: Side) -> Seq<char> {
    match side {
        Side::Wall => "stroke=\"#333\" stroke-width=\"4\""@,
        Side::Open => ""@,
        Side::Outside => "stroke=\"#2a9d3f\" stroke-width=\"4\" stroke-dasharray=\"2 6\""@,
        Side::Unknown => "stroke=\"#bbb\" stroke-width=\"2\" stroke-dasharray=\"3 5\""@,
    }
}

/// One side of a cell, from one end to the other.
pub open spec fn side_line(side: Side, from: (int, int), to: (int, int)) -> Seq<char> {
    if side is Open {
        Seq::empty()
    } else {
        "<line x1=\""@ + shown(from.0) + "\" y1=\""@ + shown(from.1) + "\" x2=\""@ + shown(to.0)
            + "\" y2=\""@ + shown(to.1) + "\" "@ + stroke(side) + " stroke-linecap=\"round\"/>\n"@
    }
}

/// A visited cell and its four sides; nothing for a cell never visited.
pub open spec fn cell_picture(m: Maze, b: Bounds, c: (int, int)) -> Seq<char> {
    let x = page_x(b, c.0);
    let y = page_y(b, c.1);
    if !visited(m, c) {
        Seq::empty()
    } else {
        square(x, y, shade(m.cell(c).visits)) + side_line(
            m.edge(c, Dir::North),
            (x, y),
            (x + 60, y),
        ) + side_line(m.edge(c, Dir::South), (x, y + 60), (x + 60, y + 60)) + side_line(
            m.edge(c, Dir::West),
            (x, y),
            (x, y + 60),
        ) + side_line(m.edge(c, Dir::East), (x + 60, y), (x + 60, y + 60))
    }
}

pub open spec fn row_pictures(m: Maze, b: Bounds, y: int) -> spec_fn(int) -> Seq<char> {
    |i: int| cell_picture(m, b, (b.x0 + i, y))
}

pub open spec fn grid_pictures(m: Maze, b: Bounds) -> spec_fn(int) -> Seq<char> {
    |j: int| spread(b.width(), row_pictures(m, b, b.y0 + j))
}

/// The middle of a cell as a point of the route, after a space where it is not the first.
pub open spec fn route_points(b: Bounds, path: Seq<(int, int)>) -> spec_fn(int) -> Seq<char> {
    |i: int|
        (if i == 0 {
            ""@
        } else {
            " "@
        }) + shown(page_x(b, path[i].0) + 30) + ","@ + shown(page_y(b, path[i].1) + 30)
}

/// The route as a line, where it has more than one cell.
pub open spec fn route(b: Bounds, path: Seq<(int, int)>) -> Seq<char> {
    if path.len() > 1 {
        "<polyline points=\""@ + spread(path.len(), route_points(b, path))
            + "\" fill=\"none\" stroke=\"#e07b39\" stroke-width=\"3\" stroke-linejoin=\"round\" opacity=\"0.85\"/>\n"@
    } else {
        Seq::empty()
    }
}

pub open spec fn start_mark(b: Bounds, path: Seq<(int, int)>) -> Seq<char> {
    if path.len() > 0 {
        "<circle cx=\""@ + shown(page_x(b, path[0].0) + 30) + "\" cy=\""@ + shown(
            page_y(b, path[0].1) + 30,
        ) + "\" r=\"9\" fill=\"#2a9d3f\"/>\n"@
    } else {
        Seq::empty()
    }
}

pub open spec fn duck_mark(b: Bounds, at: (int, int)) -> Seq<char> {
    "<circle cx=\""@ + shown(page_x(b, at.0) + 30) + "\" cy=\""@ + shown(page_y(b, at.1) + 30)
        + "\" r=\"9\" fill=\"#e6b422\" stroke=\"#333\" stroke-width=\"2\"/>\n"@
}

pub open spec fn stepped_on() -> spec_fn(Cell) -> bool {
    |c: Cell| c.visits > 0
}

fn is_stepped_on(c: Cell) -> (r: bool)
    ensures
        r == stepped_on()(c),
{
    c.visits > 0
}

/// How many cells the duck stood in.
pub open spec fn cells_walked(m: Maze) -> nat {
    picked(m.cells, stepped_on()).len()
}

pub open spec fn caption(m: Maze, b: Bounds) -> Seq<char> {
    "<text x=\"30\" y=\""@ + shown(page_height(b) - 6) + "\" font-size=\"12\" fill=\"#555\">"@
        + shown(cells_walked(m) as int) + " cells walked · "@ + shown(m.moves as int)
        + " moves · dotted = never looked · green = outside</text>\n</svg>\n"@
}

/// The whole picture.
pub open spec fn picture(m: Maze, b: Bounds) -> Seq<char> {
    page_head(b) + spread(b.height(), grid_pictures(m, b)) + route(b, m.path) + start_mark(
        b,
        m.path,
    ) + duck_mark(b, m.at) + caption(m, b)
}

fn head_text(b: &Bounds) -> (t: String)
    requires
        b.x0 <= b.x1,
        b.y0 <= b.y1,
    ensures
        t@ == page_head(*b),
{
    let w = number((b.x1 as i64 - b.x0 as i64 + 1) * S + 2 * M);
    let h = number((b.y1 as i64 - b.y0 as i64 + 1) * S + 2 * M + 16);
    let mut t = "<svg xmlns=\"http://www.w3.org/2000/svg\" width=\"".to_owned();
    t.append(w.as_str());
    t.append("\" height=\"");
    t.append(h.as_str());
    t.append("\" viewBox=\"0 0 ");
    t.append(w.as_str());
    t.append(" ");
    t.append(h.as_str());
    t.append("\" font-family=\"sans-serif\">\n<rect width=\"");
    t.append(w.as_str());
    t.append("\" height=\"");
    t.append(h.as_str());
    t.append("\" fill=\"#fafaf7\"/>\n");
    t
}

fn shade_of(visits: u32) -> (s: &'static str)
    ensures
        s@ == shade(visits),
{
    if visits == 1 {
        "#dbe9f6"
    } else if visits == 2 {
        "#b7d3ee"
    } else {
        "#8fbbe3"
    }
}

fn square_text(x: i64, y: i64, fill: &str) -> (t: String)
    ensures
        t@ == square(x as int, y as int, fill@),
{
    let mut t = "<rect x=\"".to_owned();
    t.append(number(x).as_str());
    t.append("\" y=\"");
    t.append(number(y).as_str());
    t.append("\" width=\"60\" height=\"60\" fill=\"");
    t.append(fill);
    t.append("\"/>\n");
    t
}

fn stroke_of(side: Side) -> (s: &'static str)
    ensures
        s@ == stroke(side),
{
    match side {
        Side::Wall => "stroke=\"#333\" stroke-width=\"4\"",
        Side::Open => "",
        Side::Outside => "stroke=\"#2a9d3f\" stroke-width=\"4\" stroke-dasharray=\"2 6\"",
        Side::Unknown => "stroke=\"#bbb\" stroke-width=\"2\" stroke-dasharray=\"3 5\"",
    }
}

fn side_text(side: Side, from: (i64, i64), to: (i64, i64)) -> (t: String)
    ensures
        t@ == side_line(side, (from.0 as int, from.1 as int), (to.0 as int, to.1 as int)),
{
    if side == Side::Open {
        return String::new();
    }
    let mut t = "<line x1=\"".to_owned();
    t.append(number(from.0).as_str());
    t.append("\" y1=\"");
    t.append(number(from.1).as_str());
    t.append("\" x2=\"");
    t.append(number(to.0).as_str());
    t.append("\" y2=\"");
    t.append(number(to.1).as_str());
    t.append("\" ");
    t.append(stroke_of(side));
    t.append(" stroke-linecap=\"round\"/>\n");
    t
}

fn px(b: &Bounds, x: i32) -> (p: i64)
    ensures
        p == page_x(*b, x as int),
{
    M + (x as i64 - b.x0 as i64) * S
}

fn py(b: &Bounds, y: i32) -> (p: i64)
    ensures
        p == page_y(*b, y as int),
{
    M + (b.y1 as i64 - y as i64) * S
}

impl MazeMap {
    fn cell_text(&self, b: &Bounds, c: (i32, i32)) -> (t: String)
        ensures
            t@ == cell_picture(self@, *b, place(c)),
    {
        if !self.stood_in(c) {
            return String::new();
        }
        let x: i64 = px(b, c.0);
        let y: i64 = py(b, c.1);
        let mut t = square_text(x, y, shade_of(self.cell(c).visits));
        t.append(side_text(self.edge(c, Dir::North), (x, y), (x + S, y)).as_str());
        t.append(side_text(self.edge(c, Dir::South), (x, y + S), (x + S, y + S)).as_str());
        t.append(side_text(self.edge(c, Dir::West), (x, y), (x, y + S)).as_str());
        t.append(side_text(self.edge(c, Dir::East), (x + S, y), (x + S, y + S)).as_str());
        t
    }

    fn row_text(&self, b: &Bounds, y: i32) -> (t: String)
        requires
            b.x0 <= b.x1,
        ensures
            t@ == spread(b.width(), row_pictures(self@, *b, y as int)),
    {
        let mut t = String::new();
        let n: i64 = b.x1 as i64 - b.x0 as i64 + 1;
        let mut i: i64 = 0;
        while i < n
            invariant
                0 <= i <= n,
                n == b.width(),
                b.x0 <= b.x1,
                t@ == spread(i as nat, row_pictures(self@, *b, y as int)),
            decreases n - i,
        {
            let x: i32 = (b.x0 as i64 + i) as i32;
            t.append(self.cell_text(b, (x, y)).as_str());
            i += 1;
        }
        t
    }

    fn grid_text(&self, b: &Bounds) -> (t: String)
        requires
            b.x0 <= b.x1,
            b.y0 <= b.y1,
        ensures
            t@ == spread(b.height(), grid_pictures(self@, *b)),
    {
        let mut t = String::new();
        let n: i64 = b.y1 as i64 - b.y0 as i64 + 1;
        let mut j: i64 = 0;
        while j < n
            invariant
                0 <= j <= n,
                n == b.height(),
                b.x0 <= b.x1,
                b.y0 <= b.y1,
                t@ == spread(j as nat, grid_pictures(self@, *b)),
            decreases n - j,
        {
            let y: i32 = (b.y0 as i64 + j) as i32;
            t.append(self.row_text(b, y).as_str());
            j += 1;
        }
        t
    }

    fn route_text(&self, b: &Bounds) -> (t: String)
        ensures
            t@ == route(*b, self@.path),
    {
        if self.path.len() <= 1 {
            return String::new();
        }
        let mut points = String::new();
        let n: usize = self.path.len();
        let mut i: usize = 0;
        while i < n
            invariant
                0 <= i <= n,
                n == self.path.len(),
                points@ == spread(i as nat, route_points(*b, self@.path)),
            decreases n - i,
        {
            let c = self.path[i];
            assert(self@.path[i as int] == place(c));
            let mut point = if i == 0 {
                "".to_owned()
            } else {
                " ".to_owned()
            };
            point.append(number(px(b, c.0) + S / 2).as_str());
            point.append(",");
            point.append(number(py(b, c.1) + S / 2).as_str());
            points.append(point.as_str());
            i += 1;
        }
        let mut t = "<polyline points=\"".to_owned();
        t.append(points.as_str());
        t.append(
            "\" fill=\"none\" stroke=\"#e07b39\" stroke-width=\"3\" stroke-linejoin=\"round\" opacity=\"0.85\"/>\n",
        );
        t
    }

    fn start_text(&self, b: &Bounds) -> (t: String)
        ensures
            t@ == start_mark(*b, self@.path),
    {
        if self.path.len() == 0 {
            return String::new();
        }
        let c = self.path[0];
        assert(self@.path[0] == place(c));
        let mut t = "<circle cx=\"".to_owned();
        t.append(number(px(b, c.0) + S / 2).as_str());
        t.append("\" cy=\"");
        t.append(number(py(b, c.1) + S / 2).as_str());
        t.append("\" r=\"9\" fill=\"#2a9d3f\"/>\n");
        t
    }

    fn duck_text(&self, b: &Bounds) -> (t: String)
        ensures
            t@ == duck_mark(*b, self@.at),
    {
        let mut t = "<circle cx=\"".to_owned();
        t.append(number(px(b, self.at.0) + S / 2).as_str());
        t.append("\" cy=\"");
        t.append(number(py(b, self.at.1) + S / 2).as_str());
        t.append("\" r=\"9\" fill=\"#e6b422\" stroke=\"#333\" stroke-width=\"2\"/>\n");
        t
    }

    fn caption_text(&self, b: &Bounds) -> (t: String)
        requires
            b.y0 <= b.y1,
        ensures
            t@ == caption(self@, *b),
    {
        let h: i64 = (b.y1 as i64 - b.y0 as i64 + 1) * S + 2 * M + 16;
        let mut t = "<text x=\"30\" y=\"".to_owned();
        t.append(number(h - 6).as_str());
        t.append("\" font-size=\"12\" fill=\"#555\">");
        t.append(numeral_of(self.walked().len() as u64).as_str());
        t.append(" cells walked · ");
        t.append(number(self.moves as i64).as_str());
        t.append(" moves · dotted = never looked · green = outside</text>\n</svg>\n");
        t
    }

    /// The same map as an SVG: walls solid, unlooked sides dotted, visited cells shaded by
    /// visits, the route as a line from the green start to the gold end.
    pub fn svg(&self) -> (t: String)
        ensures
            t@ == picture(self@, frame(self@)),
            shows_the_maze(self@, t@),
    {
        let b = self.bounds();
        proof {
            law_picture_shows_every_side(self@);
        }
        let mut out = head_text(&b);
        out.append(self.grid_text(&b).as_str());
        out.append(self.route_text(&b).as_str());
        out.append(self.start_text(&b).as_str());
        out.append(self.duck_text(&b).as_str());
        out.append(self.caption_text(&b).as_str());
        out
    }
}

} // verus!

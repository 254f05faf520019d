//! The room map as text and as a picture.

use vstd::prelude::*;

use crate::extent::{bound, box_of, Bounds};
use crate::room::{cell_of, key, points, Cell, Room, RoomMap, FREE, OCCUPIED, RES};
use crate::sparse::{cells_of, in_order, picked, place};
use crate::double::{area_shown, area_text};
use crate::text::{decimal, in_decimal, number, numeral, numeral_of, shown, spread};

verus! {

pub open spec fn is_free() -> spec_fn(i16) -> bool {
    |v: i16| v <= FREE
}

pub open spec fn is_occupied() -> spec_fn(i16) -> bool {
    |v: i16| v >= OCCUPIED
}

pub open spec fn is_known() -> spec_fn(i16) -> bool {
    |v: i16| v <= FREE || v >= OCCUPIED
}

fn free(v: i16) -> (r: bool)
    ensures
        r == is_free()(v),
{
    v <= FREE
}

fn occupied(v: i16) -> (r: bool)
    ensures
        r == is_occupied()(v),
{
    v >= OCCUPIED
}

fn known(v: i16) -> (r: bool)
    ensures
        r == is_known()(v),
{
    v <= FREE || v >= OCCUPIED
}

impl Room {
    /// How many cells are believed free.
    pub open spec fn free_cells(self) -> nat {
        picked(self.odds, is_free()).len()
    }

    /// How many cells are believed occupied.
    pub open spec fn occupied_cells(self) -> nat {
        picked(self.odds, is_occupied()).len()
    }

    /// The box around everything known.
    pub open spec fn frame(self) -> Option<Bounds> {
        box_of(picked(self.odds, is_known()))
    }

    /// The duck has stood in cell `c`.
    pub open spec fn trodden(self, c: (int, int)) -> bool {
        exists|i: int|
            0 <= i < self.track.len() && #[trigger] cell_of(self.track[i].0, self.track[i].1) == c
    }
}

/// One cell as a character.
pub open spec fn tile(m: Room, at: (int, int), c: (int, int)) -> Seq<char> {
    if c == at {
        "@"@
    } else {
        match m.cell(c) {
            Cell::Occupied => "#"@,
            Cell::Free => if m.trodden(c) {
                "*"@
            } else {
                "."@
            },
            Cell::Unknown => " "@,
        }
    }
}

pub open spec fn tiles(m: Room, b: Bounds, at: (int, int), y: int) -> spec_fn(int) -> Seq<char> {
    |i: int| tile(m, at, (b.x0 + i, y))
}

pub open spec fn tile_lines(m: Room, b: Bounds, at: (int, int)) -> spec_fn(int) -> Seq<char> {
    |r: int| spread(b.width(), tiles(m, b, at, b.y1 - r)) + "\n"@
}

/// The whole room, one character per cell, rows from north to south.
pub open spec fn floor_plan(m: Room, at: (int, int)) -> Seq<char> {
    match m.frame() {
        None => "(nothing known yet)\n"@,
        Some(b) => spread(b.height(), tile_lines(m, b, at)),
    }
}

impl RoomMap {
    /// How many cells are free and how many are occupied.
    pub fn counts(&self) -> (r: (usize, usize))
        ensures
            r.0 == self@.free_cells(),
            r.1 == self@.occupied_cells(),
    {
        let frees = self.cells.select(free, Ghost(is_free()));
        let occ = self.cells.select(occupied, Ghost(is_occupied()));
        (frees.len(), occ.len())
    }

    fn bounds(&self) -> (b: Option<Bounds>)
        ensures
            b == self@.frame(),
            b matches Some(b) ==> b.x0 <= b.x1 && b.y0 <= b.y1,
    {
        bound(&self.cells.select(known, Ghost(is_known())))
    }

    fn stood_in(&self, c: (i32, i32)) -> (r: bool)
        ensures
            r == self@.trodden(place(c)),
    {
        let n: usize = self.track.len();
        let mut i: usize = 0;
        while i < n
            invariant
                n == self.track.len(),
                i <= n,
                forall|j: int|
                    0 <= j < i ==> #[trigger] cell_of(self@.track[j].0, self@.track[j].1) != place(c),
            decreases n - i,
        {
            let p = self.track[i];
            assert(self@.track[i as int] == (p.0 as int, p.1 as int));
            let k = key(p.0 as i128, p.1 as i128);
            if k.0 == c.0 && k.1 == c.1 {
                assert(cell_of(self@.track[i as int].0, self@.track[i as int].1) == place(c));
                return true;
            }
            i += 1;
        }
        false
    }

    fn tile_of(&self, at: (i32, i32), c: (i32, i32)) -> (s: &'static str)
        ensures
            s@ == tile(self@, place(at), place(c)),
    {
        if c.0 == at.0 && c.1 == at.1 {
            return "@";
        }
        match self.cell(c) {
            Cell::Occupied => "#",
            Cell::Free => if self.stood_in(c) {
                "*"
            } else {
                "."
            },
            Cell::Unknown => " ",
        }
    }

    fn tile_line(&self, b: &Bounds, at: (i32, i32), y: i32) -> (t: String)
        requires
            b.x0 <= b.x1,
        ensures
            t@ == spread(b.width(), tiles(self@, *b, place(at), y as int)) + "\n"@,
    {
        let mut t = String::new();
        let n: i64 = b.x1 as i64 - b.x0 as i64 + 1;
        let mut i: i64 = 0;
        while i < n
            invariant
                0 <= i <= n,
                n == b.width(),
                b.x0 <= b.x1,
                t@ == spread(i as nat, tiles(self@, *b, place(at), y as int)),
            decreases n - i,
        {
            let x: i32 = (b.x0 as i64 + i) as i32;
            t.append(self.tile_of(at, (x, y)));
            i += 1;
        }
        t.append("\n");
        t
    }

    /// The room from above, one character per cell: `#` a thing, `.` floor, a space unknown,
    /// `@` the duck, `*` its track.
    pub fn ascii(&self, duck: (i64, i64)) -> (s: String)
        ensures
            s@ == floor_plan(self@, cell_of(duck.0 as int, duck.1 as int)),
    {
        let b = match self.bounds() {
            Some(b) => b,
            None => {
                return "(nothing known yet)\n".to_owned();
            },
        };
        let at = key(duck.0 as i128, duck.1 as i128);
        let mut out = String::new();
        let n: i64 = b.y1 as i64 - b.y0 as i64 + 1;
        let mut r: i64 = 0;
        while r < n
            invariant
                0 <= r <= n,
                n == b.height(),
                b.x0 <= b.x1,
                b.y0 <= b.y1,
                out@ == spread(r as nat, tile_lines(self@, b, place(at))),
            decreases n - r,
        {
            let y: i32 = (b.y1 as i64 - r) as i32;
            out.append(self.tile_line(&b, at, y).as_str());
            r += 1;
        }
        out
    }
}

/// Where a point lies across the page, in pixels: eight to a cell and a margin of twenty. The
/// point is `num / den` cells along.
pub open spec fn along(b: Bounds, num: int, den: int) -> Seq<char> {
    decimal(20 * den + (num - b.x0 * den) * 8, den)
}

/// Where a point lies down the page: north is up.
pub open spec fn down(b: Bounds, num: int, den: int) -> Seq<char> {
    decimal(20 * den + ((b.y1 + 1) * den - num) * 8, den)
}

pub open spec fn sheet_width(b: Bounds) -> int {
    (b.x1 - b.x0 + 1) * 8 + 40
}

pub open spec fn sheet_height(b: Bounds) -> int {
    (b.y1 - b.y0 + 1) * 8 + 56
}

/// The opening tag and the background.
pub open spec fn sheet_head(b: Bounds) -> Seq<char> {
    let w = shown(sheet_width(b));
    let h = shown(sheet_height(b));
    "<svg xmlns=\"http://www.w3.org/2000/svg\" width=\""@ + w + "\" height=\""@ + h
        + "\" viewBox=\"0 0 "@ + w + " "@ + h + "\" font-family=\"sans-serif\">\n<rect width=\""@
        + w + "\" height=\""@ + h + "\" fill=\"#fafaf7\"/>\n"@
}

/// A known cell as a square.
pub open spec fn patch(m: Room, b: Bounds, c: (int, int)) -> Seq<char> {
    "<rect x=\""@ + decimal(20 + (c.0 - b.x0) * 8, 1) + "\" y=\""@ + decimal(
        20 + (b.y1 - c.1) * 8,
        1,
    ) + "\" width=\"8\" height=\"8\" fill=\""@ + (if m.cell(c) is Occupied {
        "#333"@
    } else {
        "#dbe9f6"@
    }) + "\"/>\n"@
}

pub open spec fn patches(m: Room, b: Bounds, cells: Seq<(int, int)>) -> spec_fn(int) -> Seq<char> {
    |i: int| patch(m, b, cells[i])
}

/// A point of the track, after a space where it is not the first.
pub open spec fn track_points(b: Bounds, track: Seq<(int, int)>) -> spec_fn(int) -> Seq<char> {
    |i: int|
        (if i == 0 {
            ""@
        } else {
            " "@
        }) + along(b, track[i].0, RES as int) + ","@ + down(b, track[i].1, RES as int)
}

/// The track as a line, where it has more than one point.
pub open spec fn track_line(b: Bounds, track: Seq<(int, int)>) -> Seq<char> {
    if track.len() > 1 {
        "<polyline points=\""@ + spread(track.len(), track_points(b, track))
            + "\" fill=\"none\" stroke=\"#e07b39\" stroke-width=\"2\" opacity=\"0.8\"/>\n"@
    } else {
        Seq::empty()
    }
}

pub open spec fn target_mark(b: Bounds, target: Option<(i64, i64)>) -> Seq<char> {
    match target {
        Some(t) => "<circle cx=\""@ + along(b, t.0 as int, RES as int) + "\" cy=\""@ + down(
            b,
            t.1 as int,
            RES as int,
        ) + "\" r=\"6\" fill=\"none\" stroke=\"#2a9d3f\" stroke-width=\"2\"/>\n"@,
        None => Seq::empty(),
    }
}

/// The duck, and a quarter of a metre of where it looks.
pub open spec fn duck_mark(b: Bounds, duck: (i64, i64), facing: (i32, i32)) -> Seq<char> {
    let x = along(b, duck.0 as int, RES as int);
    let y = down(b, duck.1 as int, RES as int);
    "<circle cx=\""@ + x + "\" cy=\""@ + y
        + "\" r=\"5\" fill=\"#e6b422\" stroke=\"#333\"/>\n<line x1=\""@ + x + "\" y1=\""@ + y
        + "\" x2=\""@ + along(b, 4 * duck.0 + facing.0, 4 * RES) + "\" y2=\""@ + down(
        b,
        4 * duck.1 + facing.1,
        4 * RES,
    ) + "\" stroke=\"#333\" stroke-width=\"2\"/>\n"@
}

pub open spec fn legend(m: Room, b: Bounds) -> Seq<char> {
    "<text x=\"20\" y=\""@ + decimal(sheet_height(b) - 6, 1)
        + "\" font-size=\"12\" fill=\"#555\">"@ + area_shown(m.free_cells())
        + " m² floor seen · "@ + numeral(m.occupied_cells()) + " obstacle cells · "@ + shown(
        m.frames,
    ) + " frames · 0.1 m cells</text>\n</svg>\n"@
}

/// `cells` are the known cells, each once, in reading order.
pub open spec fn are_known(m: Room, cells: Seq<(int, int)>) -> bool {
    &&& cells.to_set() == picked(m.odds, is_known())
    &&& forall|i: int, j: int|
        0 <= i < j < cells.len() ==> crate::sparse::precedes(#[trigger] cells[i], #[trigger] cells[j])
}

/// The picture, with the known cells drawn in the order of `cells`.
pub open spec fn sheet(
    m: Room,
    b: Bounds,
    cells: Seq<(int, int)>,
    duck: (i64, i64),
    facing: (i32, i32),
    target: Option<(i64, i64)>,
) -> Seq<char> {
    sheet_head(b) + spread(cells.len(), patches(m, b, cells)) + track_line(b, m.track)
        + target_mark(b, target) + duck_mark(b, duck, facing) + legend(m, b)
}

pub open spec fn blank_sheet() -> Seq<char> {
    "<svg xmlns=\"http://www.w3.org/2000/svg\" width=\"200\" height=\"40\"><text x=\"10\" y=\"25\">nothing known yet</text></svg>\n"@
}

fn along_text(b: &Bounds, num: i128, den: i128) -> (t: String)
    requires
        100_000_000 <= den <= 400_000_000,
        -0x8_0000_0000_0000_0000 <= num <= 0x8_0000_0000_0000_0000,
    ensures
        t@ == along(*b, num as int, den as int),
{
    proof {
        lemma_scaled(b.x0 as int, den as int);
    }
    in_decimal(20 * den + (num - b.x0 as i128 * den) * 8, den)
}

fn down_text(b: &Bounds, num: i128, den: i128) -> (t: String)
    requires
        100_000_000 <= den <= 400_000_000,
        -0x8_0000_0000_0000_0000 <= num <= 0x8_0000_0000_0000_0000,
    ensures
        t@ == down(*b, num as int, den as int),
{
    proof {
        lemma_scaled(b.y1 + 1, den as int);
    }
    in_decimal(20 * den + ((b.y1 as i128 + 1) * den - num) * 8, den)
}

proof fn lemma_scaled(c: int, den: int)
    requires
        -0x8000_0000 <= c <= 0x8000_0000,
        0 <= den <= 0x2000_0000,
    ensures
        -0x1000_0000_0000_0000 <= c * den <= 0x1000_0000_0000_0000,
{
    assert(-0x1000_0000_0000_0000 <= c * den <= 0x1000_0000_0000_0000) by (nonlinear_arith)
        requires
            -0x8000_0000 <= c <= 0x8000_0000,
            0 <= den <= 0x2000_0000,
    ;
}

fn sheet_head_text(b: &Bounds) -> (t: String)
    requires
        b.x0 <= b.x1,
        b.y0 <= b.y1,
    ensures
        t@ == sheet_head(*b),
{
    let w = number((b.x1 as i64 - b.x0 as i64 + 1) * 8 + 40);
    let h = number((b.y1 as i64 - b.y0 as i64 + 1) * 8 + 56);
    let mut t = "<svg xmlns=\"http://www.w3.org/2000/svg\" width=\"".to_owned();
    t.append(w.as_str());
    t.append("\" height=\"");
    t.append(h.as_str());
    t.append("\" viewBox=\"0 0 ");
    t.append(w.as_str());
    t.append(" ");
    t.append(h.as_str());
    t.append("\" font-family=\"sans-serif\">\n<rect width=\"");
    t.append(w.as_str());
    t.append("\" height=\"");
    t.append(h.as_str());
    t.append("\" fill=\"#fafaf7\"/>\n");
    t
}

fn target_text(b: &Bounds, target: Option<(i64, i64)>) -> (t: String)
    ensures
        t@ == target_mark(*b, target),
{
    match target {
        Some(p) => {
            let mut t = "<circle cx=\"".to_owned();
            t.append(along_text(b, p.0 as i128, RES as i128).as_str());
            t.append("\" cy=\"");
            t.append(down_text(b, p.1 as i128, RES as i128).as_str());
            t.append("\" r=\"6\" fill=\"none\" stroke=\"#2a9d3f\" stroke-width=\"2\"/>\n");
            t
        },
        None => String::new(),
    }
}

fn duck_text(b: &Bounds, duck: (i64, i64), facing: (i32, i32)) -> (t: String)
    ensures
        t@ == duck_mark(*b, duck, facing),
{
    let x = along_text(b, duck.0 as i128, RES as i128);
    let y = down_text(b, duck.1 as i128, RES as i128);
    let nose_x = along_text(b, 4 * duck.0 as i128 + facing.0 as i128, 4 * RES as i128);
    let nose_y = down_text(b, 4 * duck.1 as i128 + facing.1 as i128, 4 * RES as i128);
    let mut t = "<circle cx=\"".to_owned();
    t.append(x.as_str());
    t.append("\" cy=\"");
    t.append(y.as_str());
    t.append("\" r=\"5\" fill=\"#e6b422\" stroke=\"#333\"/>\n<line x1=\"");
    t.append(x.as_str());
    t.append("\" y1=\"");
    t.append(y.as_str());
    t.append("\" x2=\"");
    t.append(nose_x.as_str());
    t.append("\" y2=\"");
    t.append(nose_y.as_str());
    t.append("\" stroke=\"#333\" stroke-width=\"2\"/>\n");
    t
}

impl RoomMap {
    fn patch_text(&self, b: &Bounds, c: (i32, i32)) -> (t: String)
        ensures
            t@ == patch(self@, *b, place(c)),
    {
        let x: i128 = 20 + (c.0 as i128 - b.x0 as i128) * 8;
        let y: i128 = 20 + (b.y1 as i128 - c.1 as i128) * 8;
        let mut t = "<rect x=\"".to_owned();
        t.append(in_decimal(x, 1).as_str());
        t.append("\" y=\"");
        t.append(in_decimal(y, 1).as_str());
        t.append("\" width=\"8\" height=\"8\" fill=\"");
        t.append(
            if self.cell(c) == Cell::Occupied {
                "#333"
            } else {
                "#dbe9f6"
            },
        );
        t.append("\"/>\n");
        t
    }

    fn patches_text(&self, b: &Bounds, cells: &Vec<(i32, i32)>) -> (t: String)
        ensures
            t@ == spread(cells.len() as nat, patches(self@, *b, cells_of(cells@))),
    {
        let mut t = String::new();
        let n: usize = cells.len();
        let mut i: usize = 0;
        while i < n
            invariant
                n == cells.len(),
                i <= n,
                t@ == spread(i as nat, patches(self@, *b, cells_of(cells@))),
            decreases n - i,
        {
            assert(cells_of(cells@)[i as int] == place(cells@[i as int]));
            t.append(self.patch_text(b, cells[i]).as_str());
            i += 1;
        }
        t
    }

    fn track_text(&self, b: &Bounds) -> (t: String)
        ensures
            t@ == track_line(*b, self@.track),
    {
        let n: usize = self.track.len();
        if n <= 1 {
            return String::new();
        }
        let mut points_text = String::new();
        let mut i: usize = 0;
        while i < n
            invariant
                n == self.track.len(),
                i <= n,
                points_text@ == spread(i as nat, track_points(*b, self@.track)),
            decreases n - i,
        {
            let p = self.track[i];
            assert(self@.track[i as int] == (p.0 as int, p.1 as int));
            let mut point = if i == 0 {
                "".to_owned()
            } else {
                " ".to_owned()
            };
            point.append(along_text(b, p.0 as i128, RES as i128).as_str());
            point.append(",");
            point.append(down_text(b, p.1 as i128, RES as i128).as_str());
            points_text.append(point.as_str());
            i += 1;
        }
        let mut t = "<polyline points=\"".to_owned();
        t.append(points_text.as_str());
        t.append("\" fill=\"none\" stroke=\"#e07b39\" stroke-width=\"2\" opacity=\"0.8\"/>\n");
        t
    }

    fn legend_text(&self, b: &Bounds) -> (t: String)
        requires
            b.y0 <= b.y1,
        ensures
            t@ == legend(self@, *b),
    {
        let (frees, occ) = self.counts();
        let h: i128 = (b.y1 as i128 - b.y0 as i128 + 1) * 8 + 56;
        let mut t = "<text x=\"20\" y=\"".to_owned();
        t.append(in_decimal(h - 6, 1).as_str());
        t.append("\" font-size=\"12\" fill=\"#555\">");
        t.append(area_text(frees as u64).as_str());
        t.append(" m² floor seen · ");
        t.append(numeral_of(occ as u64).as_str());
        t.append(" obstacle cells · ");
        t.append(numeral_of(self.integrated).as_str());
        t.append(" frames · 0.1 m cells</text>\n</svg>\n");
        t
    }

    /// The same as an SVG: dark = things, pale = floor, blank = unknown, the track in orange,
    /// the duck a gold dot, an optional target in green. `facing` is the cosine and sine of
    /// the duck's heading.
    pub fn svg(&self, duck: (i64, i64), facing: (i32, i32), target: Option<(i64, i64)>) -> (t: String)
        ensures
            match self@.frame() {
                None => t@ == blank_sheet(),
                Some(b) => exists|cells: Seq<(int, int)>| #[trigger]
                    are_known(self@, cells) && t@ == sheet(self@, b, cells, duck, facing, target),
            },
    {
        let cells = self.cells.select(known, Ghost(is_known()));
        let b = match bound(&cells) {
            Some(b) => b,
            None => {
                return
                "<svg xmlns=\"http://www.w3.org/2000/svg\" width=\"200\" height=\"40\"><text x=\"10\" y=\"25\">nothing known yet</text></svg>\n".to_owned();
            },
        };
        let mut out = sheet_head_text(&b);
        out.append(self.patches_text(&b, &cells).as_str());
        out.append(self.track_text(&b).as_str());
        out.append(target_text(&b, target).as_str());
        out.append(duck_text(&b, duck, facing).as_str());
        out.append(self.legend_text(&b).as_str());
        proof {
            let drawn = cells_of(cells@);
            assert forall|i: int, j: int| 0 <= i < j < drawn.len() implies crate::sparse::precedes(
                #[trigger] drawn[i],
                #[trigger] drawn[j],
            ) by {
                assert(in_order(cells@));
                assert(drawn[i] == place(cells@[i]) && drawn[j] == place(cells@[j]));
            }
            assert(are_known(self@, drawn));
        }
        out
    }
}

} // verus!

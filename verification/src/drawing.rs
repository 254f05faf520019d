//! What the drawings show: every cell in its place, north up, and a scale that is kept.

use vstd::prelude::*;

use crate::bench::number_of;
use crate::extent::{box_of, is_box, Bounds};
use crate::figures::law_decimals_are_the_nearest_tenth;
use crate::maze::{beyond, visited, Dir, Maze};
use crate::maze_draw::{
    across, cell_picture, drawing, inside, line_pieces, page_height, page_width, page_x, page_y,
    pillar_pieces, pillars, room_line, room_pieces, shade, side_line, square, upright,
};
use crate::picture::stands_at;
use crate::room::Room;
use crate::room_draw::{
    along, down, floor_plan, is_free, is_known, is_occupied, tile, tile_lines, tiles,
};
use crate::sparse::picked;
use crate::text::{decimal, numeral, shown, spread};
use crate::units::magnitude;

verus! {

/// Pieces of one length follow each other at that distance.
proof fn lemma_even_spread(n: nat, piece: spec_fn(int) -> Seq<char>, len: nat, k: int, j: int)
    requires
        forall|i: int| 0 <= i < n ==> (#[trigger] piece(i)).len() == len,
    ensures
        spread(n, piece).len() == n * len,
        0 <= k < n && 0 <= j < len ==> 0 <= k * len + j < n * len && spread(n, piece)[k * len + j]
            == piece(k)[j],
    decreases n,
{
    if n > 0 {
        let m = (n - 1) as nat;
        lemma_even_spread(m, piece, len, k, j);
        assert(piece(m as int).len() == len);
        assert(n * len == m * len + len) by (nonlinear_arith)
            requires
                n == m + 1,
        ;
        if 0 <= k < m && 0 <= j < len {
            assert(0 <= k * len + j < m * len) by (nonlinear_arith)
                requires
                    0 <= k < m,
                    0 <= j < len,
            ;
        }
    } else {
        assert(0 * len == 0);
    }
}

proof fn lemma_tile(m: Room, at: (int, int), c: (int, int))
    ensures
        tile(m, at, c).len() == 1,
        c == at ==> tile(m, at, c)[0] == '@',
        c != at && m.cell(c) is Occupied ==> tile(m, at, c)[0] == '#',
        c != at && m.cell(c) is Free && m.trodden(c) ==> tile(m, at, c)[0] == '*',
        c != at && m.cell(c) is Free && !m.trodden(c) ==> tile(m, at, c)[0] == '.',
        c != at && m.cell(c) is Unknown ==> tile(m, at, c)[0] == ' ',
{
    reveal_strlit("@");
    reveal_strlit("#");
    reveal_strlit("*");
    reveal_strlit(".");
    reveal_strlit(" ");
}

/// The floor plan has a line for each row of cells, the northernmost first, and a sign for each
/// cell, the westernmost first: the duck, what stands there, the floor trodden or not, or nothing
/// known.
pub proof fn law_floor_plan_shows_each_cell(m: Room, at: (int, int), b: Bounds, c: (int, int))
    requires
        m.frame() == Some(b),
        b.x0 <= c.0 <= b.x1,
        b.y0 <= c.1 <= b.y1,
    ensures
        ({
            let s = floor_plan(m, at);
            let wide = b.x1 - b.x0 + 2;
            let k = (b.y1 - c.1) * wide + (c.0 - b.x0);
            &&& s.len() == (b.y1 - b.y0 + 1) * wide
            &&& 0 <= k < s.len()
            &&& c == at ==> s[k] == '@'
            &&& c != at && m.cell(c) is Occupied ==> s[k] == '#'
            &&& c != at && m.cell(c) is Free && m.trodden(c) ==> s[k] == '*'
            &&& c != at && m.cell(c) is Free && !m.trodden(c) ==> s[k] == '.'
            &&& c != at && m.cell(c) is Unknown ==> s[k] == ' '
            &&& s[(b.y1 - c.1) * wide + (wide - 1)] == '\n'
        }),
{
    reveal_strlit("\n");
    let w = b.width();
    let len = w + 1;
    let lines = tile_lines(m, b, at);
    assert forall|r: int| true implies (#[trigger] lines(r)).len() == len && lines(r)[len - 1]
        == '\n' && forall|i: int|
        0 <= i < w ==> #[trigger] lines(r)[i] == tile(m, at, (b.x0 + i, b.y1 - r))[0] by {
        let row = tiles(m, b, at, b.y1 - r);
        assert forall|i: int| 0 <= i < w implies (#[trigger] row(i)).len() == 1 by {
            lemma_tile(m, at, (b.x0 + i, b.y1 - r));
        }
        lemma_even_spread(w, row, 1, 0, 0);
        assert forall|i: int| 0 <= i < w implies #[trigger] lines(r)[i] == tile(
            m,
            at,
            (b.x0 + i, b.y1 - r),
        )[0] by {
            lemma_even_spread(w, row, 1, i, 0);
        }
    }
    let (r, i) = (b.y1 - c.1, c.0 - b.x0);
    lemma_even_spread(b.height(), lines, len, r, i);
    lemma_even_spread(b.height(), lines, len, r, len - 1);
    assert(lines(r)[i] == tile(m, at, (b.x0 + i, b.y1 - r))[0]);
    lemma_tile(m, at, c);
}

/// The signs of a maze's drawing: a line where there is a wall, a gap where it is open, an arrow
/// to the outside, dots where nobody looked; and nothing where nobody was on either side.
pub open spec fn is_side_sign(
    m: Maze,
    c: (int, int),
    d: Dir,
    flat: char,
    out: char,
    dots: char,
    s: char,
) -> bool {
    let e = m.edge(c, d);
    let known = visited(m, c) || visited(m, beyond(c, d));
    &&& known && e is Wall ==> s == flat
    &&& known && e is Open ==> s == ' '
    &&& known && e is Outside ==> s == out
    &&& known && e is Unknown ==> s == dots
    &&& !known ==> s == ' '
}

proof fn lemma_across(m: Maze, c: (int, int), d: Dir)
    ensures
        across(m, c, d).len() == 2,
        is_side_sign(m, c, d, '-', '^', '\u{b7}', across(m, c, d)[0]),
        across(m, c, d)[0] == across(m, c, d)[1],
{
    reveal_strlit("  ");
    reveal_strlit("--");
    reveal_strlit("^^");
    reveal_strlit("··");
}

proof fn lemma_upright(m: Maze, c: (int, int), d: Dir)
    ensures
        upright(m, c, d).len() == 1,
        is_side_sign(m, c, d, '|', '>', ':', upright(m, c, d)[0]),
{
    reveal_strlit(" ");
    reveal_strlit("|");
    reveal_strlit(">");
    reveal_strlit(":");
}

proof fn lemma_inside(m: Maze, c: (int, int))
    requires
        m.cell(c).visits < 10,
    ensures
        inside(m, c).len() == 2,
        inside(m, c)[1] == ' ',
        c == m.at ==> inside(m, c)[0] == '@',
        c != m.at && visited(m, c) ==> inside(m, c)[0] as nat == m.cell(c).visits + '0' as nat,
        c != m.at && !visited(m, c) ==> inside(m, c)[0] == ' ',
{
    reveal_strlit("@ ");
    reveal_strlit("  ");
    reveal_strlit(" ");
    reveal_strlit("0");
    reveal_strlit("1");
    reveal_strlit("2");
    reveal_strlit("3");
    reveal_strlit("4");
    reveal_strlit("5");
    reveal_strlit("6");
    reveal_strlit("7");
    reveal_strlit("8");
    reveal_strlit("9");
    if c != m.at && visited(m, c) {
        assert(shown(m.cell(c).visits as int) == numeral(m.cell(c).visits as nat));
    }
}

proof fn lemma_pillars(m: Maze, b: Bounds, y: int, d: Dir, i: int)
    requires
        0 <= i < b.width(),
    ensures
        ({
            let s = pillars(m, b, y, d);
            &&& s.len() == 3 * b.width() + 2
            &&& is_side_sign(m, (b.x0 + i, y), d, '-', '^', '\u{b7}', s[3 * i + 1])
            &&& s[3 * i] == '+'
        }),
{
    reveal_strlit("+");
    reveal_strlit("\n");
    let piece = pillar_pieces(m, b, y, d);
    assert forall|k: int| 0 <= k < b.width() implies (#[trigger] piece(k)).len() == 3 by {
        lemma_across(m, (b.x0 + k, y), d);
    }
    lemma_even_spread(b.width(), piece, 3, i, 0);
    lemma_across(m, (b.x0 + i, y), d);
    if i > 0 {
        lemma_across(m, (b.x0 + (i - 1), y), d);
        lemma_even_spread(b.width(), piece, 3, i - 1, 2);
    }
}

proof fn lemma_room_line(m: Maze, b: Bounds, y: int, i: int)
    requires
        0 <= i < b.width(),
        b.x0 <= b.x1,
        forall|c: (int, int)| #[trigger] m.cell(c).visits < 10,
    ensures
        ({
            let s = room_line(m, b, y);
            let c = (b.x0 + i, y);
            &&& s.len() == 3 * b.width() + 2
            &&& is_side_sign(m, c, Dir::West, '|', '>', ':', s[3 * i])
            &&& c == m.at ==> s[3 * i + 1] == '@'
            &&& c != m.at && visited(m, c) ==> s[3 * i + 1] as nat == m.cell(c).visits + '0' as nat
            &&& c != m.at && !visited(m, c) ==> s[3 * i + 1] == ' '
            &&& i == b.width() - 1 ==> is_side_sign(m, c, Dir::East, '|', '>', ':', s[3 * i + 3])
        }),
{
    reveal_strlit("\n");
    let piece = room_pieces(m, b, y);
    assert forall|k: int| 0 <= k < b.width() implies (#[trigger] piece(k)).len() == 3 by {
        assert(m.cell((b.x0 + k, y)).visits < 10);
        lemma_upright(m, (b.x0 + k, y), Dir::West);
        lemma_inside(m, (b.x0 + k, y));
    }
    lemma_even_spread(b.width(), piece, 3, i, 0);
    lemma_even_spread(b.width(), piece, 3, i, 1);
    let c = (b.x0 + i, y);
    assert(m.cell(c).visits < 10);
    lemma_upright(m, c, Dir::West);
    lemma_inside(m, c);
    lemma_upright(m, (b.x1 as int, y), Dir::East);
}

/// The drawing of a maze walked through less than ten times anywhere is even: two lines for each
/// row of cells, the northernmost first, one for the sides to the north and one for the cells, and
/// a last for the sides to the south; in each line three signs for each cell. The duck is where
/// it is, a cell shows how often it was visited, and every side shows what it is.
pub proof fn law_drawing_shows_each_cell(m: Maze, b: Bounds, c: (int, int))
    requires
        b.x0 <= c.0 <= b.x1,
        b.y0 <= c.1 <= b.y1,
        forall|o: (int, int)| #[trigger] m.cell(o).visits < 10,
    ensures
        ({
            let s = drawing(m, b);
            let wide = 3 * (b.x1 - b.x0 + 1) + 2;
            let top = (b.y1 - c.1) * (2 * wide) + 3 * (c.0 - b.x0);
            let low = (b.y1 - b.y0 + 1) * (2 * wide) + 3 * (c.0 - b.x0);
            &&& is_side_sign(m, c, Dir::North, '-', '^', '\u{b7}', s[top + 1])
            &&& is_side_sign(m, c, Dir::West, '|', '>', ':', s[top + wide])
            &&& c == m.at ==> s[top + wide + 1] == '@'
            &&& c != m.at && visited(m, c) ==> s[top + wide + 1] as nat == m.cell(c).visits
                + '0' as nat
            &&& c != m.at && !visited(m, c) ==> s[top + wide + 1] == ' '
            &&& c.0 == b.x1 ==> is_side_sign(m, c, Dir::East, '|', '>', ':', s[top + wide + 3])
            &&& c.1 == b.y0 ==> is_side_sign(m, c, Dir::South, '-', '^', '\u{b7}', s[low + 1])
            &&& s.len() == (2 * (b.y1 - b.y0 + 1) + 1) * wide
        }),
{
    let w = b.width();
    let wide = 3 * w + 2;
    let piece = line_pieces(m, b);
    assert forall|r: int| true implies (#[trigger] piece(r)).len() == 2 * wide by {
        lemma_pillars(m, b, b.y1 - r, Dir::North, 0);
        lemma_room_line(m, b, b.y1 - r, 0);
    }
    let (r, i) = (b.y1 - c.1, c.0 - b.x0);
    lemma_pillars(m, b, c.1, Dir::North, i);
    lemma_room_line(m, b, c.1, i);
    lemma_pillars(m, b, b.y0 as int, Dir::South, i);
    assert(piece(r) == pillars(m, b, c.1, Dir::North) + room_line(m, b, c.1));
    let h = b.height();
    lemma_even_spread(h, piece, 2 * wide, r, 3 * i + 1);
    lemma_even_spread(h, piece, 2 * wide, r, wide + 3 * i);
    lemma_even_spread(h, piece, 2 * wide, r, wide + 3 * i + 1);
    lemma_even_spread(h, piece, 2 * wide, r, wide + 3 * i + 3);
    assert(h * (2 * wide) + wide == (2 * h + 1) * wide) by (nonlinear_arith);
}

/// On the page a cell is sixty wide and high, the westernmost column and the northernmost row lie
/// thirty from the edge, and there is room for all, thirty more, and a line below.
pub proof fn law_page_is_to_scale(b: Bounds, x: int, y: int)
    ensures
        page_x(b, b.x0 as int) == 30,
        page_y(b, b.y1 as int) == 30,
        page_x(b, x + 1) == page_x(b, x) + 60,
        page_y(b, y + 1) == page_y(b, y) - 60,
        page_width(b) == page_x(b, b.x1 + 1) + 30,
        page_height(b) == page_y(b, b.y0 - 1) + 46,
{
}

/// What is drawn is framed as closely as it can be: the frame that holds it all and has some of it
/// at each of its four edges is the frame.
pub proof fn law_frame_is_the_closest(
    s: Set<(int, int)>,
    b: Bounds,
    west: (int, int),
    east: (int, int),
    south: (int, int),
    north: (int, int),
)
    requires
        s.contains(west) && west.0 == b.x0,
        s.contains(east) && east.0 == b.x1,
        s.contains(south) && south.1 == b.y0,
        s.contains(north) && north.1 == b.y1,
        forall|c: (int, int)|
            #[trigger] s.contains(c) ==> b.x0 <= c.0 <= b.x1 && b.y0 <= c.1 <= b.y1,
    ensures
        box_of(s) == Some(b),
{
    assert(s != Set::<(int, int)>::empty());
    assert(is_box(s, b));
    let o = choose|o: Bounds| is_box(s, o);
    assert(is_box(s, o));
    assert(o.holds(west) && o.holds(east) && o.holds(south) && o.holds(north));
    assert(o.x0 == b.x0 && o.x1 == b.x1 && o.y0 == b.y0 && o.y1 == b.y1);
}

/// What is counted as floor is what the map calls free, and what is drawn is what it knows.
pub proof fn law_known_cells_are_drawn(m: Room, c: (int, int))
    ensures
        picked(m.odds, is_free()).contains(c) <==> m.cell(c) is Free,
        picked(m.odds, is_occupied()).contains(c) <==> m.cell(c) is Occupied,
        picked(m.odds, is_known()).contains(c) <==> !(m.cell(c) is Unknown),
        m.free_cells() == picked(m.odds, is_free()).len(),
        m.occupied_cells() == picked(m.odds, is_occupied()).len(),
        m.frame() == box_of(picked(m.odds, is_known())),
{
}

proof fn lemma_stands(fill: Seq<char>, n: Seq<char>, s: Seq<char>, w: Seq<char>, e: Seq<char>)
    ensures
        stands_at(fill + n + s + w + e, n, fill.len() as int),
        stands_at(fill + n + s + w + e, s, (fill.len() + n.len()) as int),
        stands_at(fill + n + s + w + e, w, (fill.len() + n.len() + s.len()) as int),
        stands_at(fill + n + s + w + e, e, (fill.len() + n.len() + s.len() + w.len()) as int),
{
}

/// Where the middle of a cell is on the page.
pub open spec fn middle_of(b: Bounds, c: (int, int)) -> (int, int) {
    (60 + 60 * (c.0 - b.x0), 60 + 60 * (b.y1 - c.1))
}

/// Half a cell on the page, in a direction; north is up.
pub open spec fn half_way(d: Dir) -> (int, int) {
    (30 * beyond((0, 0), d).0, -30 * beyond((0, 0), d).1)
}

/// The two ends of a side of a cell on the page: half a cell from the middle in its direction, and
/// half a cell to either hand.
pub open spec fn side_ends(b: Bounds, c: (int, int), d: Dir) -> ((int, int), (int, int)) {
    let (at, out) = (middle_of(b, c), half_way(d));
    let (dx, dy) = (magnitude(out.1), magnitude(out.0));
    (
        (at.0 + out.0 - dx, at.1 + out.1 - dy),
        (at.0 + out.0 + dx, at.1 + out.1 + dy),
    )
}

/// On the page every side of a cell that was visited is drawn where it is, as what it is.
#[verifier::rlimit(60)]
#[verifier::spinoff_prover]
pub proof fn law_sides_are_drawn_where_they_are(m: Maze, b: Bounds, c: (int, int), d: Dir)
    requires
        visited(m, c),
    ensures
        exists|i: int|
            #[trigger] stands_at(
                cell_picture(m, b, c),
                side_line(m.edge(c, d), side_ends(b, c, d).0, side_ends(b, c, d).1),
                i,
            ),
        !visited(m, beyond(c, d)) ==> cell_picture(m, b, beyond(c, d)).len() == 0,
{
    let (x, y) = (page_x(b, c.0), page_y(b, c.1));
    let fill = square(x, y, shade(m.cell(c).visits));
    let north = side_line(m.edge(c, Dir::North), (x, y), (x + 60, y));
    let south = side_line(m.edge(c, Dir::South), (x, y + 60), (x + 60, y + 60));
    let west = side_line(m.edge(c, Dir::West), (x, y), (x, y + 60));
    let east = side_line(m.edge(c, Dir::East), (x + 60, y), (x + 60, y + 60));
    let all = cell_picture(m, b, c);
    assert(all == fill + north + south + west + east);
    lemma_stands(fill, north, south, west, east);
    let ends = side_ends(b, c, d);
    let side = side_line(m.edge(c, d), ends.0, ends.1);
    if d is North {
        assert(ends == ((x, y), (x + 60, y)));
        assert(stands_at(all, side, fill.len() as int));
    } else if d is South {
        assert(ends == ((x, y + 60), (x + 60, y + 60)));
        assert(stands_at(all, side, (fill.len() + north.len()) as int));
    } else if d is West {
        assert(ends == ((x, y), (x, y + 60)));
        assert(stands_at(all, side, (fill.len() + north.len() + south.len()) as int));
    } else {
        assert(ends == ((x + 60, y), (x + 60, y + 60)));
        assert(stands_at(
            all,
            side,
            (fill.len() + north.len() + south.len() + west.len()) as int,
        ));
    }
}

/// The number a decimal writes, in tenths.
pub open spec fn tenths_of(s: Seq<char>) -> nat {
    number_of(s.take(s.len() - 2) + s.skip(s.len() - 1))
}

/// On a sheet a cell is eight wide and high; the west edge of the westernmost and the north edge
/// of the northernmost lie twenty from the edge of the sheet, and a place that many metres further
/// lies that much further.
pub proof fn law_sheet_is_to_scale(b: Bounds, x: int, y: int)
    requires
        b.x0 <= x,
        y <= b.y1 + 1,
    ensures
        tenths_of(along(b, x * 100_000_000, 100_000_000)) == 200 + 80 * (x - b.x0),
        tenths_of(down(b, y * 100_000_000, 100_000_000)) == 200 + 80 * (b.y1 + 1 - y),
{
    lemma_tenths(20 + 8 * (x - b.x0));
    lemma_tenths(20 + 8 * (b.y1 + 1 - y));
    assert(20 * 100_000_000 + (x * 100_000_000 - b.x0 * 100_000_000) * 8 == (20 + 8 * (x - b.x0))
        * 100_000_000);
    assert(20 * 100_000_000 + ((b.y1 + 1) * 100_000_000 - y * 100_000_000) * 8 == (20 + 8 * (b.y1
        + 1 - y)) * 100_000_000);
}

proof fn lemma_tenths(v: int)
    requires
        v >= 0,
    ensures
        tenths_of(decimal(v * 100_000_000, 100_000_000)) == 10 * v,
{
    law_decimals_are_the_nearest_tenth(v * 100_000_000, 100_000_000);
}

} // verus!

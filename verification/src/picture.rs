//! What the maze picture holds: a line for every side of a visited cell that is not open, dashed
//! where it is no wall, and the route.

use vstd::prelude::*;

use crate::maze::{visited, Dir, Maze, Side};
use crate::maze_draw::{
    caption, cell_picture, duck_mark, frame, grid_pictures, page_head, page_x, page_y, picture,
    route, route_points, row_pictures, shade, side_line, square, start_mark, stroke,
};
use crate::extent::Bounds;
use crate::text::{digit, numeral, shown, spread};

verus! {

/// `pat` stands at place `i` of a text.
pub open spec fn stands_at(s: Seq<char>, pat: Seq<char>, i: int) -> bool {
    &&& 0 <= i
    &&& i + pat.len() <= s.len()
    &&& forall|k: int| 0 <= k < pat.len() ==> s[i + k] == #[trigger] pat[k]
}

/// How often `pat` stands in a text.
pub open spec fn occurrences(s: Seq<char>, pat: Seq<char>) -> nat
    decreases s.len(),
{
    if s.len() == 0 {
        0
    } else if stands_at(s, pat, 0) {
        1 + occurrences(s.skip(1), pat)
    } else {
        occurrences(s.skip(1), pat)
    }
}

/// What is counted in a picture.
pub ghost struct Tally {
    /// Lines.
    pub lines: nat,
    /// Dashed strokes.
    pub dashes: nat,
    /// Routes.
    pub routes: nat,
}

impl Tally {
    pub open spec fn none() -> Tally {
        Tally { lines: 0, dashes: 0, routes: 0 }
    }

    pub open spec fn plus(self, other: Tally) -> Tally {
        Tally {
            lines: self.lines + other.lines,
            dashes: self.dashes + other.dashes,
            routes: self.routes + other.routes,
        }
    }
}

pub open spec fn tally(s: Seq<char>) -> Tally {
    Tally {
        lines: occurrences(s, "<line"@),
        dashes: occurrences(s, "stroke-dasharray"@),
        routes: occurrences(s, "<polyline"@),
    }
}

/// A character of none of the words that are counted.
spec fn is_plain(c: char) -> bool {
    c == '"' || c == ' ' || c == '\n' || c == '>' || c == ',' || '0' <= c <= '9'
}

/// A text that ends in such a character, or is empty.
spec fn ends_plain(s: Seq<char>) -> bool {
    s.len() == 0 || is_plain(s.last())
}

spec fn has_plain(pat: Seq<char>) -> bool {
    exists|k: int| 0 <= k < pat.len() && is_plain(#[trigger] pat[k])
}

proof fn lemma_words_have_no_plain()
    ensures
        !has_plain("<line"@),
        !has_plain("stroke-dasharray"@),
        !has_plain("<polyline"@),
        "<line"@.len() == 5,
        "stroke-dasharray"@.len() == 16,
        "<polyline"@.len() == 9,
        "<line"@[0] == '<' && "<line"@[1] == 'l',
        "<polyline"@[0] == '<' && "<polyline"@[1] == 'p',
        "stroke-dasharray"@[6] == '-' && "stroke-dasharray"@[7] == 'd',
{
    reveal_strlit("<line");
    reveal_strlit("stroke-dasharray");
    reveal_strlit("<polyline");
}

/// No word stands across the place where two texts are joined, if a plain character does.
proof fn lemma_joined(a: Seq<char>, b: Seq<char>, pat: Seq<char>)
    requires
        pat.len() > 0,
        !has_plain(pat),
        ends_plain(a) || b.len() > 0 && is_plain(b[0]),
    ensures
        occurrences(a + b, pat) == occurrences(a, pat) + occurrences(b, pat),
    decreases a.len(),
{
    if a.len() == 0 {
        assert(a + b =~= b);
    } else {
        let s = a + b;
        assert(s.skip(1) =~= a.skip(1) + b);
        assert(a.skip(1).len() > 0 ==> a.skip(1).last() == a.last());
        lemma_joined(a.skip(1), b, pat);
        assert(stands_at(s, pat, 0) <==> stands_at(a, pat, 0)) by {
            if stands_at(a, pat, 0) {
                assert forall|k: int| 0 <= k < pat.len() implies s[0 + k] == #[trigger] pat[k] by {
                    assert(a[0 + k] == pat[k]);
                }
            }
            if stands_at(s, pat, 0) {
                if pat.len() > a.len() {
                    assert(s[0 + (a.len() - 1)] == pat[a.len() - 1]);
                    assert(s[0 + (a.len() as int)] == pat[a.len() as int]);
                    assert(s[a.len() - 1] == a.last());
                    assert(s[a.len() as int] == b[0]);
                    assert(false);
                }
                assert forall|k: int| 0 <= k < pat.len() implies a[0 + k] == #[trigger] pat[k] by {
                    assert(s[0 + k] == pat[k]);
                }
            }
        }
    }
}

/// Joining adds up.
proof fn lemma_join(a: Seq<char>, b: Seq<char>)
    requires
        ends_plain(a) || b.len() > 0 && is_plain(b[0]),
    ensures
        tally(a + b) == tally(a).plus(tally(b)),
        b.len() > 0 ==> (a + b).last() == b.last(),
        ends_plain(b) && (b.len() > 0 || ends_plain(a)) ==> ends_plain(a + b),
{
    lemma_words_have_no_plain();
    lemma_joined(a, b, "<line"@);
    lemma_joined(a, b, "stroke-dasharray"@);
    lemma_joined(a, b, "<polyline"@);
    if b.len() == 0 {
        assert(a + b =~= a);
    }
}

/// A word that stands in one place at most is counted there.
proof fn lemma_counted(s: Seq<char>, pat: Seq<char>, at: Option<int>)
    requires
        pat.len() > 0,
        at matches Some(k) ==> stands_at(s, pat, k),
        forall|i: int| #[trigger] stands_at(s, pat, i) ==> at == Some(i),
    ensures
        occurrences(s, pat) == (if at is Some {
            1nat
        } else {
            0
        }),
    decreases s.len(),
{
    if s.len() > 0 {
        let rest = s.skip(1);
        assert forall|i: int| i >= 0 implies (#[trigger] stands_at(rest, pat, i) <==> stands_at(
            s,
            pat,
            i + 1,
        )) by {
            if stands_at(rest, pat, i) {
                assert forall|k: int| 0 <= k < pat.len() implies s[i + 1 + k]
                    == #[trigger] pat[k] by {
                    assert(rest[i + k] == pat[k]);
                }
            }
            if stands_at(s, pat, i + 1) {
                assert forall|k: int| 0 <= k < pat.len() implies rest[i + k]
                    == #[trigger] pat[k] by {
                    assert(s[i + 1 + k] == pat[k]);
                }
            }
        }
        let next = match at {
            Some(k) => if k == 0 {
                None
            } else {
                Some(k - 1)
            },
            None => None,
        };
        assert forall|i: int| #[trigger] stands_at(rest, pat, i) implies next == Some(i) by {
            assert(stands_at(s, pat, i + 1));
        }
        if at is Some && at->0 > 0 {
            assert(stands_at(rest, pat, at->0 - 1));
        }
        lemma_counted(rest, pat, next);
        if stands_at(s, pat, 0) {
            assert(at == Some(0int));
        }
    }
}

/// No word that is counted begins in a text, but at the given places.
spec fn only_at(s: Seq<char>, line: Option<int>, dash: Option<int>, route: Option<int>) -> bool {
    &&& forall|i: int|
        #![trigger s[i]]
        0 <= i < s.len() - 1 && s[i] == '<' ==> (s[i + 1] == 'l' ==> line == Some(i)) && (s[i + 1]
            == 'p' ==> route == Some(i))
    &&& forall|i: int|
        #![trigger s[i]]
        0 <= i < s.len() - 1 && s[i] == '-' && s[i + 1] == 'd' ==> dash == Some(i - 6)
}

proof fn lemma_only_at(s: Seq<char>, line: Option<int>, dash: Option<int>, route: Option<int>)
    requires
        only_at(s, line, dash, route),
        line matches Some(k) ==> stands_at(s, "<line"@, k),
        dash matches Some(k) ==> stands_at(s, "stroke-dasharray"@, k),
        route matches Some(k) ==> stands_at(s, "<polyline"@, k),
    ensures
        tally(s) == (Tally {
            lines: if line is Some { 1 } else { 0 },
            dashes: if dash is Some { 1 } else { 0 },
            routes: if route is Some { 1 } else { 0 },
        }),
{
    lemma_words_have_no_plain();
    let (l, d, r) = ("<line"@, "stroke-dasharray"@, "<polyline"@);
    assert forall|i: int| #[trigger] stands_at(s, l, i) implies line == Some(i) by {
        assert(s[i + 0] == l[0] && s[i + 1] == l[1]);
        assert(s[i] == '<');
    }
    assert forall|i: int| #[trigger] stands_at(s, d, i) implies dash == Some(i) by {
        assert(s[i + 6] == d[6] && s[i + 7] == d[7]);
        assert(s[i + 6] == '-' && s[(i + 6) + 1] == 'd');
    }
    assert forall|i: int| #[trigger] stands_at(s, r, i) implies route == Some(i) by {
        assert(s[i + 0] == r[0] && s[i + 1] == r[1]);
        assert(s[i] == '<');
    }
    lemma_counted(s, l, line);
    lemma_counted(s, d, dash);
    lemma_counted(s, r, route);
}

/// A text of digits and signs.
spec fn is_numeric(s: Seq<char>) -> bool {
    &&& s.len() > 0
    &&& forall|i: int| 0 <= i < s.len() ==> '0' <= #[trigger] s[i] <= '9' || s[i] == '-' && i == 0
        && s.len() > 1
}

proof fn lemma_digit(d: nat)
    ensures
        digit(d).len() == 1,
        '0' <= digit(d)[0] <= '9',
{
    reveal_strlit("0");
    reveal_strlit("1");
    reveal_strlit("2");
    reveal_strlit("3");
    reveal_strlit("4");
    reveal_strlit("5");
    reveal_strlit("6");
    reveal_strlit("7");
    reveal_strlit("8");
    reveal_strlit("9");
}

proof fn lemma_numeral(n: nat)
    ensures
        is_numeric(numeral(n)),
        numeral(n)[0] != '-',
    decreases n,
{
    if n < 10 {
        lemma_digit(n);
    } else {
        lemma_numeral(n / 10);
        lemma_digit(n % 10);
        let (a, b) = (numeral(n / 10), digit(n % 10));
        assert forall|i: int| 0 <= i < (a + b).len() implies '0' <= #[trigger] (a
            + b)[i] <= '9' by {
            if i < a.len() {
                assert((a + b)[i] == a[i]);
            } else {
                assert((a + b)[i] == b[0]);
            }
        }
    }
}

/// A number holds nothing that is counted.
proof fn lemma_shown(n: int)
    ensures
        tally(shown(n)) == Tally::none(),
        occurrences(shown(n), ","@) == 0,
        shown(n).len() > 0,
        ends_plain(shown(n)),
{
    reveal_strlit("-");
    let s = shown(n);
    if n < 0 {
        lemma_numeral((-n) as nat);
        let body = numeral((-n) as nat);
        assert forall|i: int| 0 <= i < s.len() implies '0' <= #[trigger] s[i] <= '9' || s[i] == '-'
            && i == 0 && s.len() > 1 by {
            if i > 0 {
                assert(s[i] == body[i - 1]);
            }
        }
    } else {
        lemma_numeral(n as nat);
    }
    assert(is_numeric(s));
    assert(s.last() != '-');
    lemma_only_at(s, None, None, None);
    reveal_strlit(",");
    assert forall|k: int| !stands_at(s, ","@, k) by {
        if stands_at(s, ","@, k) {
            assert(s[k + 0] == ","@[0]);
        }
    }
    lemma_counted(s, ","@, None);
}

/// A piece of the picture in which nothing is counted and after which nothing can be split.
spec fn is_still(s: Seq<char>) -> bool {
    &&& tally(s) == Tally::none()
    &&& s.len() > 0
    &&& ends_plain(s)
}

proof fn lemma_still(s: Seq<char>)
    requires
        only_at(s, None, None, None),
        s.len() > 0,
        ends_plain(s),
    ensures
        is_still(s),
{
    lemma_only_at(s, None, None, None);
}

proof fn lemma_text_page_width()
    ensures
        is_still("<svg xmlns=\"http://www.w3.org/2000/svg\" width=\""@),
{
    reveal_strlit("<svg xmlns=\"http://www.w3.org/2000/svg\" width=\"");
    lemma_still("<svg xmlns=\"http://www.w3.org/2000/svg\" width=\""@);
}

proof fn lemma_text_height()
    ensures
        is_still("\" height=\""@),
{
    reveal_strlit("\" height=\"");
    lemma_still("\" height=\""@);
}

proof fn lemma_text_view_box()
    ensures
        is_still("\" viewBox=\"0 0 "@),
{
    reveal_strlit("\" viewBox=\"0 0 ");
    lemma_still("\" viewBox=\"0 0 "@);
}

proof fn lemma_text_space()
    ensures
        is_still(" "@),
{
    reveal_strlit(" ");
    lemma_still(" "@);
}

proof fn lemma_text_background()
    ensures
        is_still("\" font-family=\"sans-serif\">\n<rect width=\""@),
{
    reveal_strlit("\" font-family=\"sans-serif\">\n<rect width=\"");
    lemma_still("\" font-family=\"sans-serif\">\n<rect width=\""@);
}

proof fn lemma_text_background_end()
    ensures
        is_still("\" fill=\"#fafaf7\"/>\n"@),
{
    reveal_strlit("\" fill=\"#fafaf7\"/>\n");
    lemma_still("\" fill=\"#fafaf7\"/>\n"@);
}

proof fn lemma_text_square()
    ensures
        is_still("<rect x=\""@),
{
    reveal_strlit("<rect x=\"");
    lemma_still("<rect x=\""@);
}

proof fn lemma_text_y()
    ensures
        is_still("\" y=\""@),
{
    reveal_strlit("\" y=\"");
    lemma_still("\" y=\""@);
}

proof fn lemma_text_square_size()
    ensures
        is_still("\" width=\"60\" height=\"60\" fill=\""@),
{
    reveal_strlit("\" width=\"60\" height=\"60\" fill=\"");
    lemma_still("\" width=\"60\" height=\"60\" fill=\""@);
}

proof fn lemma_text_tag_end()
    ensures
        is_still("\"/>\n"@),
{
    reveal_strlit("\"/>\n");
    lemma_still("\"/>\n"@);
}

proof fn lemma_text_line()
    ensures
        tally("<line x1=\""@) == (Tally { lines: 1, dashes: 0, routes: 0 }),
        "<line x1=\""@.len() > 0,
        ends_plain("<line x1=\""@),
{
    reveal_strlit("<line x1=\"");
    reveal_strlit("<line");
    lemma_only_at("<line x1=\""@, Some(0int), None, None);
}

proof fn lemma_text_y1()
    ensures
        is_still("\" y1=\""@),
{
    reveal_strlit("\" y1=\"");
    lemma_still("\" y1=\""@);
}

proof fn lemma_text_x2()
    ensures
        is_still("\" x2=\""@),
{
    reveal_strlit("\" x2=\"");
    lemma_still("\" x2=\""@);
}

proof fn lemma_text_y2()
    ensures
        is_still("\" y2=\""@),
{
    reveal_strlit("\" y2=\"");
    lemma_still("\" y2=\""@);
}

proof fn lemma_text_attribute()
    ensures
        is_still("\" "@),
{
    reveal_strlit("\" ");
    lemma_still("\" "@);
}

proof fn lemma_text_wall()
    ensures
        is_still("stroke=\"#333\" stroke-width=\"4\""@),
{
    reveal_strlit("stroke=\"#333\" stroke-width=\"4\"");
    lemma_still("stroke=\"#333\" stroke-width=\"4\""@);
}

proof fn lemma_text_outside()
    ensures
        tally("stroke=\"#2a9d3f\" stroke-width=\"4\" stroke-dasharray=\"2 6\""@) == (Tally { lines: 0, dashes: 1, routes: 0 }),
        "stroke=\"#2a9d3f\" stroke-width=\"4\" stroke-dasharray=\"2 6\""@.len() > 0,
        ends_plain("stroke=\"#2a9d3f\" stroke-width=\"4\" stroke-dasharray=\"2 6\""@),
{
    reveal_strlit("stroke=\"#2a9d3f\" stroke-width=\"4\" stroke-dasharray=\"2 6\"");
    reveal_strlit("stroke-dasharray");
    lemma_only_at("stroke=\"#2a9d3f\" stroke-width=\"4\" stroke-dasharray=\"2 6\""@, None, Some(34int), None);
}

proof fn lemma_text_unknown()
    ensures
        tally("stroke=\"#bbb\" stroke-width=\"2\" stroke-dasharray=\"3 5\""@) == (Tally { lines: 0, dashes: 1, routes: 0 }),
        "stroke=\"#bbb\" stroke-width=\"2\" stroke-dasharray=\"3 5\""@.len() > 0,
        ends_plain("stroke=\"#bbb\" stroke-width=\"2\" stroke-dasharray=\"3 5\""@),
{
    reveal_strlit("stroke=\"#bbb\" stroke-width=\"2\" stroke-dasharray=\"3 5\"");
    reveal_strlit("stroke-dasharray");
    lemma_only_at("stroke=\"#bbb\" stroke-width=\"2\" stroke-dasharray=\"3 5\""@, None, Some(31int), None);
}

proof fn lemma_text_line_end()
    ensures
        is_still(" stroke-linecap=\"round\"/>\n"@),
{
    reveal_strlit(" stroke-linecap=\"round\"/>\n");
    lemma_still(" stroke-linecap=\"round\"/>\n"@);
}

proof fn lemma_text_route()
    ensures
        tally("<polyline points=\""@) == (Tally { lines: 0, dashes: 0, routes: 1 }),
        "<polyline points=\""@.len() > 0,
        ends_plain("<polyline points=\""@),
{
    reveal_strlit("<polyline points=\"");
    reveal_strlit("<polyline");
    lemma_only_at("<polyline points=\""@, None, None, Some(0int));
}

proof fn lemma_text_comma()
    ensures
        is_still(","@),
{
    reveal_strlit(",");
    lemma_still(","@);
}

proof fn lemma_text_route_end()
    ensures
        is_still("\" fill=\"none\" stroke=\"#e07b39\" stroke-width=\"3\" stroke-linejoin=\"round\" opacity=\"0.85\"/>\n"@),
{
    reveal_strlit("\" fill=\"none\" stroke=\"#e07b39\" stroke-width=\"3\" stroke-linejoin=\"round\" opacity=\"0.85\"/>\n");
    lemma_still("\" fill=\"none\" stroke=\"#e07b39\" stroke-width=\"3\" stroke-linejoin=\"round\" opacity=\"0.85\"/>\n"@);
}

proof fn lemma_text_circle()
    ensures
        is_still("<circle cx=\""@),
{
    reveal_strlit("<circle cx=\"");
    lemma_still("<circle cx=\""@);
}

proof fn lemma_text_cy()
    ensures
        is_still("\" cy=\""@),
{
    reveal_strlit("\" cy=\"");
    lemma_still("\" cy=\""@);
}

proof fn lemma_text_start_end()
    ensures
        is_still("\" r=\"9\" fill=\"#2a9d3f\"/>\n"@),
{
    reveal_strlit("\" r=\"9\" fill=\"#2a9d3f\"/>\n");
    lemma_still("\" r=\"9\" fill=\"#2a9d3f\"/>\n"@);
}

proof fn lemma_text_duck_end()
    ensures
        is_still("\" r=\"9\" fill=\"#e6b422\" stroke=\"#333\" stroke-width=\"2\"/>\n"@),
{
    reveal_strlit("\" r=\"9\" fill=\"#e6b422\" stroke=\"#333\" stroke-width=\"2\"/>\n");
    lemma_still("\" r=\"9\" fill=\"#e6b422\" stroke=\"#333\" stroke-width=\"2\"/>\n"@);
}

proof fn lemma_text_caption()
    ensures
        is_still("<text x=\"30\" y=\""@),
{
    reveal_strlit("<text x=\"30\" y=\"");
    lemma_still("<text x=\"30\" y=\""@);
}

proof fn lemma_text_caption_height()
    ensures
        is_still("\" font-size=\"12\" fill=\"#555\">"@),
{
    reveal_strlit("\" font-size=\"12\" fill=\"#555\">");
    lemma_still("\" font-size=\"12\" fill=\"#555\">"@);
}

proof fn lemma_text_cells_walked()
    ensures
        is_still(" cells walked · "@),
{
    reveal_strlit(" cells walked · ");
    lemma_still(" cells walked · "@);
}

proof fn lemma_text_caption_end()
    ensures
        is_still(" moves · dotted = never looked · green = outside</text>\n</svg>\n"@),
{
    reveal_strlit(" moves · dotted = never looked · green = outside</text>\n</svg>\n");
    lemma_still(" moves · dotted = never looked · green = outside</text>\n</svg>\n"@);
}

proof fn lemma_head(b: Bounds)
    ensures
        tally(page_head(b)) == Tally::none(),
        ends_plain(page_head(b)),
{
    let w = shown(crate::maze_draw::page_width(b));
    let h = shown(crate::maze_draw::page_height(b));
    lemma_shown(crate::maze_draw::page_width(b));
    lemma_shown(crate::maze_draw::page_height(b));
    lemma_text_page_width();
    let t = "<svg xmlns=\"http://www.w3.org/2000/svg\" width=\""@;
    lemma_join(t, w);
    let t = t + w;
    lemma_text_height();
    lemma_join(t, "\" height=\""@);
    let t = t + "\" height=\""@;
    lemma_join(t, h);
    let t = t + h;
    lemma_text_view_box();
    lemma_join(t, "\" viewBox=\"0 0 "@);
    let t = t + "\" viewBox=\"0 0 "@;
    lemma_join(t, w);
    let t = t + w;
    lemma_text_space();
    lemma_join(t, " "@);
    let t = t + " "@;
    lemma_join(t, h);
    let t = t + h;
    lemma_text_background();
    lemma_join(t, "\" font-family=\"sans-serif\">\n<rect width=\""@);
    let t = t + "\" font-family=\"sans-serif\">\n<rect width=\""@;
    lemma_join(t, w);
    let t = t + w;
    lemma_text_height();
    lemma_join(t, "\" height=\""@);
    let t = t + "\" height=\""@;
    lemma_join(t, h);
    let t = t + h;
    lemma_text_background_end();
    lemma_join(t, "\" fill=\"#fafaf7\"/>\n"@);
}

proof fn lemma_shade(visits: u32)
    ensures
        tally(shade(visits)) == Tally::none(),
{
    reveal_strlit("#dbe9f6");
    reveal_strlit("#b7d3ee");
    reveal_strlit("#8fbbe3");
    lemma_only_at(shade(visits), None, None, None);
}

proof fn lemma_square(x: int, y: int, visits: u32)
    ensures
        tally(square(x, y, shade(visits))) == Tally::none(),
        ends_plain(square(x, y, shade(visits))),
{
    let fill = shade(visits);
    reveal_strlit("\"/>\n");
    lemma_text_square();
    let t = "<rect x=\""@;
    lemma_shown(x);
    lemma_join(t, shown(x));
    let t = t + shown(x);
    lemma_text_y();
    lemma_join(t, "\" y=\""@);
    let t = t + "\" y=\""@;
    lemma_shown(y);
    lemma_join(t, shown(y));
    let t = t + shown(y);
    lemma_text_square_size();
    lemma_join(t, "\" width=\"60\" height=\"60\" fill=\""@);
    let t = t + "\" width=\"60\" height=\"60\" fill=\""@;
    lemma_shade(visits);
    lemma_join(t, fill);
    let t = t + fill;
    lemma_text_tag_end();
    lemma_join(t, "\"/>\n"@);
}

/// A side of a cell is one line, dashed where it is no wall; an opening is none.
proof fn lemma_side(side: Side, from: (int, int), to: (int, int))
    ensures
        tally(side_line(side, from, to)) == (Tally {
            lines: if side is Open { 0 } else { 1 },
            dashes: if side is Open || side is Wall { 0 } else { 1 },
            routes: 0,
        }),
        ends_plain(side_line(side, from, to)),
{
    if side is Open {
        lemma_empty();
    } else {
        let st = stroke(side);
        lemma_text_wall();
        lemma_text_outside();
        lemma_text_unknown();
        lemma_text_line();
        let t = "<line x1=\""@;
        lemma_shown(from.0);
        lemma_join(t, shown(from.0));
        let t = t + shown(from.0);
        lemma_text_y1();
        lemma_join(t, "\" y1=\""@);
        let t = t + "\" y1=\""@;
        lemma_shown(from.1);
        lemma_join(t, shown(from.1));
        let t = t + shown(from.1);
        lemma_text_x2();
        lemma_join(t, "\" x2=\""@);
        let t = t + "\" x2=\""@;
        lemma_shown(to.0);
        lemma_join(t, shown(to.0));
        let t = t + shown(to.0);
        lemma_text_y2();
        lemma_join(t, "\" y2=\""@);
        let t = t + "\" y2=\""@;
        lemma_shown(to.1);
        lemma_join(t, shown(to.1));
        let t = t + shown(to.1);
        lemma_text_attribute();
        lemma_join(t, "\" "@);
        let t = t + "\" "@;
        lemma_join(t, st);
        let t = t + st;
        lemma_text_line_end();
        lemma_join(t, " stroke-linecap=\"round\"/>\n"@);
    }
}

/// Nothing is counted in nothing.
proof fn lemma_empty()
    ensures
        tally(Seq::empty()) == Tally::none(),
{
}

/// How many of a cell's four sides are `wanted`.
pub open spec fn sides_of(wanted: spec_fn((int, int), Dir) -> bool, c: (int, int)) -> nat {
    let one = |d: Dir|
        if wanted(c, d) {
            1nat
        } else {
            0
        };
    one(Dir::North) + one(Dir::South) + one(Dir::West) + one(Dir::East)
}

/// A side that is drawn: of a visited cell, and not open.
pub open spec fn is_drawn(m: Maze) -> spec_fn((int, int), Dir) -> bool {
    |c: (int, int), d: Dir| visited(m, c) && !(m.edge(c, d) is Open)
}

/// A side that is drawn dashed: no wall either.
pub open spec fn is_dashed(m: Maze) -> spec_fn((int, int), Dir) -> bool {
    |c: (int, int), d: Dir|
        visited(m, c) && !(m.edge(c, d) is Open) && !(m.edge(c, d) is Wall)
}

spec fn cell_tally(m: Maze, c: (int, int)) -> Tally {
    Tally { lines: sides_of(is_drawn(m), c), dashes: sides_of(is_dashed(m), c), routes: 0 }
}

proof fn lemma_cell(m: Maze, b: Bounds, c: (int, int))
    ensures
        tally(cell_picture(m, b, c)) == cell_tally(m, c),
        ends_plain(cell_picture(m, b, c)),
{
    if visited(m, c) {
        let x = page_x(b, c.0);
        let y = page_y(b, c.1);
        lemma_square(x, y, m.cell(c).visits);
        let sq = square(x, y, shade(m.cell(c).visits));
        let n = side_line(m.edge(c, Dir::North), (x, y), (x + 60, y));
        let s = side_line(m.edge(c, Dir::South), (x, y + 60), (x + 60, y + 60));
        let w = side_line(m.edge(c, Dir::West), (x, y), (x, y + 60));
        let e = side_line(m.edge(c, Dir::East), (x + 60, y), (x + 60, y + 60));
        lemma_side(m.edge(c, Dir::North), (x, y), (x + 60, y));
        lemma_side(m.edge(c, Dir::South), (x, y + 60), (x + 60, y + 60));
        lemma_side(m.edge(c, Dir::West), (x, y), (x, y + 60));
        lemma_side(m.edge(c, Dir::East), (x + 60, y), (x + 60, y + 60));
        lemma_join(sq, n);
        lemma_join(sq + n, s);
        lemma_join(sq + n + s, w);
        lemma_join(sq + n + s + w, e);
    } else {
        lemma_empty();
    }
}

/// What the first `n` pieces hold together.
spec fn added(n: nat, f: spec_fn(int) -> Tally) -> Tally
    decreases n,
{
    if n == 0 {
        Tally::none()
    } else {
        added((n - 1) as nat, f).plus(f(n - 1))
    }
}

proof fn lemma_spread(n: nat, piece: spec_fn(int) -> Seq<char>, f: spec_fn(int) -> Tally)
    requires
        forall|i: int| 0 <= i < n ==> ends_plain(#[trigger] piece(i)) && tally(piece(i)) == f(i),
    ensures
        tally(spread(n, piece)) == added(n, f),
        ends_plain(spread(n, piece)),
    decreases n,
{
    if n == 0 {
        lemma_empty();
    } else {
        lemma_spread((n - 1) as nat, piece, f);
        assert(ends_plain(piece(n - 1)));
        lemma_join(spread((n - 1) as nat, piece), piece(n - 1));
    }
}

/// The sides of the first `i` cells of a row that are `wanted`.
spec fn row_sides(
    wanted: spec_fn((int, int), Dir) -> bool,
    b: Bounds,
    y: int,
    i: nat,
) -> Set<((int, int), Dir)> {
    Set::new(
        |p: ((int, int), Dir)| p.0.1 == y && b.x0 <= p.0.0 < b.x0 + i && wanted(p.0, p.1),
    )
}

/// The sides of the first `j` rows that are `wanted`.
spec fn grid_sides(
    wanted: spec_fn((int, int), Dir) -> bool,
    b: Bounds,
    j: nat,
) -> Set<((int, int), Dir)> {
    Set::new(
        |p: ((int, int), Dir)|
            b.y0 <= p.0.1 < b.y0 + j && b.x0 <= p.0.0 <= b.x1 && wanted(p.0, p.1),
    )
}

spec fn cell_sides(
    wanted: spec_fn((int, int), Dir) -> bool,
    c: (int, int),
) -> Set<((int, int), Dir)> {
    Set::new(|p: ((int, int), Dir)| p.0 == c && wanted(p.0, p.1))
}

proof fn lemma_cell_sides(wanted: spec_fn((int, int), Dir) -> bool, c: (int, int))
    ensures
        cell_sides(wanted, c).finite(),
        cell_sides(wanted, c).len() == sides_of(wanted, c),
{
    let none = Set::<((int, int), Dir)>::empty();
    let n = if wanted(c, Dir::North) { none.insert((c, Dir::North)) } else { none };
    let s = if wanted(c, Dir::South) { n.insert((c, Dir::South)) } else { n };
    let w = if wanted(c, Dir::West) { s.insert((c, Dir::West)) } else { s };
    let e = if wanted(c, Dir::East) { w.insert((c, Dir::East)) } else { w };
    assert forall|p: ((int, int), Dir)| cell_sides(wanted, c).contains(p) <==> e.contains(p) by {
        match p.1 {
            Dir::North => {},
            Dir::South => {},
            Dir::West => {},
            Dir::East => {},
        }
    }
    assert(cell_sides(wanted, c) =~= e);
}

/// What the first `n` of a row or a column count.
spec fn summed(n: nat, f: spec_fn(int) -> nat) -> nat
    decreases n,
{
    if n == 0 {
        0
    } else {
        summed((n - 1) as nat, f) + f(n - 1)
    }
}

spec fn along(wanted: spec_fn((int, int), Dir) -> bool, b: Bounds, y: int) -> spec_fn(int) -> nat {
    |i: int| sides_of(wanted, (b.x0 + i, y))
}

spec fn down(wanted: spec_fn((int, int), Dir) -> bool, b: Bounds) -> spec_fn(int) -> nat {
    |j: int| summed(b.width(), along(wanted, b, b.y0 + j))
}

proof fn lemma_row_sides(wanted: spec_fn((int, int), Dir) -> bool, b: Bounds, y: int, i: nat)
    ensures
        row_sides(wanted, b, y, i).finite(),
        row_sides(wanted, b, y, i).len() == summed(i, along(wanted, b, y)),
    decreases i,
{
    if i == 0 {
        assert(row_sides(wanted, b, y, i) =~= Set::empty());
    } else {
        let before = (i - 1) as nat;
        let c = (b.x0 + before, y);
        lemma_row_sides(wanted, b, y, before);
        lemma_cell_sides(wanted, c);
        let (r, s) = (row_sides(wanted, b, y, before), cell_sides(wanted, c));
        vstd::set_lib::lemma_set_disjoint_lens(r, s);
        assert(row_sides(wanted, b, y, i) =~= r + s);
        assert(r.disjoint(s));
        assert(along(wanted, b, y)(i - 1) == sides_of(wanted, c));
    }
}

proof fn lemma_grid_sides(wanted: spec_fn((int, int), Dir) -> bool, b: Bounds, j: nat)
    requires
        b.x0 <= b.x1,
    ensures
        grid_sides(wanted, b, j).finite(),
        grid_sides(wanted, b, j).len() == summed(j, down(wanted, b)),
    decreases j,
{
    if j == 0 {
        assert(grid_sides(wanted, b, j) =~= Set::empty());
    } else {
        let before = (j - 1) as nat;
        let y = b.y0 + before;
        lemma_grid_sides(wanted, b, before);
        lemma_row_sides(wanted, b, y, b.width());
        let (g, r) = (grid_sides(wanted, b, before), row_sides(wanted, b, y, b.width()));
        vstd::set_lib::lemma_set_disjoint_lens(g, r);
        assert(grid_sides(wanted, b, j) =~= g + r);
        assert(g.disjoint(r));
        assert(down(wanted, b)(j - 1) == summed(b.width(), along(wanted, b, y)));
    }
}

proof fn lemma_row_added(m: Maze, b: Bounds, y: int, i: nat)
    ensures
        added(i, |k: int| cell_tally(m, (b.x0 + k, y))) == (Tally {
            lines: summed(i, along(is_drawn(m), b, y)),
            dashes: summed(i, along(is_dashed(m), b, y)),
            routes: 0,
        }),
    decreases i,
{
    if i > 0 {
        lemma_row_added(m, b, y, (i - 1) as nat);
    }
}

spec fn row_tally(m: Maze, b: Bounds, y: int) -> Tally {
    Tally {
        lines: summed(b.width(), along(is_drawn(m), b, y)),
        dashes: summed(b.width(), along(is_dashed(m), b, y)),
        routes: 0,
    }
}

proof fn lemma_row(m: Maze, b: Bounds, y: int)
    ensures
        tally(spread(b.width(), row_pictures(m, b, y))) == row_tally(m, b, y),
        ends_plain(spread(b.width(), row_pictures(m, b, y))),
{
    let f = |k: int| cell_tally(m, (b.x0 + k, y));
    let piece = row_pictures(m, b, y);
    assert forall|i: int| 0 <= i < b.width() implies ends_plain(#[trigger] piece(i)) && tally(
        piece(i),
    ) == f(i) by {
        lemma_cell(m, b, (b.x0 + i, y));
    }
    lemma_spread(b.width(), piece, f);
    lemma_row_added(m, b, y, b.width());
}

proof fn lemma_grid_added(m: Maze, b: Bounds, j: nat)
    ensures
        added(j, |k: int| row_tally(m, b, b.y0 + k)) == (Tally {
            lines: summed(j, down(is_drawn(m), b)),
            dashes: summed(j, down(is_dashed(m), b)),
            routes: 0,
        }),
    decreases j,
{
    if j > 0 {
        lemma_grid_added(m, b, (j - 1) as nat);
    }
}

proof fn lemma_grid(m: Maze, b: Bounds)
    ensures
        tally(spread(b.height(), grid_pictures(m, b))) == (Tally {
            lines: summed(b.height(), down(is_drawn(m), b)),
            dashes: summed(b.height(), down(is_dashed(m), b)),
            routes: 0,
        }),
        ends_plain(spread(b.height(), grid_pictures(m, b))),
{
    let f = |k: int| row_tally(m, b, b.y0 + k);
    let piece = grid_pictures(m, b);
    assert forall|j: int| 0 <= j < b.height() implies ends_plain(#[trigger] piece(j)) && tally(
        piece(j),
    ) == f(j) by {
        lemma_row(m, b, b.y0 + j);
    }
    lemma_spread(b.height(), piece, f);
    lemma_grid_added(m, b, b.height());
}

proof fn lemma_point(b: Bounds, path: Seq<(int, int)>, i: int)
    ensures
        tally(route_points(b, path)(i)) == Tally::none(),
        ends_plain(route_points(b, path)(i)),
{
    let x = page_x(b, path[i].0) + 30;
    let y = page_y(b, path[i].1) + 30;
    let gap = if i == 0 {
        ""@
    } else {
        " "@
    };
    reveal_strlit("");
    lemma_text_space();
    if i == 0 {
        assert(""@ =~= Seq::<char>::empty());
        lemma_empty();
    }
    let t = gap;
    lemma_shown(x);
    lemma_join(t, shown(x));
    let t = t + shown(x);
    lemma_text_comma();
    lemma_join(t, ","@);
    let t = t + ","@;
    lemma_shown(y);
    lemma_join(t, shown(y));
    assert(route_points(b, path)(i) == gap + shown(x) + ","@ + shown(y));
}

/// A text of one character is found piece by piece.
proof fn lemma_single(a: Seq<char>, b: Seq<char>, pat: Seq<char>)
    requires
        pat.len() == 1,
    ensures
        occurrences(a + b, pat) == occurrences(a, pat) + occurrences(b, pat),
    decreases a.len(),
{
    if a.len() == 0 {
        assert(a + b =~= b);
    } else {
        let s = a + b;
        assert(s.skip(1) =~= a.skip(1) + b);
        lemma_single(a.skip(1), b, pat);
        assert(s[0] == a[0]);
        assert(stands_at(s, pat, 0) <==> stands_at(a, pat, 0)) by {
            if stands_at(s, pat, 0) {
                assert(s[0int + 0] == pat[0]);
            }
            if stands_at(a, pat, 0) {
                assert(a[0int + 0] == pat[0]);
            }
        }
    }
}

proof fn lemma_comma()
    ensures
        ","@.len() == 1,
        occurrences(","@, ","@) == 1,
        occurrences(" "@, ","@) == 0,
        occurrences(""@, ","@) == 0,
{
    reveal_strlit("");
    reveal_strlit(" ");
    reveal_strlit(",");
    assert(stands_at(","@, ","@, 0));
    lemma_counted(","@, ","@, Some(0int));
    assert forall|k: int| !stands_at(" "@, ","@, k) by {
        if stands_at(" "@, ","@, k) {
            assert(" "@[k + 0] == ","@[0]);
        }
    }
    lemma_counted(" "@, ","@, None);
}

/// Every point of the route holds one comma.
proof fn lemma_point_commas(b: Bounds, path: Seq<(int, int)>, i: int)
    ensures
        occurrences(route_points(b, path)(i), ","@) == 1,
{
    let x = shown(page_x(b, path[i].0) + 30);
    let y = shown(page_y(b, path[i].1) + 30);
    let gap = if i == 0 {
        ""@
    } else {
        " "@
    };
    lemma_comma();
    lemma_shown(page_x(b, path[i].0) + 30);
    lemma_shown(page_y(b, path[i].1) + 30);
    lemma_single(gap, x, ","@);
    lemma_single(gap + x, ","@, ","@);
    lemma_single(gap + x + ","@, y, ","@);
    assert(route_points(b, path)(i) == gap + x + ","@ + y);
}

/// As many commas as points.
proof fn lemma_commas(b: Bounds, path: Seq<(int, int)>, n: nat)
    ensures
        occurrences(spread(n, route_points(b, path)), ","@) == n,
    decreases n,
{
    lemma_comma();
    if n > 0 {
        lemma_commas(b, path, (n - 1) as nat);
        lemma_point_commas(b, path, n - 1);
        lemma_single(
            spread((n - 1) as nat, route_points(b, path)),
            route_points(b, path)(n - 1),
            ","@,
        );
    }
}

proof fn lemma_added_none(n: nat)
    ensures
        added(n, |k: int| Tally::none()) == Tally::none(),
    decreases n,
{
    if n > 0 {
        lemma_added_none((n - 1) as nat);
    }
}

proof fn lemma_route(b: Bounds, path: Seq<(int, int)>)
    ensures
        tally(route(b, path)) == (Tally {
            lines: 0,
            dashes: 0,
            routes: if path.len() > 1 { 1 } else { 0 },
        }),
        ends_plain(route(b, path)),
{
    if path.len() > 1 {
        let piece = route_points(b, path);
        let f = |k: int| Tally::none();
        assert forall|i: int| 0 <= i < path.len() implies ends_plain(#[trigger] piece(i)) && tally(
            piece(i),
        ) == f(i) by {
            lemma_point(b, path, i);
        }
        lemma_spread(path.len(), piece, f);
        lemma_added_none(path.len());
        let points = spread(path.len(), piece);
        lemma_text_route();
        let t = "<polyline points=\""@;
        lemma_join(t, points);
        let t = t + points;
        lemma_text_route_end();
        lemma_join(t, "\" fill=\"none\" stroke=\"#e07b39\" stroke-width=\"3\" stroke-linejoin=\"round\" opacity=\"0.85\"/>\n"@);
    } else {
        lemma_empty();
    }
}

/// Where the route stands, its points stand in quotes.
proof fn lemma_route_begins(
    before: Seq<char>,
    b: Bounds,
    path: Seq<(int, int)>,
    after: Seq<char>,
)
    requires
        path.len() > 1,
    ensures
        stands_at(
            before + route(b, path) + after,
            "<polyline points=\""@ + spread(path.len(), route_points(b, path)) + "\""@,
            before.len() as int,
        ),
{
    let end = "\" fill=\"none\" stroke=\"#e07b39\" stroke-width=\"3\" stroke-linejoin=\"round\" opacity=\"0.85\"/>\n"@;
    reveal_strlit("\" fill=\"none\" stroke=\"#e07b39\" stroke-width=\"3\" stroke-linejoin=\"round\" opacity=\"0.85\"/>\n");
    reveal_strlit("\"");
    let open = "<polyline points=\""@ + spread(path.len(), route_points(b, path));
    let pat = open + "\""@;
    let s = before + route(b, path) + after;
    assert(route(b, path) == open + end);
    assert forall|k: int| 0 <= k < pat.len() implies s[before.len() as int + k]
        == #[trigger] pat[k] by {
        assert(s[before.len() as int + k] == route(b, path)[k]);
        if k < open.len() {
            assert(pat[k] == open[k]);
        } else {
            assert(pat[k] == "\""@[0]);
            assert(route(b, path)[k] == end[0]);
        }
    }
}

proof fn lemma_marks(m: Maze, b: Bounds)
    ensures
        tally(start_mark(b, m.path)) == Tally::none(),
        ends_plain(start_mark(b, m.path)),
        tally(duck_mark(b, m.at)) == Tally::none(),
        ends_plain(duck_mark(b, m.at)),
{
    if m.path.len() > 0 {
        let (x, y) = (page_x(b, m.path[0].0) + 30, page_y(b, m.path[0].1) + 30);
        lemma_text_circle();
        let t = "<circle cx=\""@;
        lemma_shown(x);
        lemma_join(t, shown(x));
        let t = t + shown(x);
        lemma_text_cy();
        lemma_join(t, "\" cy=\""@);
        let t = t + "\" cy=\""@;
        lemma_shown(y);
        lemma_join(t, shown(y));
        let t = t + shown(y);
        lemma_text_start_end();
        lemma_join(t, "\" r=\"9\" fill=\"#2a9d3f\"/>\n"@);
    } else {
        lemma_empty();
    }
    let (x, y) = (page_x(b, m.at.0) + 30, page_y(b, m.at.1) + 30);
    lemma_text_circle();
    let t = "<circle cx=\""@;
    lemma_shown(x);
    lemma_join(t, shown(x));
    let t = t + shown(x);
    lemma_text_cy();
    lemma_join(t, "\" cy=\""@);
    let t = t + "\" cy=\""@;
    lemma_shown(y);
    lemma_join(t, shown(y));
    let t = t + shown(y);
    lemma_text_duck_end();
    lemma_join(t, "\" r=\"9\" fill=\"#e6b422\" stroke=\"#333\" stroke-width=\"2\"/>\n"@);
}

proof fn lemma_caption(m: Maze, b: Bounds)
    ensures
        tally(caption(m, b)) == Tally::none(),
        ends_plain(caption(m, b)),
        ends_with(caption(m, b), "</svg>\n"@),
{
    let h = crate::maze_draw::page_height(b) - 6;
    let n = crate::maze_draw::cells_walked(m) as int;
    let k = m.moves as int;
    lemma_text_caption();
    let t = "<text x=\"30\" y=\""@;
    lemma_shown(h);
    lemma_join(t, shown(h));
    let t = t + shown(h);
    lemma_text_caption_height();
    lemma_join(t, "\" font-size=\"12\" fill=\"#555\">"@);
    let t = t + "\" font-size=\"12\" fill=\"#555\">"@;
    lemma_shown(n);
    lemma_join(t, shown(n));
    let t = t + shown(n);
    lemma_text_cells_walked();
    lemma_join(t, " cells walked · "@);
    let t = t + " cells walked · "@;
    lemma_shown(k);
    lemma_join(t, shown(k));
    let t = t + shown(k);
    lemma_text_caption_end();
    lemma_join(t, " moves · dotted = never looked · green = outside</text>\n</svg>\n"@);
    let tail = " moves · dotted = never looked · green = outside</text>\n</svg>\n"@;
    reveal_strlit(" moves · dotted = never looked · green = outside</text>\n</svg>\n");
    reveal_strlit("</svg>\n");
    let s = caption(m, b);
    assert forall|i: int| 0 <= i < 7 implies s[s.len() - 7 + i] == #[trigger] "</svg>\n"@[i] by {
        assert(s[s.len() - 7 + i] == tail[tail.len() - 7 + i]);
    }
}

/// A text ends with another.
pub open spec fn ends_with(s: Seq<char>, end: Seq<char>) -> bool {
    stands_at(s, end, s.len() - end.len())
}

/// The cells the duck stood in lie within the picture.
pub open spec fn in_frame(m: Maze) -> bool {
    &&& frame(m).x0 <= frame(m).x1
    &&& frame(m).y0 <= frame(m).y1
    &&& forall|c: (int, int)| #[trigger] visited(m, c) ==> frame(m).holds(c)
}

/// The sides of the whole map that are `wanted`.
pub open spec fn all_sides(
    wanted: spec_fn((int, int), Dir) -> bool,
) -> Set<((int, int), Dir)> {
    Set::new(|p: ((int, int), Dir)| wanted(p.0, p.1))
}

/// `s` shows the maze: a line for every side of a visited cell that is not open, and no other;
/// as many of them dashed as are no walls; one route if the path has more than one cell, with a
/// point for each cell of the path in turn; and the picture is closed at its end.
pub open spec fn shows_the_maze(m: Maze, s: Seq<char>) -> bool {
    let b = frame(m);
    let before = page_head(b) + spread(b.height(), grid_pictures(m, b));
    let points = spread(m.path.len(), route_points(b, m.path));
    &&& all_sides(is_drawn(m)).finite()
    &&& all_sides(is_dashed(m)).finite()
    &&& occurrences(s, "<line"@) == all_sides(is_drawn(m)).len()
    &&& occurrences(s, "stroke-dasharray"@) == all_sides(is_dashed(m)).len()
    &&& occurrences(s, "<polyline"@) == (if m.path.len() > 1 {
        1nat
    } else {
        0
    })
    &&& m.path.len() > 1 ==> stands_at(
        s,
        "<polyline points=\""@ + points + "\""@,
        before.len() as int,
    )
    &&& occurrences(points, ","@) == m.path.len()
    &&& ends_with(s, "</svg>\n"@)
}

/// The picture of a maze shows it, and the line of a drawn side is dashed unless it is a wall.
pub proof fn law_picture_shows_every_side(m: Maze)
    requires
        in_frame(m),
    ensures
        shows_the_maze(m, picture(m, frame(m))),
        forall|c: (int, int), d: Dir, from: (int, int), to: (int, int)|
            is_drawn(m)(c, d) ==> #[trigger] occurrences(
                side_line(m.edge(c, d), from, to),
                "stroke-dasharray"@,
            ) == (if m.edge(c, d) is Wall {
                0nat
            } else {
                1
            }),
{
    let b = frame(m);
    let (head, grid, way, start, duck, note) = (
        page_head(b),
        spread(b.height(), grid_pictures(m, b)),
        route(b, m.path),
        start_mark(b, m.path),
        duck_mark(b, m.at),
        caption(m, b),
    );
    lemma_head(b);
    lemma_grid(m, b);
    lemma_route(b, m.path);
    lemma_marks(m, b);
    lemma_caption(m, b);
    lemma_join(head, grid);
    lemma_join(head + grid, way);
    lemma_join(head + grid + way, start);
    lemma_join(head + grid + way + start, duck);
    lemma_join(head + grid + way + start + duck, note);
    let s = picture(m, b);
    assert(s == head + grid + way + start + duck + note);
    lemma_grid_sides(is_drawn(m), b, b.height());
    lemma_grid_sides(is_dashed(m), b, b.height());
    assert(all_sides(is_drawn(m)) =~= grid_sides(is_drawn(m), b, b.height())) by {
        assert forall|p: ((int, int), Dir)| all_sides(is_drawn(m)).contains(p) implies grid_sides(
            is_drawn(m),
            b,
            b.height(),
        ).contains(p) by {
            assert(visited(m, p.0));
        }
    }
    assert(all_sides(is_dashed(m)) =~= grid_sides(is_dashed(m), b, b.height())) by {
        assert forall|p: ((int, int), Dir)| all_sides(is_dashed(m)).contains(p) implies grid_sides(
            is_dashed(m),
            b,
            b.height(),
        ).contains(p) by {
            assert(visited(m, p.0));
        }
    }
    lemma_commas(b, m.path, m.path.len());
    if m.path.len() > 1 {
        lemma_route_begins(head + grid, b, m.path, start + duck + note);
        assert(s =~= head + grid + way + (start + duck + note));
    }
    reveal_strlit("</svg>\n");
    assert forall|i: int| 0 <= i < 7 implies s[s.len() - 7 + i] == #[trigger] "</svg>\n"@[i] by {
        assert(note[note.len() - 7 + i] == "</svg>\n"@[i]);
        assert(s[s.len() - 7 + i] == note[note.len() - 7 + i]);
    }
    assert forall|c: (int, int), d: Dir, from: (int, int), to: (int, int)|
        is_drawn(m)(c, d) implies #[trigger] occurrences(
        side_line(m.edge(c, d), from, to),
        "stroke-dasharray"@,
    ) == (if m.edge(c, d) is Wall {
        0nat
    } else {
        1
    }) by {
        lemma_side(m.edge(c, d), from, to);
    }
}

} // verus!

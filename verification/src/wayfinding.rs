//! What the frontier path is for: it leads over the known floor, clear of things, to the nearest
//! place from where the unknown can be seen, if there is any way there.

use vstd::prelude::*;

use crate::frontier::{
    before, beside, centre, earlier, end_of, law_best_walk_is_unique, law_path_keeps_to_the_floor,
    route,
};
use crate::mapping::law_rounding_is_to_the_nearest;
use crate::room::{cell_of, Room};
use crate::units::rounded;

verus! {

/// Two cells share a side.
pub open spec fn adjoin(a: (int, int), b: (int, int)) -> bool {
    ||| a.0 == b.0 && (a.1 - b.1 == 1 || b.1 - a.1 == 1)
    ||| a.1 == b.1 && (a.0 - b.0 == 1 || b.0 - a.0 == 1)
}

/// Nothing believed occupied lies within two cells of `c`, measured straight.
pub open spec fn is_roomy(room: Room, c: (int, int)) -> bool {
    forall|n: (int, int)|
        #[trigger] room.cell(n) is Occupied ==> (n.0 - c.0) * (n.0 - c.0) + (n.1 - c.1) * (n.1
            - c.1) > 4
}

/// From `c`, which is known floor, the unknown lies over one of its sides.
pub open spec fn is_edge(room: Room, c: (int, int)) -> bool {
    &&& room.cell(c) is Free
    &&& exists|n: (int, int)| #[trigger] room.cell(n) is Unknown && adjoin(c, n)
}

/// A way from `start`, cell by cell, over known floor: from side to side, and once it has left
/// the start, clear of things.
pub open spec fn is_way(room: Room, start: (int, int), way: Seq<(int, int)>) -> bool {
    forall|k: int|
        #![trigger way[k]]
        0 <= k < way.len() ==> {
            let from = if k == 0 {
                start
            } else {
                way[k - 1]
            };
            &&& adjoin(from, way[k])
            &&& room.cell(way[k]) is Free
            &&& from != start ==> is_roomy(room, way[k])
        }
}

/// A way that leads to an edge of the unknown at least `min` cells away, measured straight.
pub open spec fn leads_out(
    room: Room,
    start: (int, int),
    min: int,
    way: Seq<(int, int)>,
) -> bool {
    &&& way.len() > 0
    &&& is_way(room, start, way)
    &&& is_edge(room, way.last())
    &&& way.last() != start
    &&& (way.last().0 - start.0) * (way.last().0 - start.0) + (way.last().1 - start.1) * (
    way.last().1 - start.1) >= min * min
}

/// The cells a walk passes.
pub open spec fn cells_on(start: (int, int), word: Seq<int>) -> Seq<(int, int)> {
    Seq::new(word.len(), |k: int| end_of(start, word.take(k + 1)))
}

/// Which of the four sides leads from `a` to `b`.
spec fn side_to(a: (int, int), b: (int, int)) -> int {
    if b.0 > a.0 {
        0
    } else if b.0 < a.0 {
        1
    } else if b.1 > a.1 {
        2
    } else {
        3
    }
}

spec fn word_of(start: (int, int), way: Seq<(int, int)>) -> Seq<int> {
    Seq::new(
        way.len(),
        |k: int|
            side_to(
                if k == 0 {
                    start
                } else {
                    way[k - 1]
                },
                way[k],
            ),
    )
}

proof fn lemma_adjoin(a: (int, int), b: (int, int))
    ensures
        adjoin(a, b) <==> exists|d: int| 0 <= d < 4 && #[trigger] beside(a, d) == b,
        adjoin(a, b) ==> 0 <= side_to(a, b) < 4 && beside(a, side_to(a, b)) == b,
{
    if adjoin(a, b) {
        assert(beside(a, side_to(a, b)) == b);
    }
}

proof fn lemma_edge(room: Room, c: (int, int))
    ensures
        room.is_frontier(c) <==> is_edge(room, c),
{
    if room.is_frontier(c) {
        let d = choose|d: int| 0 <= d < 4 && #[trigger] room.cell(beside(c, d)) is Unknown;
        lemma_adjoin(c, beside(c, d));
        assert(adjoin(c, beside(c, d)));
    }
    if is_edge(room, c) {
        let n = choose|n: (int, int)| #[trigger] room.cell(n) is Unknown && adjoin(c, n);
        lemma_adjoin(c, n);
        assert(room.cell(beside(c, side_to(c, n))) is Unknown);
    }
}

proof fn lemma_roomy(room: Room, c: (int, int))
    ensures
        room.walkable(c) <==> room.cell(c) is Free && is_roomy(room, c),
{
    assert forall|n: (int, int)|
        crate::frontier::inflated(c, n) <==> #[trigger] ((n.0 - c.0) * (n.0 - c.0) + (n.1 - c.1) * (
        n.1 - c.1)) <= 4 by {
        let d2 = (n.0 - c.0) * (n.0 - c.0) + (n.1 - c.1) * (n.1 - c.1);
        assert(d2 * 100_000_000 * 100_000_000 == d2 * 10_000_000_000_000_000) by (nonlinear_arith);
        assert(crate::room::INFLATE_M * crate::room::INFLATE_M == 40_000_000_000_000_000)
            by (nonlinear_arith)
            requires
                crate::room::INFLATE_M == 200_000_000,
        ;
    }
    assert forall|n: (int, int)| #[trigger] room.cell(n) is Occupied implies (
    crate::frontier::inflated(c, n) <==> (n.0 - c.0) * (n.0 - c.0) + (n.1 - c.1) * (n.1 - c.1)
        <= 4) by {}
}

/// A walk is a way over the cells it passes.
proof fn lemma_walk_is_way(room: Room, start: (int, int), min: int, word: Seq<int>)
    requires
        room.reaches(start, min, word),
    ensures
        leads_out(room, start, min, cells_on(start, word)),
{
    let way = cells_on(start, word);
    assert(word.len() > 0);
    assert forall|k: int|
        #![trigger way[k]]
        0 <= k < way.len() implies {
        let from = if k == 0 {
            start
        } else {
            way[k - 1]
        };
        &&& adjoin(from, way[k])
        &&& room.cell(way[k]) is Free
        &&& from != start ==> is_roomy(room, way[k])
    } by {
        law_path_keeps_to_the_floor(room, start, min, word, k);
        let from = end_of(start, word.take(k));
        if k == 0 {
            assert(word.take(0).len() == 0);
        } else {
            assert(way[k - 1] == from);
        }
        lemma_adjoin(from, way[k]);
        assert(beside(from, word[k]) == way[k]);
        lemma_roomy(room, way[k]);
    }
    assert(word.take(word.len() as int) =~= word);
    assert(way.last() == end_of(start, word));
    lemma_edge(room, way.last());
}

proof fn lemma_way_is_walk(room: Room, start: (int, int), way: Seq<(int, int)>, k: nat)
    requires
        is_way(room, start, way),
        k <= way.len(),
    ensures
        ({
            let word = word_of(start, way).take(k as int);
            &&& room.walks(start, word)
            &&& end_of(start, word) == (if k == 0 {
                start
            } else {
                way[k - 1]
            })
            &&& forall|i: int| 0 <= i < k ==> 0 <= #[trigger] word[i] < 4
        }),
    decreases k,
{
    let all = word_of(start, way);
    let word = all.take(k as int);
    if k > 0 {
        lemma_way_is_walk(room, start, way, (k - 1) as nat);
        assert(word.drop_last() =~= all.take(k - 1));
        let from = if k == 1 {
            start
        } else {
            way[k - 2]
        };
        assert(way[k - 1] == way[k - 1]);
        lemma_adjoin(from, way[k - 1]);
        assert(word.last() == side_to(from, way[k - 1]));
        lemma_roomy(room, way[k - 1]);
        assert forall|i: int| 0 <= i < k implies 0 <= #[trigger] word[i] < 4 by {
            if i < k - 1 {
                assert(word[i] == all.take(k - 1)[i]);
            }
        }
    }
}

/// A word read as a number: words of one length are in the order of their numbers.
spec fn number_of(word: Seq<int>) -> nat
    decreases word.len(),
{
    if word.len() == 0 {
        0
    } else {
        number_of(word.drop_last()) * 4 + (word.last() as nat)
    }
}

spec fn is_word(word: Seq<int>) -> bool {
    forall|i: int| 0 <= i < word.len() ==> 0 <= #[trigger] word[i] < 4
}

proof fn lemma_earlier_is_less(a: Seq<int>, b: Seq<int>)
    requires
        is_word(a),
        is_word(b),
        a.len() == b.len(),
        earlier(a, b),
    ensures
        number_of(a) < number_of(b),
    decreases a.len(),
{
    assert forall|i: int| 0 <= i < a.drop_last().len() implies 0 <= #[trigger] a.drop_last()[i]
        < 4 by {
        assert(a.drop_last()[i] == a[i]);
    }
    assert forall|i: int| 0 <= i < b.drop_last().len() implies 0 <= #[trigger] b.drop_last()[i]
        < 4 by {
        assert(b.drop_last()[i] == b[i]);
    }
    if earlier(a.drop_last(), b.drop_last()) {
        lemma_earlier_is_less(a.drop_last(), b.drop_last());
    }
    assert(0 <= a[a.len() - 1] < 4 && 0 <= b[b.len() - 1] < 4);
}

proof fn lemma_walk_is_word(room: Room, start: (int, int), word: Seq<int>)
    requires
        room.walks(start, word),
    ensures
        is_word(word),
    decreases word.len(),
{
    if word.len() > 0 {
        lemma_walk_is_word(room, start, word.drop_last());
        assert forall|i: int| 0 <= i < word.len() implies 0 <= #[trigger] word[i] < 4 by {
            if i < word.len() - 1 {
                assert(word[i] == word.drop_last()[i]);
            }
        }
    }
}

proof fn lemma_best_exists(room: Room, start: (int, int), min: int, word: Seq<int>) -> (best: Seq<
    int,
>)
    requires
        room.reaches(start, min, word),
    ensures
        room.is_best(start, min, best),
        best.len() <= word.len(),
    decreases word.len(), number_of(word),
{
    if room.is_best(start, min, word) {
        word
    } else {
        let other = choose|other: Seq<int>| #[trigger]
            room.reaches(start, min, other) && before(other, word);
        lemma_walk_is_word(room, start, word);
        lemma_walk_is_word(room, start, other);
        if other.len() == word.len() {
            lemma_earlier_is_less(other, word);
        }
        lemma_best_exists(room, start, min, other)
    }
}

/// The point lies in the middle of its cell.
pub open spec fn is_middle(p: (int, int), c: (int, int)) -> bool {
    p.0 == c.0 * 100_000_000 + 50_000_000 && p.1 == c.1 * 100_000_000 + 50_000_000
}

/// If any way leads over the floor from the duck to an edge of the unknown far enough off, the
/// path is one: through the middles of the cells of such a way, and of one with the fewest
/// steps. If none does there is no path.
pub proof fn law_path_leads_to_the_nearest_edge(
    room: Room,
    from: (i64, i64),
    min: i64,
    other: Seq<(int, int)>,
) -> (way: Seq<(int, int)>)
    ensures
        ({
            let start = cell_of(from.0 as int, from.1 as int);
            let cells = rounded(min as int, 100_000_000);
            match room.frontier_path(from, min) {
                Some(path) => {
                    &&& leads_out(room, start, cells, way)
                    &&& path.len() == way.len()
                    &&& forall|k: int|
                        0 <= k < path.len() ==> is_middle(#[trigger] path[k], way[k])
                    &&& leads_out(room, start, cells, other) ==> path.len() <= other.len()
                },
                None => !leads_out(room, start, cells, other),
            }
        }),
        -100_000_000 <= 2 * (100_000_000 * rounded(min as int, 100_000_000) - min) <= 100_000_000,
{
    let start = cell_of(from.0 as int, from.1 as int);
    let cells = rounded(min as int, 100_000_000);
    law_rounding_is_to_the_nearest(min as int, 100_000_000);
    if leads_out(room, start, cells, other) {
        let word = word_of(start, other);
        lemma_way_is_walk(room, start, other, other.len());
        assert(word.take(other.len() as int) =~= word);
        lemma_edge(room, other.last());
        assert(room.reaches(start, cells, word));
        let best = lemma_best_exists(room, start, cells, word);
        assert(room.is_best(start, cells, best));
        let chosen = choose|word: Seq<int>| #[trigger] room.is_best(start, cells, word);
        law_best_walk_is_unique(room, start, cells, best, chosen);
    }
    if room.frontier_path(from, min) is Some {
        let chosen = choose|word: Seq<int>| #[trigger] room.is_best(start, cells, word);
        assert(room.is_best(start, cells, chosen));
        lemma_walk_is_way(room, start, cells, chosen);
        let path = route(start, chosen);
        let way = cells_on(start, chosen);
        assert forall|k: int| 0 <= k < path.len() implies is_middle(#[trigger] path[k], way[k]) by {
            assert(path[k] == centre(way[k]));
        }
        way
    } else {
        other
    }
}

proof fn lemma_first_difference(a: Seq<int>, b: Seq<int>, k: int)
    requires
        a.len() == b.len(),
        0 <= k < a.len(),
        forall|j: int| 0 <= j < k ==> #[trigger] a[j] == b[j],
        a[k] < b[k],
    ensures
        earlier(a, b),
    decreases a.len(),
{
    if k == a.len() - 1 {
        assert(a.drop_last() =~= b.drop_last());
    } else {
        lemma_first_difference(a.drop_last(), b.drop_last(), k);
    }
}

/// Of two ways as short, the one is taken that first goes east where the other does not, or west,
/// or north: where they part, east comes before west, west before north, and north before south.
pub proof fn law_ways_as_short_go_east_first(
    room: Room,
    start: (int, int),
    min: int,
    word: Seq<int>,
    other: Seq<int>,
    k: int,
)
    requires
        room.is_best(start, min, word),
        room.reaches(start, min, other),
        word.len() == other.len(),
        0 <= k < word.len(),
        forall|j: int| 0 <= j < k ==> #[trigger] word[j] == other[j],
        word[k] != other[k],
    ensures
        word[k] < other[k],
        beside(start, 0) == (start.0 + 1, start.1),
        beside(start, 1) == (start.0 - 1, start.1),
        beside(start, 2) == (start.0, start.1 + 1),
        beside(start, 3) == (start.0, start.1 - 1),
{
    if other[k] < word[k] {
        lemma_first_difference(other, word, k);
        assert(before(other, word));
    }
}

} // verus!

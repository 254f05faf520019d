//! Frontier exploration: the shortest walk over known floor to the edge of the unknown.

use vstd::prelude::*;

use crate::room::{cell_of, key, points, Cell, Room, RoomMap, INFLATE_M, RES};
use crate::sparse::{is_cell, place, Sparse};
use crate::units::{round_div, rounded};

verus! {

/// The neighbour of `c` in the direction searched `d`-th: ahead and back along the first
/// axis, then the second.
pub open spec fn beside(c: (int, int), d: int) -> (int, int) {
    if d == 0 {
        (c.0 + 1, c.1)
    } else if d == 1 {
        (c.0 - 1, c.1)
    } else if d == 2 {
        (c.0, c.1 + 1)
    } else {
        (c.0, c.1 - 1)
    }
}

/// `n` is within 0.2 m of `c`, centre to centre.
pub open spec fn inflated(c: (int, int), n: (int, int)) -> bool {
    ((n.0 - c.0) * (n.0 - c.0) + (n.1 - c.1) * (n.1 - c.1)) * RES * RES <= INFLATE_M * INFLATE_M
}

impl Room {
    /// Free and not within 0.2 m of anything occupied.
    pub open spec fn walkable(self, c: (int, int)) -> bool {
        &&& self.cell(c) is Free
        &&& forall|n: (int, int)| #[trigger] self.cell(n) is Occupied ==> !inflated(c, n)
    }

    /// A free cell with an unknown neighbour.
    pub open spec fn is_frontier(self, c: (int, int)) -> bool {
        &&& self.cell(c) is Free
        &&& exists|d: int| 0 <= d < 4 && #[trigger] self.cell(beside(c, d)) is Unknown
    }

    /// A walk from `start` may go from `c` to `n`: out of the start through free cells, since
    /// the duck may stand next to a wall, and from then on through walkable ones.
    pub open spec fn may_step(self, start: (int, int), c: (int, int), n: (int, int)) -> bool {
        if c == start {
            self.cell(n) is Free
        } else {
            self.walkable(n)
        }
    }

    /// A walk given as directions, one after the other, from `start`.
    pub open spec fn walks(self, start: (int, int), word: Seq<int>) -> bool
        decreases word.len(),
    {
        if word.len() == 0 {
            true
        } else {
            &&& self.walks(start, word.drop_last())
            &&& 0 <= word.last() < 4
            &&& self.may_step(start, end_of(start, word.drop_last()), end_of(start, word))
        }
    }

    /// A frontier at least `min` cells from the start.
    pub open spec fn is_goal(self, start: (int, int), min: int, c: (int, int)) -> bool {
        &&& c != start
        &&& (c.0 - start.0) * (c.0 - start.0) + (c.1 - start.1) * (c.1 - start.1) >= min * min
        &&& self.is_frontier(c)
    }

    /// `word` walks from `start` to a goal.
    pub open spec fn reaches(self, start: (int, int), min: int, word: Seq<int>) -> bool {
        &&& self.walks(start, word)
        &&& self.is_goal(start, min, end_of(start, word))
    }

    /// `word` is the shortest walk to a goal; of several as short, the first in the order of
    /// the directions.
    pub open spec fn is_best(self, start: (int, int), min: int, word: Seq<int>) -> bool {
        &&& self.reaches(start, min, word)
        &&& forall|other: Seq<int>| #[trigger] self.reaches(start, min, other) ==> !before(other, word)
    }
}

impl Room {
    /// The points of the best walk from a point to a frontier at least `min` away, if any walk
    /// leads to one.
    pub open spec fn frontier_path(self, from: (i64, i64), min: i64) -> Option<Seq<(int, int)>> {
        let start = cell_of(from.0 as int, from.1 as int);
        let cells = rounded(min as int, RES as int);
        if exists|word: Seq<int>| #[trigger] self.is_best(start, cells, word) {
            Some(route(start, choose|word: Seq<int>| #[trigger] self.is_best(start, cells, word)))
        } else {
            None
        }
    }
}

/// Where a walk ends.
pub open spec fn end_of(start: (int, int), word: Seq<int>) -> (int, int)
    decreases word.len(),
{
    if word.len() == 0 {
        start
    } else {
        beside(end_of(start, word.drop_last()), word.last())
    }
}

/// Of two words of one length, `a` comes first in the dictionary.
pub open spec fn earlier(a: Seq<int>, b: Seq<int>) -> bool
    decreases a.len(),
{
    if a.len() == 0 || b.len() == 0 {
        false
    } else {
        ||| earlier(a.drop_last(), b.drop_last())
        ||| a.drop_last() == b.drop_last() && a.last() < b.last()
    }
}

/// Shorter words first, words of one length as in the dictionary.
pub open spec fn before(a: Seq<int>, b: Seq<int>) -> bool {
    a.len() < b.len() || a.len() == b.len() && earlier(a, b)
}

proof fn lemma_earlier_irreflexive(a: Seq<int>)
    ensures
        !earlier(a, a),
    decreases a.len(),
{
    if a.len() > 0 {
        lemma_earlier_irreflexive(a.drop_last());
    }
}

proof fn lemma_earlier_transitive(a: Seq<int>, b: Seq<int>, c: Seq<int>)
    requires
        a.len() == b.len() == c.len(),
        earlier(a, b),
        earlier(b, c),
    ensures
        earlier(a, c),
    decreases a.len(),
{
    if a.len() > 0 {
        let (x, y, z) = (a.drop_last(), b.drop_last(), c.drop_last());
        if earlier(x, y) && earlier(y, z) {
            lemma_earlier_transitive(x, y, z);
        }
    }
}

proof fn lemma_before_transitive(a: Seq<int>, b: Seq<int>, c: Seq<int>)
    requires
        before(a, b),
        before(b, c),
    ensures
        before(a, c),
{
    if a.len() == b.len() && b.len() == c.len() {
        lemma_earlier_transitive(a, b, c);
    }
}

proof fn lemma_earlier_total(a: Seq<int>, b: Seq<int>)
    requires
        a.len() == b.len(),
    ensures
        earlier(a, b) || a == b || earlier(b, a),
    decreases a.len(),
{
    if a.len() > 0 {
        lemma_earlier_total(a.drop_last(), b.drop_last());
        if a.drop_last() == b.drop_last() && a.last() == b.last() {
            assert(a =~= a.drop_last().push(a.last()));
            assert(b =~= b.drop_last().push(b.last()));
        }
    } else {
        assert(a =~= b);
    }
}

/// Words extended in the order of what they extend stay in order.
proof fn lemma_before_pushed(a: Seq<int>, x: int, b: Seq<int>, y: int)
    requires
        before(a, b) || a == b && x < y,
    ensures
        before(a.push(x), b.push(y)),
{
    assert(a.push(x).drop_last() =~= a);
    assert(b.push(y).drop_last() =~= b);
}

proof fn lemma_pushed(start: (int, int), word: Seq<int>, d: int)
    ensures
        end_of(start, word.push(d)) == beside(end_of(start, word), d),
{
    assert(word.push(d).drop_last() =~= word);
}

/// Only the cells up to two away count as close.
proof fn lemma_inflated(c: (int, int), n: (int, int))
    ensures
        inflated(c, n) <==> (n.0 - c.0) * (n.0 - c.0) + (n.1 - c.1) * (n.1 - c.1) <= 4,
        inflated(c, n) ==> -2 <= n.0 - c.0 <= 2 && -2 <= n.1 - c.1 <= 2,
{
    let (dx, dy) = (n.0 - c.0, n.1 - c.1);
    let d2 = dx * dx + dy * dy;
    assert(d2 * RES * RES == d2 * 10_000_000_000_000_000) by (nonlinear_arith)
        requires
            RES == 100_000_000,
    ;
    assert(dx * dx >= 0 && dy * dy >= 0) by (nonlinear_arith);
    assert(dx > 2 || dx < -2 ==> dx * dx > 4) by (nonlinear_arith);
    assert(dy > 2 || dy < -2 ==> dy * dy > 4) by (nonlinear_arith);
}

/// The cell `dx`, `dy` away, where the grid has one.
fn offset(c: (i32, i32), dx: i64, dy: i64) -> (n: Option<(i32, i32)>)
    requires
        -2 <= dx <= 2,
        -2 <= dy <= 2,
    ensures
        match n {
            Some(n) => place(n) == (c.0 + dx, c.1 + dy),
            None => !is_cell((c.0 + dx, c.1 + dy)),
        },
{
    let x: i64 = c.0 as i64 + dx;
    let y: i64 = c.1 as i64 + dy;
    let (lo, hi): (i64, i64) = (i32::MIN as i64, i32::MAX as i64);
    if x < lo || x > hi || y < lo || y > hi {
        None
    } else {
        Some((x as i32, y as i32))
    }
}

impl RoomMap {
    /// What is believed of the cell `dx`, `dy` away.
    fn cell_off(&self, c: (i32, i32), dx: i64, dy: i64) -> (r: Cell)
        requires
            -2 <= dx <= 2,
            -2 <= dy <= 2,
        ensures
            r == self@.cell((c.0 + dx, c.1 + dy)),
    {
        match offset(c, dx, dy) {
            Some(n) => self.cell(n),
            None => {
                proof {
                    self.cells.lemma_keys_are_cells();
                }
                Cell::Unknown
            },
        }
    }

    /// Free and not within [`INFLATE_M`] of anything occupied: a cell the duck may stand in.
    pub fn walkable(&self, c: (i32, i32)) -> (r: bool)
        ensures
            r == self@.walkable(place(c)),
    {
        if self.cell(c) != Cell::Free {
            return false;
        }
        let ghost home = place(c);
        let mut dx: i64 = -2;
        proof {
            assert forall|n: (int, int)|
                n.0 - c.0 < dx && #[trigger] self@.cell(n) is Occupied implies !inflated(
                home,
                n,
            ) by {
                lemma_inflated(home, n);
            }
        }
        while dx <= 2
            invariant
                -2 <= dx <= 3,
                home == place(c),
                forall|n: (int, int)|
                    n.0 - c.0 < dx && #[trigger] self@.cell(n) is Occupied ==> !inflated(home, n),
            decreases 3 - dx,
        {
            let mut dy: i64 = -2;
            proof {
                assert forall|n: (int, int)|
                    n.0 - c.0 == dx && n.1 - c.1 < dy && #[trigger] self@.cell(
                        n,
                    ) is Occupied implies !inflated(home, n) by {
                    lemma_inflated(home, n);
                }
            }
            while dy <= 2
                invariant
                    -2 <= dx <= 2,
                    -2 <= dy <= 3,
                    home == place(c),
                    forall|n: (int, int)|
                        n.0 - c.0 < dx && #[trigger] self@.cell(n) is Occupied ==> !inflated(
                            home,
                            n,
                        ),
                    forall|n: (int, int)|
                        n.0 - c.0 == dx && n.1 - c.1 < dy && #[trigger] self@.cell(n) is Occupied
                            ==> !inflated(home, n),
                decreases 3 - dy,
            {
                let ghost n = (c.0 + dx, c.1 + dy);
                proof {
                    lemma_inflated(home, n);
                    assert(-8 <= dx * dx <= 8 && -8 <= dy * dy <= 8) by (nonlinear_arith)
                        requires
                            -2 <= dx <= 2,
                            -2 <= dy <= 2,
                    ;
                }
                if dx * dx + dy * dy <= 4 && self.cell_off(c, dx, dy) == Cell::Occupied {
                    assert(self@.cell(n) is Occupied && inflated(home, n));
                    return false;
                }
                dy += 1;
                proof {
                    assert forall|n: (int, int)|
                        n.0 - c.0 == dx && n.1 - c.1 < dy && #[trigger] self@.cell(
                            n,
                        ) is Occupied implies !inflated(home, n) by {
                        lemma_inflated(home, n);
                        if n.1 - c.1 == dy - 1 {
                            assert(n == (c.0 + dx, c.1 + (dy - 1)));
                        }
                    }
                }
            }
            dx += 1;
            proof {
                assert forall|n: (int, int)|
                    n.0 - c.0 < dx && #[trigger] self@.cell(n) is Occupied implies !inflated(
                    home,
                    n,
                ) by {
                    lemma_inflated(home, n);
                }
            }
        }
        proof {
            assert forall|n: (int, int)| #[trigger] self@.cell(n) is Occupied implies !inflated(
                home,
                n,
            ) by {
                lemma_inflated(home, n);
            }
        }
        true
    }

    /// A free cell with an unknown neighbour: the edge of what is known.
    pub fn is_frontier(&self, c: (i32, i32)) -> (r: bool)
        ensures
            r == self@.is_frontier(place(c)),
    {
        let ghost home = place(c);
        let east = self.cell_off(c, 1, 0);
        let west = self.cell_off(c, -1, 0);
        let north = self.cell_off(c, 0, 1);
        let south = self.cell_off(c, 0, -1);
        assert(self@.cell(beside(home, 0)) == east);
        assert(self@.cell(beside(home, 1)) == west);
        assert(self@.cell(beside(home, 2)) == north);
        assert(self@.cell(beside(home, 3)) == south);
        self.cell(c) == Cell::Free && (east == Cell::Unknown || west == Cell::Unknown || north
            == Cell::Unknown || south == Cell::Unknown)
    }
}

/// The middle of a cell.
pub open spec fn centre(c: (int, int)) -> (int, int) {
    (c.0 * RES + RES / 2, c.1 * RES + RES / 2)
}

/// The points a walk passes after its start: the middles of its cells, one per step.
pub open spec fn route(start: (int, int), word: Seq<int>) -> Seq<(int, int)> {
    Seq::new(word.len(), |k: int| centre(end_of(start, word.take(k + 1))))
}

fn centre_of(c: (i32, i32)) -> (p: (i64, i64))
    ensures
        (p.0 as int, p.1 as int) == centre(place(c)),
{
    (c.0 as i64 * RES + RES / 2, c.1 as i64 * RES + RES / 2)
}

/// The cells found so far, each with the cell it was found from and the walk that found it,
/// in the order of the walks.
spec fn is_tree(
    room: Room,
    start: (int, int),
    nodes: Seq<(i32, i32)>,
    parents: Seq<usize>,
    words: Seq<Seq<int>>,
    seen: Map<(int, int), usize>,
) -> bool {
    &&& nodes.len() == parents.len() == words.len()
    &&& nodes.len() > 0
    &&& words[0].len() == 0
    &&& forall|i: int|
        0 <= i < nodes.len() ==> {
            &&& room.walks(start, #[trigger] words[i])
            &&& end_of(start, words[i]) == place(nodes[i])
        }
    &&& forall|i: int|
        1 <= i < nodes.len() ==> {
            &&& (#[trigger] parents[i]) < i
            &&& words[i].len() > 0
            &&& words[i].drop_last() == words[parents[i] as int]
        }
    &&& forall|i: int, j: int|
        0 <= i < j < nodes.len() ==> before(#[trigger] words[i], #[trigger] words[j])
    &&& forall|i: int|
        0 <= i < nodes.len() ==> {
            &&& seen.contains_key(place(#[trigger] nodes[i]))
            &&& seen[place(nodes[i])] == i
        }
    &&& forall|c: (int, int)| #[trigger]
        seen.contains_key(c) ==> seen[c] < nodes.len() && place(nodes[seen[c] as int]) == c
}

/// From node `j` in direction `d` there is nothing new: no step, or a step to a cell that a
/// walk no later than this one has found.
spec fn is_explored(
    room: Room,
    start: (int, int),
    nodes: Seq<(i32, i32)>,
    words: Seq<Seq<int>>,
    j: int,
    d: int,
) -> bool {
    let n = beside(place(nodes[j]), d);
    room.may_step(start, place(nodes[j]), n) ==> exists|m: int|
        0 <= m < nodes.len() && place(#[trigger] nodes[m]) == n && !before(
            words[j].push(d),
            words[m],
        )
}

proof fn lemma_before_total(a: Seq<int>, b: Seq<int>)
    ensures
        before(a, b) || a == b || before(b, a),
{
    if a.len() == b.len() {
        lemma_earlier_total(a, b);
    }
}

/// Every walk before node `head`'s ends in a node before `head` that a walk no later found.
proof fn lemma_found(
    room: Room,
    start: (int, int),
    nodes: Seq<(i32, i32)>,
    parents: Seq<usize>,
    words: Seq<Seq<int>>,
    seen: Map<(int, int), usize>,
    head: int,
    word: Seq<int>,
) -> (m: int)
    requires
        is_tree(room, start, nodes, parents, words, seen),
        0 <= head <= nodes.len(),
        forall|j: int, d: int|
            0 <= j < head && 0 <= d < 4 ==> #[trigger] is_explored(room, start, nodes, words, j, d),
        room.walks(start, word),
        head < nodes.len() ==> before(word, words[head]),
        head > 0,
    ensures
        0 <= m < head,
        place(nodes[m]) == end_of(start, word),
        !before(word, words[m]),
    decreases word.len(),
{
    if word.len() == 0 {
        assert(room.walks(start, words[0]));
        0
    } else {
        let u = word.drop_last();
        let d = word.last();
        assert(before(u, word));
        if head < nodes.len() {
            lemma_before_transitive(u, word, words[head]);
        }
        let j = lemma_found(room, start, nodes, parents, words, seen, head, u);
        assert(is_explored(room, start, nodes, words, j, d));
        assert(end_of(start, word) == beside(place(nodes[j]), d));
        let m = choose|m: int|
            0 <= m < nodes.len() && place(#[trigger] nodes[m]) == beside(place(nodes[j]), d)
                && !before(words[j].push(d), words[m]);
        assert(u.push(d) =~= word);
        lemma_before_total(u, words[j]);
        if words[j] != u {
            lemma_before_pushed(words[j], d, u, d);
        }
        if before(word, words[m]) {
            if words[j] != u {
                lemma_before_transitive(words[j].push(d), word, words[m]);
            }
            assert(false);
        }
        if head < nodes.len() && m >= head {
            if m > head {
                lemma_before_transitive(word, words[head], words[m]);
            }
        }
        m
    }
}

impl RoomMap {
    /// The walk that found node `goal`, as points.
    fn walk_to(
        &self,
        nodes: &Vec<(i32, i32)>,
        parents: &Vec<usize>,
        goal: usize,
        Ghost(start): Ghost<(int, int)>,
        Ghost(words): Ghost<Seq<Seq<int>>>,
        Ghost(seen): Ghost<Map<(int, int), usize>>,
    ) -> (path: Vec<(i64, i64)>)
        requires
            is_tree(self@, start, nodes@, parents@, words, seen),
            goal < nodes.len(),
        ensures
            points(path@) == route(start, words[goal as int]),
    {
        let mut back: Vec<(i64, i64)> = Vec::new();
        let mut at: usize = goal;
        let ghost word = words[goal as int];
        proof {
            assert(word.take(word.len() as int) =~= word);
        }
        while at != 0
            invariant
                is_tree(self@, start, nodes@, parents@, words, seen),
                at < nodes.len(),
                word == words[goal as int],
                words[at as int].len() + back.len() == word.len(),
                words[at as int] == word.take(words[at as int].len() as int),
                forall|k: int|
                    #![trigger back@[k]]
                    0 <= k < back.len() ==> (back@[k].0 as int, back@[k].1 as int) == centre(
                        end_of(start, word.take(word.len() - k)),
                    ),
            decreases at,
        {
            let ghost w = words[at as int];
            assert(end_of(start, w) == place(nodes@[at as int]));
            back.push(centre_of(nodes[at]));
            at = parents[at];
            proof {
                assert(w.drop_last() =~= word.take(w.len() - 1));
            }
        }
        let n: usize = back.len();
        let mut path: Vec<(i64, i64)> = Vec::new();
        let mut k: usize = 0;
        while k < n
            invariant
                n == back.len() == word.len(),
                k <= n,
                path.len() == k,
                forall|j: int|
                    #![trigger back@[j]]
                    0 <= j < n ==> (back@[j].0 as int, back@[j].1 as int) == centre(
                        end_of(start, word.take(word.len() - j)),
                    ),
                forall|j: int| #![trigger path@[j]] 0 <= j < k ==> path@[j] == back@[n - 1 - j],
            decreases n - k,
        {
            path.push(back[n - 1 - k]);
            k += 1;
        }
        proof {
            assert forall|j: int| 0 <= j < n implies #[trigger] points(path@)[j] == route(
                start,
                word,
            )[j] by {
                assert(path@[j] == back@[n - 1 - j]);
            }
            assert(points(path@) =~= route(start, word));
        }
        path
    }
}

/// A new node keeps the tree a tree.
proof fn lemma_grown(
    room: Room,
    start: (int, int),
    nodes: Seq<(i32, i32)>,
    parents: Seq<usize>,
    words: Seq<Seq<int>>,
    seen: Map<(int, int), usize>,
    head: usize,
    d: int,
    n: (i32, i32),
)
    requires
        is_tree(room, start, nodes, parents, words, seen),
        head < nodes.len(),
        nodes.len() <= usize::MAX,
        0 <= d < 4,
        place(n) == beside(place(nodes[head as int]), d),
        room.may_step(start, place(nodes[head as int]), place(n)),
        !seen.contains_key(place(n)),
        forall|m: int| 0 <= m < words.len() ==> before(#[trigger] words[m], words[head as int].push(d)),
    ensures
        is_tree(
            room,
            start,
            nodes.push(n),
            parents.push(head),
            words.push(words[head as int].push(d)),
            seen.insert(place(n), nodes.len() as usize),
        ),
{
    let word = words[head as int].push(d);
    assert(word.drop_last() =~= words[head as int]);
    assert(room.walks(start, words[head as int]));
    lemma_pushed(start, words[head as int], d);
    assert(room.walks(start, word));
    let (nodes2, parents2, words2, seen2) = (
        nodes.push(n),
        parents.push(head),
        words.push(word),
        seen.insert(place(n), nodes.len() as usize),
    );
    assert forall|i: int| 0 <= i < nodes2.len() implies {
        &&& room.walks(start, #[trigger] words2[i])
        &&& end_of(start, words2[i]) == place(nodes2[i])
    } by {
        if i < nodes.len() {
            assert(words2[i] == words[i]);
            assert(room.walks(start, words[i]));
        }
    }
    assert forall|i: int| 1 <= i < nodes2.len() implies {
        &&& (#[trigger] parents2[i]) < i
        &&& words2[i].len() > 0
        &&& words2[i].drop_last() == words2[parents2[i] as int]
    } by {
        if i < nodes.len() {
            assert(parents2[i] == parents[i]);
            assert(parents[i] < i);
        }
    }
    assert forall|i: int, j: int| 0 <= i < j < nodes2.len() implies before(
        #[trigger] words2[i],
        #[trigger] words2[j],
    ) by {
        assert(words2[i] == words[i]);
        if j < nodes.len() {
            assert(before(words[i], words[j]));
        } else {
            assert(before(words[i], word));
        }
    }
    assert forall|i: int| 0 <= i < nodes2.len() implies {
        &&& seen2.contains_key(place(#[trigger] nodes2[i]))
        &&& seen2[place(nodes2[i])] == i
    } by {
        if i < nodes.len() {
            assert(seen.contains_key(place(nodes[i])));
        }
    }
    assert forall|c: (int, int)| #[trigger] seen2.contains_key(c) implies seen2[c] < nodes2.len()
        && place(nodes2[seen2[c] as int]) == c by {
        if c != place(n) {
            assert(seen.contains_key(c));
        }
    }
}

/// A direction explored stays explored when a node is added.
proof fn lemma_still_explored(
    room: Room,
    start: (int, int),
    nodes: Seq<(i32, i32)>,
    words: Seq<Seq<int>>,
    j: int,
    d: int,
    n: (i32, i32),
    word: Seq<int>,
)
    requires
        is_explored(room, start, nodes, words, j, d),
        0 <= j < nodes.len(),
        nodes.len() == words.len(),
    ensures
        is_explored(room, start, nodes.push(n), words.push(word), j, d),
{
    let to = beside(place(nodes[j]), d);
    if room.may_step(start, place(nodes[j]), to) {
        let m = choose|m: int|
            0 <= m < nodes.len() && place(#[trigger] nodes[m]) == to && !before(
                words[j].push(d),
                words[m],
            );
        assert(nodes.push(n)[m] == nodes[m]);
    }
}

impl RoomMap {
    fn step_ok(&self, start: (i32, i32), c: (i32, i32), n: (i32, i32)) -> (r: bool)
        ensures
            r == self@.may_step(place(start), place(c), place(n)),
    {
        // The start cell itself may be inflated (the duck stands next to a wall);
        // walk out of it through free cells regardless.
        if c.0 == start.0 && c.1 == start.1 {
            self.cell(n) == Cell::Free
        } else {
            self.walkable(n)
        }
    }

    fn at_goal(&self, start: (i32, i32), min_cells: i128, c: (i32, i32)) -> (r: bool)
        requires
            -0x20_0000_0000 <= min_cells <= 0x20_0000_0000,
        ensures
            r == self@.is_goal(place(start), min_cells as int, place(c)),
    {
        let dx: i128 = c.0 as i128 - start.0 as i128;
        let dy: i128 = c.1 as i128 - start.1 as i128;
        proof {
            lemma_small_square(dx as int);
            lemma_small_square(dy as int);
            lemma_small_square(min_cells as int);
        }
        let far_enough: bool = dx * dx + dy * dy >= min_cells * min_cells;
        !(c.0 == start.0 && c.1 == start.1) && far_enough && self.is_frontier(c)
    }

    /// Breadth-first over walkable cells from `from` to the nearest frontier at least
    /// `min_m` away; the path there, from the cell after `from` to the frontier.
    pub fn path_to_frontier(&self, from: (i64, i64), min_m: i64) -> (path: Option<Vec<(i64, i64)>>)
        ensures
            match path {
                Some(path) => self@.frontier_path(from, min_m) == Some(points(path@)),
                None => self@.frontier_path(from, min_m) is None,
            },
            match path {
                Some(path) => exists|word: Seq<int>| #[trigger]
                    self@.is_best(
                        cell_of(from.0 as int, from.1 as int),
                        rounded(min_m as int, RES as int),
                        word,
                    ) && points(path@) == route(cell_of(from.0 as int, from.1 as int), word),
                None => forall|word: Seq<int>| !#[trigger]
                    self@.reaches(
                        cell_of(from.0 as int, from.1 as int),
                        rounded(min_m as int, RES as int),
                        word,
                    ),
            },
    {
        let start = key(from.0 as i128, from.1 as i128);
        let min_cells: i128 = round_div(min_m as i128, RES as i128);
        let ghost room = self@;
        let ghost home = place(start);
        let ghost min = min_cells as int;
        let mut nodes: Vec<(i32, i32)> = Vec::new();
        let mut parents: Vec<usize> = Vec::new();
        let mut seen: Sparse<usize> = Sparse::new();
        let ghost mut words: Seq<Seq<int>> = seq![Seq::empty()];
        let known: usize = self.cells.len();
        nodes.push(start);
        parents.push(0);
        seen.put(start, 0);
        let mut head: usize = 0;
        proof {
            assert(seen@.dom() =~= Set::empty().insert(home));
            assert(is_tree(room, home, nodes@, parents@, words, seen@));
        }
        while head < nodes.len()
            invariant
                room == self@,
                home == place(start),
                min == min_cells,
                -0x20_0000_0000 <= min_cells <= 0x20_0000_0000,
                home == cell_of(from.0 as int, from.1 as int),
                min == rounded(min_m as int, RES as int),
                known == room.odds.dom().len(),
                room.odds.dom().finite(),
                is_tree(room, home, nodes@, parents@, words, seen@),
                seen@.dom().finite(),
                seen@.dom().len() == nodes.len(),
                seen@.dom().subset_of(room.odds.dom().insert(home)),
                nodes.len() <= known + 1,
                head <= nodes.len(),
                forall|j: int, d: int|
                    0 <= j < head && 0 <= d < 4 ==> #[trigger] is_explored(
                        room,
                        home,
                        nodes@,
                        words,
                        j,
                        d,
                    ),
                forall|j: int|
                    0 <= j < head ==> !room.is_goal(home, min, place(#[trigger] nodes@[j])),
                head == 0 ==> nodes.len() == 1,
                head > 0 ==> forall|m: int|
                    0 <= m < words.len() ==> before(#[trigger] words[m], words[head - 1].push(4)),
            decreases known + 1 - head,
        {
            let c = nodes[head];
            if self.at_goal(start, min_cells, c) {
                let ghost word = words[head as int];
                proof {
                    assert(room.walks(home, words[head as int]));
                    assert forall|other: Seq<int>| #[trigger]
                        room.reaches(home, min, other) implies !before(other, word) by {
                        if before(other, word) {
                            let m = lemma_found(
                                room,
                                home,
                                nodes@,
                                parents@,
                                words,
                                seen@,
                                head as int,
                                other,
                            );
                            assert(!room.is_goal(home, min, place(nodes@[m])));
                        }
                    }
                    assert(room.is_best(home, min, word));
                    law_best_walk_is_unique(
                        room,
                        home,
                        min,
                        word,
                        choose|w: Seq<int>| #[trigger] room.is_best(home, min, w),
                    );
                }
                return Some(
                    self.walk_to(&nodes, &parents, head, Ghost(home), Ghost(words), Ghost(seen@)),
                );
            }
            proof {
                let next = words[head as int].push(0);
                assert forall|m: int| 0 <= m < words.len() implies before(
                    #[trigger] words[m],
                    next,
                ) by {
                    if head > 0 {
                        assert(before(words[head - 1], words[head as int]));
                        lemma_before_pushed(words[head - 1], 4, words[head as int], 0);
                        lemma_before_transitive(words[m], words[head - 1].push(4), next);
                    }
                }
            }
            let mut d: usize = 0;
            while d < 4
                invariant
                    room == self@,
                    home == place(start),
                    known == room.odds.dom().len(),
                    room.odds.dom().finite(),
                    is_tree(room, home, nodes@, parents@, words, seen@),
                    seen@.dom().finite(),
                    seen@.dom().len() == nodes.len(),
                    seen@.dom().subset_of(room.odds.dom().insert(home)),
                    nodes.len() <= known + 1,
                    head < nodes.len(),
                    nodes@[head as int] == c,
                    d <= 4,
                    forall|j: int, d: int|
                        0 <= j < head && 0 <= d < 4 ==> #[trigger] is_explored(
                            room,
                            home,
                            nodes@,
                            words,
                            j,
                            d,
                        ),
                    forall|e: int|
                        0 <= e < d ==> #[trigger] is_explored(
                            room,
                            home,
                            nodes@,
                            words,
                            head as int,
                            e,
                        ),
                    forall|j: int|
                        0 <= j <= head ==> !room.is_goal(home, min, place(#[trigger] nodes@[j])),
                    forall|m: int|
                        0 <= m < words.len() ==> before(
                            #[trigger] words[m],
                            words[head as int].push(d as int),
                        ),
                decreases 4 - d,
            {
                let (dx, dy): (i64, i64) = if d == 0 {
                    (1, 0)
                } else if d == 1 {
                    (-1, 0)
                } else if d == 2 {
                    (0, 1)
                } else {
                    (0, -1)
                };
                let ghost to = beside(place(c), d as int);
                let ghost word = words[head as int].push(d as int);
                let ghost (nodes0, words0, dom0) = (nodes@, words, seen@.dom());
                assert(to == (c.0 + dx, c.1 + dy));
                match offset(c, dx, dy) {
                    Some(n) => {
                        if self.step_ok(start, c, n) {
                            match seen.get(n) {
                                Some(m) => {
                                    proof {
                                        assert(place(nodes@[m as int]) == to);
                                        assert(before(words[m as int], word));
                                        if before(word, words[m as int]) {
                                            lemma_before_transitive(word, words[m as int], word);
                                            lemma_earlier_irreflexive(word);
                                        }
                                        assert(is_explored(
                                            room,
                                            home,
                                            nodes@,
                                            words,
                                            head as int,
                                            d as int,
                                        ));
                                    }
                                },
                                None => {
                                    proof {
                                        let all = room.odds.dom().insert(home);
                                        vstd::set_lib::lemma_len_subset(
                                            seen@.dom().insert(to),
                                            all,
                                        );
                                        lemma_grown(
                                            room,
                                            home,
                                            nodes@,
                                            parents@,
                                            words,
                                            seen@,
                                            head,
                                            d as int,
                                            n,
                                        );
                                    }
                                    let id: usize = nodes.len();
                                    seen.put(n, id);
                                    nodes.push(n);
                                    parents.push(head);
                                    proof {
                                        words = words.push(word);
                                        assert(seen@.dom() =~= dom0.insert(to));
                                        lemma_earlier_irreflexive(word);
                                        assert(nodes@[id as int] == n);
                                        assert(is_explored(
                                            room,
                                            home,
                                            nodes@,
                                            words,
                                            head as int,
                                            d as int,
                                        ));
                                        assert forall|j: int, e: int|
                                            0 <= j < head && 0 <= e < 4 implies #[trigger] is_explored(
                                            room,
                                            home,
                                            nodes@,
                                            words,
                                            j,
                                            e,
                                        ) by {
                                            assert(is_explored(room, home, nodes0, words0, j, e));
                                            lemma_still_explored(
                                                room,
                                                home,
                                                nodes0,
                                                words0,
                                                j,
                                                e,
                                                n,
                                                word,
                                            );
                                        }
                                        assert forall|e: int| 0 <= e < d implies #[trigger] is_explored(
                                            room,
                                            home,
                                            nodes@,
                                            words,
                                            head as int,
                                            e,
                                        ) by {
                                            assert(is_explored(
                                                room,
                                                home,
                                                nodes0,
                                                words0,
                                                head as int,
                                                e,
                                            ));
                                            lemma_still_explored(
                                                room,
                                                home,
                                                nodes0,
                                                words0,
                                                head as int,
                                                e,
                                                n,
                                                word,
                                            );
                                        }
                                    }
                                },
                            }
                        } else {
                            assert(is_explored(
                                room,
                                home,
                                nodes@,
                                words,
                                head as int,
                                d as int,
                            ));
                        }
                    },
                    None => {
                        proof {
                            self.cells.lemma_keys_are_cells();
                            assert(!room.may_step(home, place(c), to));
                            assert(is_explored(room, home, nodes@, words, head as int, d as int));
                        }
                    },
                }
                proof {
                    let next = words[head as int].push(d + 1);
                    lemma_before_pushed(words[head as int], d as int, words[head as int], d + 1);
                    assert forall|m: int| 0 <= m < words.len() implies before(
                        #[trigger] words[m],
                        next,
                    ) by {
                        if words[m] != word {
                            assert(before(words0[m], word));
                            lemma_before_transitive(words[m], word, next);
                        }
                    }
                }
                d += 1;
            }
            head += 1;
        }
        proof {
            assert forall|word: Seq<int>| !#[trigger] room.reaches(home, min, word) by {
                if room.reaches(home, min, word) {
                    let m = lemma_found(
                        room,
                        home,
                        nodes@,
                        parents@,
                        words,
                        seen@,
                        head as int,
                        word,
                    );
                    assert(!room.is_goal(home, min, place(nodes@[m])));
                }
            }
        }
        None
    }
}

proof fn lemma_small_square(d: int)
    requires
        -0x20_0000_0000 <= d <= 0x20_0000_0000,
    ensures
        0 <= d * d <= 0x400_0000_0000_0000_0000,
{
    assert(0 <= d * d <= 0x400_0000_0000_0000_0000) by (nonlinear_arith)
        requires
            -0x20_0000_0000 <= d <= 0x20_0000_0000,
    ;
}

/// There is one best walk.
pub proof fn law_best_walk_is_unique(
    room: Room,
    start: (int, int),
    min: int,
    a: Seq<int>,
    b: Seq<int>,
)
    requires
        room.is_best(start, min, a),
        room.is_best(start, min, b),
    ensures
        a == b,
{
    lemma_before_total(a, b);
}

/// No frontier far enough out is nearer, in steps, than the one the path leads to.
pub proof fn law_best_walk_is_shortest(
    room: Room,
    start: (int, int),
    min: int,
    word: Seq<int>,
    other: Seq<int>,
)
    requires
        room.is_best(start, min, word),
        room.reaches(start, min, other),
    ensures
        word.len() <= other.len(),
        word.len() > 0,
{
}

/// The path keeps to the floor: every cell it enters is free, every one it enters after
/// leaving the start is also clear of anything occupied, each lies next to the one before,
/// and the last is a frontier.
pub proof fn law_path_keeps_to_the_floor(
    room: Room,
    start: (int, int),
    min: int,
    word: Seq<int>,
    k: int,
)
    requires
        room.reaches(start, min, word),
        0 <= k < word.len(),
    ensures
        ({
            let from = end_of(start, word.take(k));
            let to = end_of(start, word.take(k + 1));
            &&& room.cell(to) is Free
            &&& from != start ==> room.walkable(to)
            &&& 0 <= word[k] < 4
            &&& to == beside(from, word[k])
        }),
        room.is_frontier(end_of(start, word)),
{
    lemma_prefix_walks(room, start, word, k + 1);
    let w = word.take(k + 1);
    assert(w.drop_last() =~= word.take(k));
}

proof fn lemma_prefix_walks(room: Room, start: (int, int), word: Seq<int>, k: int)
    requires
        room.walks(start, word),
        0 <= k <= word.len(),
    ensures
        room.walks(start, word.take(k)),
    decreases word.len(),
{
    if k == word.len() {
        assert(word.take(k) =~= word);
    } else {
        lemma_prefix_walks(room, start, word.drop_last(), k);
        assert(word.drop_last().take(k) =~= word.take(k));
    }
}

} // verus!

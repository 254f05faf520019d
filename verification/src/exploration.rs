//! What holds of the maze explorer as a whole: its turns and glances fit together, it never
//! plans to walk through a wall, and in a maze that stays put and is seen as it is, it never
//! loops and misses no exit.

use vstd::prelude::*;

use crate::maze::{
    beyond, blank, finished, first, is_walk, lemma_closed_is_explored, preference, steps,
    turned, visited, Dir, Maze, Plan, Side,
};

verus! {

/// Four left turns, a left and a right, and two turns back each change nothing.
pub proof fn law_turns_close(d: Dir)
    ensures
        turned(turned(turned(turned(d, 1), 1), 1), 1) == d,
        turned(turned(d, 1), 3) == d,
        turned(turned(d, 3), 1) == d,
        turned(turned(d, 2), 2) == d,
{
}

/// A step and a step back lead home, and only one direction leads from a cell to another.
pub proof fn law_step_back_leads_home(c: (int, int), d: Dir, e: Dir)
    ensures
        beyond(beyond(c, d), turned(d, 2)) == c,
        beyond(c, d) == beyond(c, e) ==> d == e,
{
}

/// What a glance shows is recorded for both cells that share the side, and nothing else
/// changes: not where the duck is, nor any other side, nor any visit count.
pub proof fn law_glance_is_shared(m: Maze, d: Dir, side: Side, c: (int, int), e: Dir)
    ensures
        m.observed(d, side).edge(m.at, d) == side,
        m.observed(d, side).edge(beyond(m.at, d), turned(d, 2)) == side,
        m.observed(d, side).at == m.at,
        m.observed(d, side).cell(c).visits == m.cell(c).visits,
        (c, e) != (m.at, d) && (c, e) != (beyond(m.at, d), turned(d, 2)) ==> m.observed(
            d,
            side,
        ).cell(c).looks(e) == m.cell(c).looks(e),
{
}

/// An edge is the same from either cell, whatever was seen, walked or forgotten.
pub proof fn law_edge_is_shared(m: Maze, c: (int, int), d: Dir)
    ensures
        m.edge(c, d) == m.edge(beyond(c, d), turned(d, 2)),
{
    law_step_back_leads_home(c, d, d);
    law_turns_close(d);
}

/// A passage just walked is one from both ends, whatever was thought of it.
pub proof fn law_walked_passage_wins(m: Maze, d: Dir)
    requires
        m.cell(beyond(m.at, d)).visits < u32::MAX,
    ensures
        ({
            let next = m.moved(d, beyond(m.at, d));
            &&& !(m.here(d) is Outside) ==> next.edge(m.at, d) is Open
            &&& m.here(d) is Outside ==> next.edge(m.at, d) is Outside
            &&& next.edge(next.at, turned(d, 2)) == next.edge(m.at, d)
        }),
{
    law_step_back_leads_home(m.at, d, d);
    law_turns_close(d);
    lemma_move_changes(m, d, m.at, d);
    lemma_move_changes(m, d, beyond(m.at, d), turned(d, 2));
}

/// A move leaves the way it came by open, whatever was thought of it, counts one more visit
/// of the cell it landed in, and one more move.
pub proof fn law_move_opens_the_way_it_came(m: Maze, d: Dir, arrived: (int, int))
    requires
        m.cell(arrived).visits < u32::MAX,
    ensures
        m.moved(d, arrived).here(turned(d, 2)) is Open,
        m.moved(d, arrived).cell(arrived).visits == m.cell(arrived).visits + 1,
        m.moved(d, arrived).at == arrived,
        m.moved(d, arrived).moves == m.moves + 1,
        m.moved(d, arrived).path.last() == arrived,
{
}

/// A move to the end of the trail takes it off the trail; the move that put it there is undone.
pub proof fn law_backtrack_undoes_the_trail(m: Maze, d: Dir, e: Dir, arrived: (int, int))
    requires
        m.trail.len() == 0 || m.trail.last() != arrived,
        m.at != arrived,
    ensures
        m.moved(d, arrived).moved(e, m.at).trail == m.trail,
        m.moved(d, arrived).moved(e, m.at).at == m.at,
{
    assert(m.trail.push(m.at).drop_last() =~= m.trail);
}

proof fn lemma_first_is_wanted(order: Seq<Dir>, wanted: spec_fn(Dir) -> bool)
    ensures
        first(order, wanted) matches Some(d) ==> wanted(d) && order.contains(d),
        first(order, wanted) is None ==> forall|i: int|
            0 <= i < order.len() ==> !wanted(#[trigger] order[i]),
    decreases order.len(),
{
    if order.len() > 0 && !wanted(order[0]) {
        let rest = order.skip(1);
        lemma_first_is_wanted(rest, wanted);
        assert forall|i: int| 0 < i < order.len() implies order[i] == rest[i - 1] by {}
        if let Some(d) = first(rest, wanted) {
            let i = choose|i: int| 0 <= i < rest.len() && rest[i] == d;
            assert(order[i + 1] == d);
        } else {
            assert forall|i: int| 0 <= i < order.len() implies !wanted(#[trigger] order[i]) by {
                if i > 0 {
                    assert(!wanted(rest[i - 1]));
                }
            }
        }
    } else if order.len() > 0 {
        assert(order[0] == order[0]);
    }
}

/// What the planner's searches found, direction by direction.
proof fn lemma_plan_cases(m: Maze)
    ensures
        m.planned() matches Plan::Exit(d) ==> m.here(d) is Outside,
        m.planned() matches Plan::Look(d) ==> m.here(d) is Unknown,
        !(m.planned() is Exit) ==> forall|d: Dir| !(#[trigger] m.here(d) is Outside),
        m.planned() matches Plan::Go(d) ==> m.fresh(d) || m.way_back() == Some(d) && m.here(d)
            != Side::Wall || m.here(d) is Open,
        m.planned() is Stuck ==> {
            ||| m.trail.len() == 0 && m.explored()
            ||| forall|d: Dir| #[trigger] m.here(d) is Wall
        },
        (m.planned() matches Plan::Look(d) && d == turned(m.facing, 2)) || (
        m.planned() matches Plan::Go(d) && !m.fresh(d)) || m.planned() is Stuck ==> {
            &&& forall|e: Dir| !#[trigger] m.fresh(e)
            &&& forall|e: Dir| e != turned(m.facing, 2) ==> !(#[trigger] m.here(e) is Unknown)
        },
        m.way_back() matches Some(d) ==> m.trail.len() > 0 && beyond(m.at, d) == m.trail.last(),
        (m.planned() matches Plan::Go(d) && !m.fresh(d) && m.way_back() != Some(d))
            || m.planned() is Stuck ==> m.way_back() is None || m.here(m.way_back()->0) is Wall,
        m.planned() matches Plan::Go(d) && !m.fresh(d) ==> m.trail.len() > 0 || !m.explored(),
{
    let order = preference(m.facing);
    let ahead = order.take(3);
    assert(order[0] == turned(m.facing, 1) && order[1] == m.facing && order[2] == turned(m.facing, 3)
        && order[3] == turned(m.facing, 2));
    assert(ahead[0] == order[0] && ahead[1] == order[1] && ahead[2] == order[2]);
    lemma_first_is_wanted(order, |d: Dir| m.here(d) == Side::Outside);
    lemma_first_is_wanted(ahead, |d: Dir| m.fresh(d));
    lemma_first_is_wanted(ahead, |d: Dir| m.here(d) == Side::Unknown);
    lemma_first_is_wanted(order, |d: Dir| m.least_visited(d));
    lemma_first_is_wanted(
        seq![Dir::East, Dir::North, Dir::West, Dir::South],
        |d: Dir| beyond(m.at, d) == m.trail.last(),
    );
    assert forall|d: Dir| true implies #[trigger] order.contains(d) by {
        assert(order[0] == d || order[1] == d || order[2] == d || order[3] == d);
    }
    assert forall|d: Dir| d != turned(m.facing, 2) implies #[trigger] ahead.contains(d) by {
        assert(ahead[0] == d || ahead[1] == d || ahead[2] == d);
    }
    if !(m.planned() is Exit) {
        assert forall|d: Dir| !(#[trigger] m.here(d) is Outside) by {
            assert(order.contains(d));
        }
    }
    if m.first_fresh(ahead) is None && m.first_side(ahead, Side::Unknown) is None {
        assert forall|e: Dir| e != turned(m.facing, 2) implies !#[trigger] m.fresh(e) by {
            assert(ahead.contains(e));
        }
        assert forall|e: Dir| e != turned(m.facing, 2) implies !(#[trigger] m.here(e) is Unknown) by {
            assert(ahead.contains(e));
        }
    }
    if m.planned() is Stuck && !(m.trail.len() == 0 && m.explored()) {
        assert forall|d: Dir| #[trigger] m.here(d) is Wall by {
            if m.here(d) is Open {
                lemma_some_least(m);
                let e = choose|e: Dir| m.least_visited(e);
                assert(order.contains(e));
            }
            assert(!(m.here(turned(m.facing, 2)) is Unknown));
        }
    }
    if let Plan::Look(d) = m.planned() {
        if d == turned(m.facing, 2) && ahead.contains(d) {
            assert(false);
        }
    }
}

/// If a side is open, some open side leads to a least visited neighbour.
proof fn lemma_some_least(m: Maze)
    requires
        exists|d: Dir| #[trigger] m.here(d) is Open,
    ensures
        exists|d: Dir| m.least_visited(d),
{
    let v = |d: Dir| if m.here(d) is Open { m.visits_beyond(d) as int } else { 0x1_0000_0000 };
    let (e, n, w, s) = (v(Dir::East), v(Dir::North), v(Dir::West), v(Dir::South));
    let best = if e <= n && e <= w && e <= s {
        Dir::East
    } else if n <= w && n <= s {
        Dir::North
    } else if w <= s {
        Dir::West
    } else {
        Dir::South
    };
    let open = choose|d: Dir| #[trigger] m.here(d) is Open;
    assert(v(best) <= v(open));
    assert forall|o: Dir| #[trigger] m.here(o) is Open implies m.visits_beyond(best)
        <= m.visits_beyond(o) by {
        assert(v(best) <= v(o));
    }
    assert(m.least_visited(best));
}

/// The plan never contradicts the map: a look is at a side not looked at, an exit is seen,
/// a move is through an opening or back along the trail, never through a wall, and the
/// explorer gives up only within four walls, or where its trail began with everything that
/// can be reached explored.
pub proof fn law_plan_never_walks_into_a_wall(m: Maze)
    ensures
        m.planned() matches Plan::Look(d) ==> m.here(d) is Unknown,
        m.planned() matches Plan::Exit(d) ==> m.here(d) is Outside,
        m.planned() matches Plan::Go(d) ==> {
            &&& !(m.here(d) is Wall)
            &&& m.here(d) is Open || m.trail.len() > 0 && beyond(m.at, d) == m.trail.last()
        },
        m.planned() is Stuck ==> {
            ||| m.trail.len() == 0 && m.explored()
            ||| forall|d: Dir| #[trigger] m.here(d) is Wall
        },
        (exists|d: Dir| #[trigger] m.here(d) is Outside) ==> m.planned() is Exit,
{
    lemma_plan_cases(m);
}

/// A maze as it really is: what every side of every cell shows when looked at. Nothing is
/// unknown, and a side that does not lead outside looks the same from both cells.
pub open spec fn is_maze(truth: spec_fn((int, int), Dir) -> Side) -> bool {
    &&& forall|c: (int, int), d: Dir| !(#[trigger] truth(c, d) is Unknown)
    &&& forall|c: (int, int), d: Dir|
        #![trigger truth(c, d), truth(beyond(c, d), turned(d, 2))]
        !(truth(c, d) is Outside) ==> truth(beyond(c, d), turned(d, 2)) == truth(c, d)
}

/// `rooms` holds what can be walked to from any of its cells.
pub open spec fn encloses(rooms: Set<(int, int)>, truth: spec_fn((int, int), Dir) -> Side) -> bool {
    &&& rooms.finite()
    &&& forall|c: (int, int), d: Dir|
        rooms.contains(c) && #[trigger] truth(c, d) is Open ==> rooms.contains(beyond(c, d))
}

/// The trail with the current cell at its end.
pub open spec fn chain(m: Maze) -> Seq<(int, int)> {
    m.trail.push(m.at)
}

/// The explorer's state when all it knows it saw or walked: the map agrees with the maze, the
/// trail is a walk from `home` to where it stands, and every visited cell off that walk is
/// finished.
pub open spec fn exploring(
    m: Maze,
    truth: spec_fn((int, int), Dir) -> Side,
    home: (int, int),
) -> bool {
    &&& forall|c: (int, int), d: Dir|
        #[trigger] m.cell(c).looks(d) is Unknown || m.cell(c).looks(d) == truth(c, d)
    &&& chain(m)[0] == home
    &&& forall|i: int| 0 <= i < chain(m).len() ==> visited(m, #[trigger] chain(m)[i])
    &&& is_walk(truth, chain(m))
    &&& forall|c: (int, int)| #[trigger] visited(m, c) && !chain(m).contains(c) ==> finished(m, c)
    &&& !(m.here(turned(m.facing, 2)) is Unknown)
    &&& forall|c: (int, int)| #[trigger] m.cell(c).visits < u32::MAX
}

/// One step of the exploration: do what is planned, and see or land where the maze says.
pub open spec fn stepped(m: Maze, truth: spec_fn((int, int), Dir) -> Side) -> Maze {
    match m.planned() {
        Plan::Look(d) => m.observed(d, truth(m.at, d)),
        Plan::Go(d) => m.moved(d, beyond(m.at, d)),
        Plan::Exit(d) => m,
        Plan::Stuck => m,
    }
}

pub open spec fn unvisited(m: Maze, rooms: Set<(int, int)>) -> nat {
    rooms.filter(|c: (int, int)| !visited(m, c)).len()
}

pub open spec fn unlooked_at(m: Maze, rooms: Set<(int, int)>, d: Dir) -> nat {
    rooms.filter(|c: (int, int)| m.cell(c).looks(d) is Unknown).len()
}

/// How many sides of the rooms have not been looked at.
pub open spec fn unlooked(m: Maze, rooms: Set<(int, int)>) -> nat {
    unlooked_at(m, rooms, Dir::East) + unlooked_at(m, rooms, Dir::North) + unlooked_at(
        m,
        rooms,
        Dir::West,
    ) + unlooked_at(m, rooms, Dir::South)
}

/// `a` is closer to the end of the exploration than `b`: fewer cells to visit; or as many,
/// and fewer sides to look at; or as many of both, and less of the trail to walk back.
pub open spec fn closer(a: Maze, b: Maze, rooms: Set<(int, int)>) -> bool {
    ||| unvisited(a, rooms) < unvisited(b, rooms)
    ||| unvisited(a, rooms) == unvisited(b, rooms) && unlooked(a, rooms) < unlooked(b, rooms)
    ||| unvisited(a, rooms) == unvisited(b, rooms) && unlooked(a, rooms) == unlooked(b, rooms)
        && a.trail.len() < b.trail.len()
}

/// At the entrance the explorer is exploring, whatever lies ahead, if the other three sides
/// of the start really are walls.
pub proof fn law_exploration_starts(truth: spec_fn((int, int), Dir) -> Side)
    requires
        is_maze(truth),
        truth((0, 0), Dir::North) is Wall,
        truth((0, 0), Dir::West) is Wall,
        truth((0, 0), Dir::South) is Wall,
    ensures
        exploring(Maze::entrance(), truth, (0, 0)),
{
    let m = Maze::entrance();
    assert(chain(m) =~= seq![(0int, 0int)]);
    assert(chain(m)[0] == (0int, 0int));
    assert forall|c: (int, int), d: Dir|
        #[trigger] m.cell(c).looks(d) is Unknown || m.cell(c).looks(d) == truth(c, d) by {
        if c != (0int, 0int) {
            assert(m.cell(c) == blank());
        }
    }
}

proof fn lemma_looks_fewer(a: Maze, b: Maze, rooms: Set<(int, int)>, d: Dir)
    requires
        rooms.finite(),
        forall|c: (int, int)|
            #[trigger] a.cell(c).looks(d) is Unknown ==> b.cell(c).looks(d) is Unknown,
    ensures
        unlooked_at(a, rooms, d) <= unlooked_at(b, rooms, d),
        forall|c: (int, int)|
            rooms.contains(c) && #[trigger] b.cell(c).looks(d) is Unknown && !(a.cell(c).looks(
                d,
            ) is Unknown) ==> unlooked_at(a, rooms, d) < unlooked_at(b, rooms, d),
{
    let x = rooms.filter(|c: (int, int)| a.cell(c).looks(d) is Unknown);
    let y = rooms.filter(|c: (int, int)| b.cell(c).looks(d) is Unknown);
    assert(x.subset_of(y));
    vstd::set_lib::lemma_len_subset(x, y);
    assert forall|c: (int, int)|
        rooms.contains(c) && #[trigger] b.cell(c).looks(d) is Unknown && !(a.cell(c).looks(
            d,
        ) is Unknown) implies unlooked_at(a, rooms, d) < unlooked_at(b, rooms, d) by {
        assert(x.subset_of(y.remove(c)));
        vstd::set_lib::lemma_len_subset(x, y.remove(c));
    }
}

proof fn lemma_visits_fewer(a: Maze, b: Maze, rooms: Set<(int, int)>)
    requires
        rooms.finite(),
        forall|c: (int, int)| #[trigger] visited(b, c) ==> visited(a, c),
    ensures
        unvisited(a, rooms) <= unvisited(b, rooms),
        forall|c: (int, int)|
            rooms.contains(c) && #[trigger] visited(a, c) && !visited(b, c) ==> unvisited(a, rooms)
                < unvisited(b, rooms),
{
    let x = rooms.filter(|c: (int, int)| !visited(a, c));
    let y = rooms.filter(|c: (int, int)| !visited(b, c));
    assert(x.subset_of(y));
    vstd::set_lib::lemma_len_subset(x, y);
    assert forall|c: (int, int)|
        rooms.contains(c) && #[trigger] visited(a, c) && !visited(b, c) implies unvisited(a, rooms)
        < unvisited(b, rooms) by {
        assert(x.subset_of(y.remove(c)));
        vstd::set_lib::lemma_len_subset(x, y.remove(c));
    }
}

/// The cells of the trail lie in every closed region that holds home.
proof fn lemma_chain_enclosed(
    m: Maze,
    truth: spec_fn((int, int), Dir) -> Side,
    home: (int, int),
    rooms: Set<(int, int)>,
    i: int,
)
    requires
        exploring(m, truth, home),
        encloses(rooms, truth),
        rooms.contains(home),
        0 <= i < chain(m).len(),
    ensures
        rooms.contains(chain(m)[i]),
    decreases i,
{
    if i > 0 {
        lemma_chain_enclosed(m, truth, home, rooms, i - 1);
        assert(steps(truth, chain(m), i - 1));
    }
}

/// A look keeps the state and leaves one side fewer to look at.
proof fn lemma_look_steps(
    m: Maze,
    truth: spec_fn((int, int), Dir) -> Side,
    home: (int, int),
    rooms: Set<(int, int)>,
    d: Dir,
)
    requires
        is_maze(truth),
        encloses(rooms, truth),
        rooms.contains(home),
        exploring(m, truth, home),
        m.here(d) is Unknown,
    ensures
        exploring(m.observed(d, truth(m.at, d)), truth, home),
        closer(m.observed(d, truth(m.at, d)), m, rooms),
{
    let next = m.observed(d, truth(m.at, d));
    assert(truth(m.at, d) != Side::Unknown);
    assert(chain(next) == chain(m));
    assert forall|c: (int, int), e: Dir|
        #[trigger] next.cell(c).looks(e) is Unknown || next.cell(c).looks(e) == truth(c, e) by {
        law_glance_is_shared(m, d, truth(m.at, d), c, e);
        assert(m.cell(c).looks(e) is Unknown || m.cell(c).looks(e) == truth(c, e));
    }
    assert forall|c: (int, int)| true implies #[trigger] next.cell(c).visits == m.cell(c).visits by {
        law_glance_is_shared(m, d, truth(m.at, d), c, d);
    }
    assert forall|c: (int, int), e: Dir|
        !(m.cell(c).looks(e) is Unknown) implies #[trigger] next.cell(c).looks(e) == m.cell(
        c,
    ).looks(e) by {
        law_glance_is_shared(m, d, truth(m.at, d), c, e);
        assert(m.cell(c).looks(e) == truth(c, e));
    }
    assert forall|i: int| 0 <= i < chain(next).len() implies visited(next, #[trigger] chain(next)[i]) by {
        assert(visited(m, chain(m)[i]));
    }
    assert forall|c: (int, int)|
        #[trigger] visited(next, c) && !chain(next).contains(c) implies finished(next, c) by {
        assert(visited(m, c));
        assert(finished(m, c));
        assert forall|e: Dir|
            {
                &&& !(#[trigger] next.cell(c).looks(e) is Unknown)
                &&& !(next.cell(c).looks(e) is Outside)
                &&& next.cell(c).looks(e) is Open ==> visited(next, beyond(c, e))
            } by {
            assert(!(m.cell(c).looks(e) is Unknown));
            assert(m.cell(c).looks(e) is Open ==> visited(m, beyond(c, e)));
        }
    }
    let b = turned(m.facing, 2);
    assert(next.cell(m.at).looks(b) == m.cell(m.at).looks(b));
    lemma_visits_fewer(next, m, rooms);
    lemma_visits_fewer(m, next, rooms);
    lemma_looks_fewer(next, m, rooms, Dir::East);
    lemma_looks_fewer(next, m, rooms, Dir::North);
    lemma_looks_fewer(next, m, rooms, Dir::West);
    lemma_looks_fewer(next, m, rooms, Dir::South);
    lemma_chain_enclosed(m, truth, home, rooms, chain(m).len() - 1);
    assert(m.cell(m.at).looks(d) is Unknown);
    assert(!(next.cell(m.at).looks(d) is Unknown));
}

/// What a move through an opening changes: the cell it lands in, and nothing else.
proof fn lemma_move_changes(m: Maze, d: Dir, c: (int, int), e: Dir)
    requires
        m.cell(beyond(m.at, d)).visits < u32::MAX,
    ensures
        ({
            let next = m.moved(d, beyond(m.at, d));
            &&& next.cell(c).visits == m.cell(c).visits + (if c == beyond(m.at, d) {
                1int
            } else {
                0
            })
            &&& next.cell(c).looks(e) == (if c == beyond(m.at, d) && e == turned(d, 2) {
                Side::Open
            } else {
                m.cell(c).looks(e)
            })
        }),
{
}

proof fn lemma_go_keeps(
    m: Maze,
    truth: spec_fn((int, int), Dir) -> Side,
    home: (int, int),
    rooms: Set<(int, int)>,
    d: Dir,
)
    requires
        is_maze(truth),
        encloses(rooms, truth),
        rooms.contains(home),
        exploring(m, truth, home),
        truth(m.at, d) is Open,
    ensures
        ({
            let next = m.moved(d, beyond(m.at, d));
            &&& forall|c: (int, int), e: Dir|
                #[trigger] next.cell(c).looks(e) is Unknown || next.cell(c).looks(e) == truth(c, e)
            &&& forall|c: (int, int)| #[trigger] visited(m, c) ==> visited(next, c)
            &&& forall|c: (int, int)|
                #[trigger] visited(next, c) ==> visited(m, c) || c == beyond(m.at, d)
            &&& visited(next, beyond(m.at, d))
            &&& !(next.here(turned(next.facing, 2)) is Unknown)
            &&& forall|c: (int, int)| c != beyond(m.at, d) && #[trigger] finished(m, c) ==> finished(
                next,
                c,
            )
            &&& unvisited(next, rooms) <= unvisited(m, rooms)
            &&& unlooked(next, rooms) <= unlooked(m, rooms)
            &&& rooms.contains(beyond(m.at, d))
        }),
{
    let to = beyond(m.at, d);
    let next = m.moved(d, to);
    assert(m.cell(to).visits < u32::MAX);
    assert(truth(to, turned(d, 2)) is Open);
    assert forall|c: (int, int), e: Dir|
        #[trigger] next.cell(c).looks(e) is Unknown || next.cell(c).looks(e) == truth(c, e) by {
        lemma_move_changes(m, d, c, e);
        assert(m.cell(c).looks(e) is Unknown || m.cell(c).looks(e) == truth(c, e));
    }
    assert forall|c: (int, int)| #[trigger] visited(m, c) implies visited(next, c) by {
        lemma_move_changes(m, d, c, d);
    }
    assert forall|c: (int, int)| #[trigger] visited(next, c) implies visited(m, c) || c == to by {
        lemma_move_changes(m, d, c, d);
    }
    lemma_move_changes(m, d, to, turned(d, 2));
    assert forall|c: (int, int)| c != to && #[trigger] finished(m, c) implies finished(next, c) by {
        assert forall|e: Dir|
            {
                &&& !(#[trigger] next.cell(c).looks(e) is Unknown)
                &&& !(next.cell(c).looks(e) is Outside)
                &&& next.cell(c).looks(e) is Open ==> visited(next, beyond(c, e))
            } by {
            lemma_move_changes(m, d, c, e);
            assert(!(m.cell(c).looks(e) is Unknown));
            assert(m.cell(c).looks(e) is Open ==> visited(m, beyond(c, e)));
        }
    }
    assert forall|c: (int, int), e: Dir|
        #[trigger] next.cell(c).looks(e) is Unknown implies m.cell(c).looks(e) is Unknown by {
        lemma_move_changes(m, d, c, e);
    }
    lemma_visits_fewer(next, m, rooms);
    lemma_looks_fewer(next, m, rooms, Dir::East);
    lemma_looks_fewer(next, m, rooms, Dir::North);
    lemma_looks_fewer(next, m, rooms, Dir::West);
    lemma_looks_fewer(next, m, rooms, Dir::South);
    lemma_chain_enclosed(m, truth, home, rooms, chain(m).len() - 1);
    assert(chain(m).last() == m.at);
}

/// A move into an unvisited cell keeps the state and leaves one cell fewer to visit.
proof fn lemma_advance_steps(
    m: Maze,
    truth: spec_fn((int, int), Dir) -> Side,
    home: (int, int),
    rooms: Set<(int, int)>,
    d: Dir,
)
    requires
        is_maze(truth),
        encloses(rooms, truth),
        rooms.contains(home),
        exploring(m, truth, home),
        m.fresh(d),
        forall|c: (int, int)| #[trigger] m.cell(c).visits < u32::MAX - 1,
    ensures
        exploring(m.moved(d, beyond(m.at, d)), truth, home),
        closer(m.moved(d, beyond(m.at, d)), m, rooms),
{
    let to = beyond(m.at, d);
    let next = m.moved(d, to);
    assert(m.cell(m.at).looks(d) is Open);
    assert(truth(m.at, d) is Open);
    lemma_go_keeps(m, truth, home, rooms, d);
    assert(!visited(m, to));
    if m.trail.len() > 0 {
        assert(chain(m)[m.trail.len() - 1] == m.trail.last());
        assert(visited(m, m.trail.last()));
    }
    assert(next.trail =~= chain(m));
    assert(chain(next) =~= chain(m).push(to));
    assert(chain(next)[0] == chain(m)[0]);
    assert forall|i: int| 0 <= i < chain(next).len() implies visited(next, #[trigger] chain(next)[i]) by {
        if i < chain(m).len() {
            assert(visited(m, chain(m)[i]));
        }
    }
    assert forall|i: int| 0 <= i < chain(next).len() - 1 implies #[trigger] steps(
        truth,
        chain(next),
        i,
    ) by {
        if i < m.trail.len() {
            assert(steps(truth, chain(m), i));
        } else {
            assert(beyond(m.at, d) == to && truth(m.at, d) is Open);
        }
    }
    assert forall|c: (int, int)|
        #[trigger] visited(next, c) && !chain(next).contains(c) implies finished(next, c) by {
        assert(chain(next)[chain(next).len() - 1] == to);
        assert(c != to);
        assert(visited(m, c));
        if chain(m).contains(c) {
            let i = choose|i: int| 0 <= i < chain(m).len() && chain(m)[i] == c;
            assert(chain(next)[i] == c);
        }
        assert(finished(m, c));
    }
    assert forall|c: (int, int)| #[trigger] next.cell(c).visits < u32::MAX by {
        lemma_move_changes(m, d, c, d);
        assert(m.cell(c).visits < u32::MAX - 1);
    }
    lemma_visits_fewer(next, m, rooms);
    assert(rooms.contains(to) && visited(next, to) && !visited(m, to));
}

/// A move back along the trail, from a cell with nothing left to find out, keeps the state
/// and shortens the trail.
proof fn lemma_retreat_steps(
    m: Maze,
    truth: spec_fn((int, int), Dir) -> Side,
    home: (int, int),
    rooms: Set<(int, int)>,
    d: Dir,
)
    requires
        is_maze(truth),
        encloses(rooms, truth),
        rooms.contains(home),
        exploring(m, truth, home),
        m.trail.len() > 0,
        beyond(m.at, d) == m.trail.last(),
        finished(m, m.at),
        forall|c: (int, int)| #[trigger] m.cell(c).visits < u32::MAX - 1,
    ensures
        exploring(m.moved(d, beyond(m.at, d)), truth, home),
        closer(m.moved(d, beyond(m.at, d)), m, rooms),
{
    let to = beyond(m.at, d);
    let next = m.moved(d, to);
    let n = m.trail.len() - 1;
    assert(steps(truth, chain(m), n));
    let e = choose|e: Dir| beyond(m.trail[n], e) == chain(m)[n + 1] && #[trigger] truth(
        m.trail[n],
        e,
    ) is Open;
    assert(chain(m)[n + 1] == m.at);
    assert(beyond(beyond(m.at, d), e) == m.at);
    law_step_back_leads_home(m.at, d, d);
    assert(e == turned(d, 2));
    assert(truth(m.at, turned(e, 2)) is Open);
    assert(turned(e, 2) == d);
    lemma_go_keeps(m, truth, home, rooms, d);
    assert(next.trail =~= m.trail.drop_last());
    assert(chain(next) =~= m.trail);
    assert(chain(next)[0] == chain(m)[0]);
    assert forall|i: int| 0 <= i < chain(next).len() implies visited(next, #[trigger] chain(next)[i]) by {
        assert(visited(m, chain(m)[i]));
    }
    assert forall|i: int| 0 <= i < chain(next).len() - 1 implies #[trigger] steps(
        truth,
        chain(next),
        i,
    ) by {
        assert(steps(truth, chain(m), i));
    }
    assert forall|c: (int, int)|
        #[trigger] visited(next, c) && !chain(next).contains(c) implies finished(next, c) by {
        assert(chain(next)[n] == to);
        assert(c != to);
        assert(visited(m, c));
        if c != m.at {
            assert(!chain(m).contains(c)) by {
                if chain(m).contains(c) {
                    let i = choose|i: int| 0 <= i < chain(m).len() && chain(m)[i] == c;
                    assert(chain(next)[i] == c);
                }
            }
        }
        assert(finished(m, c));
    }
    assert forall|c: (int, int)| #[trigger] next.cell(c).visits < u32::MAX by {
        lemma_move_changes(m, d, c, d);
        assert(m.cell(c).visits < u32::MAX - 1);
    }
}

/// The explorer cannot loop: in a maze that stays put and is seen as it is, every step it
/// plans brings it closer to the end of the exploration, until it sees the way outside or
/// gives up. It gives up only where it started, with nothing left to find out in any cell it
/// has been to, so it misses no exit.
pub proof fn law_explorer_cannot_loop(
    m: Maze,
    truth: spec_fn((int, int), Dir) -> Side,
    home: (int, int),
    rooms: Set<(int, int)>,
)
    requires
        is_maze(truth),
        encloses(rooms, truth),
        rooms.contains(home),
        exploring(m, truth, home),
        forall|c: (int, int)| #[trigger] m.cell(c).visits < u32::MAX - 1,
    ensures
        match m.planned() {
            Plan::Exit(d) => truth(m.at, d) is Outside,
            Plan::Stuck => m.at == home && forall|c: (int, int)|
                #[trigger] visited(m, c) ==> finished(m, c),
            _ => exploring(stepped(m, truth), truth, home) && closer(stepped(m, truth), m, rooms),
        },
{
    lemma_plan_cases(m);
    match m.planned() {
        Plan::Exit(d) => {
            assert(m.cell(m.at).looks(d) == truth(m.at, d));
        },
        Plan::Look(d) => {
            lemma_look_steps(m, truth, home, rooms, d);
        },
        Plan::Go(d) if m.fresh(d) => {
            lemma_advance_steps(m, truth, home, rooms, d);
        },
        _ => {
            assert(finished(m, m.at)) by {
                assert forall|e: Dir|
                    {
                        &&& !(#[trigger] m.cell(m.at).looks(e) is Unknown)
                        &&& !(m.cell(m.at).looks(e) is Outside)
                        &&& m.cell(m.at).looks(e) is Open ==> visited(m, beyond(m.at, e))
                    } by {
                    assert(m.here(e) == m.cell(m.at).looks(e));
                    assert(!m.fresh(e));
                }
            }
            if m.trail.len() > 0 {
                let n = m.trail.len() - 1;
                assert(steps(truth, chain(m), n));
                let e = choose|e: Dir| beyond(m.trail[n], e) == chain(m)[n + 1] && #[trigger] truth(
                    m.trail[n],
                    e,
                ) is Open;
                let back = turned(e, 2);
                assert(truth(m.at, back) is Open);
                assert(beyond(m.at, back) == m.trail.last());
                lemma_way_back_is_found(m, back);
                assert(m.cell(m.at).looks(back) == truth(m.at, back));
                assert(m.planned() == Plan::Go(back));
                lemma_retreat_steps(m, truth, home, rooms, back);
            } else {
                assert(chain(m)[0] == m.at);
                assert forall|c: (int, int)| #[trigger] visited(m, c) implies finished(m, c) by {
                    if chain(m).contains(c) {
                        assert(c == m.at);
                    }
                }
                let region = Set::new(|c: (int, int)| visited(m, c));
                assert forall|c: (int, int), e: Dir|
                    region.contains(c) && #[trigger] m.cell(c).looks(e) is Open implies region.contains(
                    beyond(c, e),
                ) by {
                    assert(visited(m, c));
                    assert(finished(m, c));
                }
                lemma_closed_is_explored(m, region);
                assert(m.planned() is Stuck);
            }
        },
    }
}

/// If the end of the trail is next door, that is the way back.
proof fn lemma_way_back_is_found(m: Maze, back: Dir)
    requires
        m.trail.len() > 0,
        beyond(m.at, back) == m.trail.last(),
    ensures
        m.way_back() == Some(back),
{
    let all = seq![Dir::East, Dir::North, Dir::West, Dir::South];
    let wanted = |d: Dir| beyond(m.at, d) == m.trail.last();
    lemma_first_is_wanted(all, wanted);
    assert(all[0] == back || all[1] == back || all[2] == back || all[3] == back);
    let found = first(all, wanted);
    if found is None {
        assert(wanted(back));
    } else {
        law_step_back_leads_home(m.at, found->0, back);
    }
}

/// When the explorer is back home with nothing left to find out, no walk from home reaches a
/// cell it has not visited, and none reaches a cell with a way outside.
pub proof fn law_no_exit_is_missed(
    m: Maze,
    truth: spec_fn((int, int), Dir) -> Side,
    home: (int, int),
    walk: Seq<(int, int)>,
)
    requires
        exploring(m, truth, home),
        forall|c: (int, int)| #[trigger] visited(m, c) ==> finished(m, c),
        walk.len() > 0,
        walk[0] == home,
        is_walk(truth, walk),
    ensures
        visited(m, walk.last()),
        forall|d: Dir| !(#[trigger] truth(walk.last(), d) is Outside),
    decreases walk.len(),
{
    if walk.len() == 1 {
        assert(visited(m, chain(m)[0]));
    } else {
        let before = walk.drop_last();
        assert forall|i: int| 0 <= i < before.len() - 1 implies #[trigger] steps(
            truth,
            before,
            i,
        ) by {
            assert(steps(truth, walk, i));
        }
        law_no_exit_is_missed(m, truth, home, before);
        let i = walk.len() - 2;
        assert(steps(truth, walk, i));
        let d = choose|d: Dir| beyond(walk[i], d) == walk[i + 1] && #[trigger] truth(walk[i], d) is Open;
        assert(finished(m, walk[i]));
        assert(!(m.cell(walk[i]).looks(d) is Unknown));
        assert(m.cell(walk[i]).looks(d) == truth(walk[i], d));
        assert(visited(m, beyond(walk[i], d)));
    }
    assert(finished(m, walk.last()));
    assert forall|d: Dir| !(#[trigger] truth(walk.last(), d) is Outside) by {
        assert(!(m.cell(walk.last()).looks(d) is Unknown));
        assert(m.cell(walk.last()).looks(d) == truth(walk.last(), d));
    }
}

/// How often `c` occurs in a path.
pub open spec fn times(path: Seq<(int, int)>, c: (int, int)) -> nat
    decreases path.len(),
{
    if path.len() == 0 {
        0
    } else if path.last() == c {
        times(path.drop_last(), c) + 1
    } else {
        times(path.drop_last(), c)
    }
}

/// What the explorer keeps whatever it sees: its path starts at the origin and ends where it
/// stands, with one more cell on it than moves made, and a cell was visited as often as it
/// occurs on the path.
pub open spec fn counted(m: Maze) -> bool {
    &&& m.moves >= 0
    &&& m.path.len() == m.moves + 1
    &&& m.path[0] == (0int, 0int)
    &&& m.path.last() == m.at
    &&& forall|c: (int, int)| #[trigger] m.cell(c).visits == times(m.path, c)
}

/// Every way a map is made and every way it changes keeps the counts straight.
pub proof fn law_counts_agree(m: Maze, d: Dir, side: Side, arrived: (int, int))
    ensures
        counted(Maze::start()),
        counted(Maze::entrance()),
        counted(m) ==> counted(m.observed(d, side)),
        counted(m) ==> counted(m.forgot_here()),
        counted(m) ==> counted(m.forgot_walls()),
        counted(m) && m.cell(arrived).visits < u32::MAX ==> counted(m.moved(d, arrived)),
{
    assert forall|c: (int, int)| #[trigger] Maze::start().cell(c).visits == times(
        Maze::start().path,
        c,
    ) && Maze::entrance().cell(c).visits == times(Maze::entrance().path, c) by {
        let path = seq![(0int, 0int)];
        assert(times(path.drop_last(), c) == 0);
        assert(Maze::start().path == path && Maze::entrance().path == path);
        assert(path.last() == (0int, 0int));
    }
    assert forall|c: (int, int)| #[trigger] Maze::entrance().cell(c).visits == times(
        Maze::entrance().path,
        c,
    ) by {
        assert(Maze::start().cell(c).visits == times(Maze::start().path, c));
    }
    if counted(m) {
        assert forall|c: (int, int)| #[trigger] m.observed(d, side).cell(c).visits == times(
            m.path,
            c,
        ) by {
            assert(m.cell(c).visits == times(m.path, c));
        }
        assert forall|c: (int, int)| #[trigger] m.forgot_here().cell(c).visits == times(
            m.path,
            c,
        ) by {
            assert(m.cell(c).visits == times(m.path, c));
        }
        assert forall|c: (int, int)| #[trigger] m.forgot_walls().cell(c).visits == times(
            m.path,
            c,
        ) by {
            assert(m.cell(c).visits == times(m.path, c));
        }
        if m.cell(arrived).visits < u32::MAX {
            let next = m.moved(d, arrived);
            assert(next.path.drop_last() =~= m.path);
            assert forall|c: (int, int)| #[trigger] next.cell(c).visits == times(next.path, c) by {
                assert(m.cell(c).visits == times(m.path, c));
            }
        }
    }
}

/// One thing that happens to a map.
pub enum Deed {
    Observe(Dir, Side),
    Move(Dir, (int, int)),
    ForgetHere,
    ForgetWalls,
}

pub open spec fn done(m: Maze, deed: Deed) -> Maze {
    match deed {
        Deed::Observe(d, side) => m.observed(d, side),
        Deed::Move(d, arrived) => m.moved(d, arrived),
        Deed::ForgetHere => m.forgot_here(),
        Deed::ForgetWalls => m.forgot_walls(),
    }
}

/// A map after all of `deeds`, in order.
pub open spec fn after_all(m: Maze, deeds: Seq<Deed>) -> Maze
    decreases deeds.len(),
{
    if deeds.len() == 0 {
        m
    } else {
        done(after_all(m, deeds.drop_last()), deeds.last())
    }
}

/// The cell every one of the moves among `deeds` lands in has room to count the visit.
pub open spec fn all_count(m: Maze, deeds: Seq<Deed>) -> bool
    decreases deeds.len(),
{
    deeds.len() == 0 || {
        &&& all_count(m, deeds.drop_last())
        &&& deeds.last() matches Deed::Move(_, arrived) ==> after_all(m, deeds.drop_last()).cell(
            arrived,
        ).visits < u32::MAX
    }
}

/// A new map: at the entrance, or anywhere.
pub open spec fn fresh_map(entrance: bool) -> Maze {
    if entrance {
        Maze::entrance()
    } else {
        Maze::start()
    }
}

/// Whatever happens to a map, in whatever order: its path starts at the origin and ends where
/// the duck stands, holds one cell more than moves were made, and every cell was visited as
/// often as it occurs on it.
pub proof fn law_path_tells_the_visits(deeds: Seq<Deed>, entrance: bool)
    requires
        all_count(fresh_map(entrance), deeds),
    ensures
        counted(after_all(fresh_map(entrance), deeds)),
    decreases deeds.len(),
{
    let first = fresh_map(entrance);
    if deeds.len() == 0 {
        law_counts_agree(first, Dir::East, Side::Open, (0, 0));
    } else {
        law_path_tells_the_visits(deeds.drop_last(), entrance);
        let m = after_all(first, deeds.drop_last());
        match deeds.last() {
            Deed::Observe(d, side) => law_counts_agree(m, d, side, (0, 0)),
            Deed::Move(d, arrived) => law_counts_agree(m, d, Side::Open, arrived),
            _ => law_counts_agree(m, Dir::East, Side::Open, (0, 0)),
        }
    }
}

/// Forgetting the walls leaves every side to look at again and every visit counted, and no
/// trail to go back along; forgetting here does so for the current cell alone.
pub proof fn law_forgetting_keeps_the_visits(m: Maze, c: (int, int), d: Dir)
    ensures
        m.forgot_walls().cell(c).looks(d) is Unknown,
        m.forgot_walls().cell(c).visits == m.cell(c).visits,
        m.forgot_walls().planned() is Look,
        m.forgot_here().here(d) is Unknown,
        m.forgot_here().cell(c).visits == m.cell(c).visits,
        c != m.at ==> m.forgot_here().cell(c) == m.cell(c),
        m.forgot_here().planned() is Look,
{
    lemma_plan_cases(m.forgot_walls());
    lemma_plan_cases(m.forgot_here());
}

/// The cell in direction `d` of `c` was visited and is behind: not on the way back any more.
pub open spec fn is_behind(m: Maze, c: (int, int), d: Dir) -> bool {
    visited(m, beyond(c, d)) && !chain(m).contains(beyond(c, d))
}

/// How many of the neighbours of `c` are behind.
#[verifier::opaque]
pub open spec fn behind(m: Maze, c: (int, int)) -> nat {
    let one = |d: Dir|
        if is_behind(m, c, d) {
            1nat
        } else {
            0
        };
    one(Dir::East) + one(Dir::North) + one(Dir::West) + one(Dir::South)
}

/// The way back meets no cell twice, and a cell is entered once, and once more for each
/// neighbour left behind.
#[verifier::opaque]
pub open spec fn is_thrifty(m: Maze) -> bool {
    &&& forall|i: int, j: int| 0 <= i < j < chain(m).len() ==> chain(m)[i] != chain(m)[j]
    &&& forall|c: (int, int)| #[trigger] m.cell(c).visits <= 1 + behind(m, c)
}

/// The state of an exploration from the entrance: exploring, with the counts straight, no cell
/// entered more often than need be, and two moves made for every cell found, less the way back
/// still to walk.
pub open spec fn on_course(
    m: Maze,
    truth: spec_fn((int, int), Dir) -> Side,
    rooms: Set<(int, int)>,
) -> bool {
    &&& exploring(m, truth, (0, 0))
    &&& counted(m)
    &&& is_thrifty(m)
    &&& m.moves + m.trail.len() == 2 * (rooms.len() - unvisited(m, rooms) - 1)
}

/// The plan goes on: to look, into a cell never visited, or back to the end of the trail.
pub open spec fn goes_on(m: Maze) -> bool {
    match m.planned() {
        Plan::Look(_) => true,
        Plan::Go(d) => m.fresh(d) || m.trail.len() > 0 && beyond(m.at, d) == m.trail.last(),
        Plan::Exit(_) => false,
        Plan::Stuck => false,
    }
}

/// After `k` steps of the exploration.
pub open spec fn explored_for(m: Maze, truth: spec_fn((int, int), Dir) -> Side, k: nat) -> Maze
    decreases k,
{
    if k == 0 {
        m
    } else {
        explored_for(stepped(m, truth), truth, (k - 1) as nat)
    }
}

proof fn lemma_one_more_visited(a: Maze, b: Maze, rooms: Set<(int, int)>, to: (int, int))
    requires
        rooms.finite(),
        rooms.contains(to),
        !visited(b, to),
        forall|c: (int, int)| #[trigger] visited(a, c) <==> visited(b, c) || c == to,
    ensures
        unvisited(a, rooms) == unvisited(b, rooms) - 1,
{
    let x = rooms.filter(|c: (int, int)| !visited(a, c));
    let y = rooms.filter(|c: (int, int)| !visited(b, c));
    assert(x =~= y.remove(to)) by {
        assert forall|c: (int, int)| x.contains(c) <==> y.remove(to).contains(c) by {
            assert(visited(a, c) <==> visited(b, c) || c == to);
        }
    }
    assert(y.contains(to));
}

proof fn lemma_as_many_visited(a: Maze, b: Maze, rooms: Set<(int, int)>)
    requires
        forall|c: (int, int)| #[trigger] visited(a, c) <==> visited(b, c),
    ensures
        unvisited(a, rooms) == unvisited(b, rooms),
{
    let x = rooms.filter(|c: (int, int)| !visited(a, c));
    let y = rooms.filter(|c: (int, int)| !visited(b, c));
    assert(x =~= y) by {
        assert forall|c: (int, int)| x.contains(c) <==> y.contains(c) by {
            assert(visited(a, c) <==> visited(b, c));
        }
    }
}

proof fn lemma_more_behind(a: Maze, b: Maze, c: (int, int), d: Dir)
    requires
        forall|e: Dir| #[trigger] is_behind(b, c, e) ==> is_behind(a, c, e),
    ensures
        behind(a, c) >= behind(b, c),
        is_behind(a, c, d) && !is_behind(b, c, d) ==> behind(a, c) > behind(b, c),
{
    reveal(behind);
    assert(is_behind(b, c, Dir::East) ==> is_behind(a, c, Dir::East));
    assert(is_behind(b, c, Dir::North) ==> is_behind(a, c, Dir::North));
    assert(is_behind(b, c, Dir::West) ==> is_behind(a, c, Dir::West));
    assert(is_behind(b, c, Dir::South) ==> is_behind(a, c, Dir::South));
}

proof fn lemma_look_is_thrifty(m: Maze, d: Dir, side: Side)
    requires
        is_thrifty(m),
    ensures
        is_thrifty(m.observed(d, side)),
{
    reveal(is_thrifty);
    let next = m.observed(d, side);
    assert(chain(next) =~= chain(m));
    assert forall|c: (int, int)| #[trigger] next.cell(c).visits <= 1 + behind(next, c) by {
        law_glance_is_shared(m, d, side, c, d);
        assert(m.cell(c).visits <= 1 + behind(m, c));
        assert forall|e: Dir| #[trigger] is_behind(m, c, e) implies is_behind(next, c, e) by {
            law_glance_is_shared(m, d, side, beyond(c, e), d);
        }
        lemma_more_behind(next, m, c, d);
    }
}

proof fn lemma_advance_is_thrifty(m: Maze, d: Dir)
    requires
        is_thrifty(m),
        m.fresh(d),
        forall|i: int| 0 <= i < chain(m).len() ==> visited(m, #[trigger] chain(m)[i]),
    ensures
        is_thrifty(m.moved(d, beyond(m.at, d))),
{
    reveal(is_thrifty);
    let to = beyond(m.at, d);
    let next = m.moved(d, to);
    assert(!visited(m, to));
    if m.trail.len() > 0 {
        assert(chain(m)[m.trail.len() - 1] == m.trail.last());
        assert(visited(m, m.trail.last()));
    }
    assert(chain(next) =~= chain(m).push(to));
    assert forall|i: int, j: int| 0 <= i < j < chain(next).len() implies chain(next)[i]
        != chain(next)[j] by {
        assert(visited(m, chain(m)[i]));
    }
    assert forall|c: (int, int)| #[trigger] next.cell(c).visits <= 1 + behind(next, c) by {
        lemma_move_changes(m, d, c, d);
        assert(m.cell(c).visits <= 1 + behind(m, c));
        assert forall|e: Dir| #[trigger] is_behind(m, c, e) implies is_behind(next, c, e) by {
            let b = beyond(c, e);
            lemma_move_changes(m, d, b, d);
            if chain(next).contains(b) {
                let i = choose|i: int| 0 <= i < chain(next).len() && chain(next)[i] == b;
                if i < chain(m).len() {
                    assert(chain(m)[i] == b);
                }
            }
        }
        lemma_more_behind(next, m, c, d);
    }
}

/// What is behind stays behind on the way back, and the cell left joins it.
proof fn lemma_retreat_leaves_behind(m: Maze, d: Dir, c: (int, int))
    requires
        is_thrifty(m),
        m.trail.len() > 0,
        beyond(m.at, d) == m.trail.last(),
        visited(m, m.at),
        m.cell(m.trail.last()).visits < u32::MAX,
    ensures
        behind(m.moved(d, beyond(m.at, d)), c) >= behind(m, c),
        c == beyond(m.at, d) ==> behind(m.moved(d, c), c) > behind(m, c),
{
    let to = beyond(m.at, d);
    let next = m.moved(d, to);
    let back = turned(d, 2);
    assert(chain(next) =~= m.trail);
    assert forall|e: Dir| #[trigger] is_behind(m, c, e) implies is_behind(next, c, e) by {
        let b = beyond(c, e);
        lemma_move_changes(m, d, b, d);
        if chain(next).contains(b) {
            let i = choose|i: int| 0 <= i < chain(next).len() && chain(next)[i] == b;
            assert(chain(m)[i] == b);
        }
    }
    lemma_more_behind(next, m, c, back);
    assert(beyond(to, back) == m.at);
    assert(chain(m)[m.trail.len() as int] == m.at);
    assert(!is_behind(m, to, back));
    assert(is_behind(next, to, back)) by {
        reveal(is_thrifty);
        lemma_move_changes(m, d, m.at, d);
        if m.trail.contains(m.at) {
            let i = choose|i: int| 0 <= i < m.trail.len() && m.trail[i] == m.at;
            assert(chain(m)[i] == m.at);
        }
    }
}

proof fn lemma_retreat_is_thrifty(m: Maze, d: Dir)
    requires
        is_thrifty(m),
        m.trail.len() > 0,
        beyond(m.at, d) == m.trail.last(),
        visited(m, m.at),
        m.cell(m.trail.last()).visits < u32::MAX,
    ensures
        is_thrifty(m.moved(d, beyond(m.at, d))),
{
    let to = beyond(m.at, d);
    let next = m.moved(d, to);
    assert(chain(next) =~= m.trail);
    assert forall|i: int, j: int| 0 <= i < j < chain(next).len() implies chain(next)[i]
        != chain(next)[j] by {
        reveal(is_thrifty);
        assert(chain(m)[i] == chain(next)[i] && chain(m)[j] == chain(next)[j]);
    }
    assert forall|c: (int, int)| #[trigger] next.cell(c).visits <= 1 + behind(next, c) by {
        lemma_retreat_leaves_behind(m, d, c);
        lemma_move_changes(m, d, c, d);
        reveal(is_thrifty);
        assert(m.cell(c).visits <= 1 + behind(m, c));
    }
    reveal(is_thrifty);
}

proof fn lemma_course_is_kept(
    m: Maze,
    truth: spec_fn((int, int), Dir) -> Side,
    rooms: Set<(int, int)>,
)
    requires
        is_maze(truth),
        encloses(rooms, truth),
        rooms.contains((0int, 0int)),
        on_course(m, truth, rooms),
        !(m.planned() is Exit),
        !(m.planned() is Stuck),
    ensures
        goes_on(m),
        on_course(stepped(m, truth), truth, rooms),
        closer(stepped(m, truth), m, rooms),
{
    let home = (0int, 0int);
    let next = stepped(m, truth);
    vstd::set_lib::lemma_len_subset(rooms.filter(|c: (int, int)| !visited(m, c)), rooms);
    assert forall|c: (int, int)| #[trigger] m.cell(c).visits < u32::MAX - 1 by {
        reveal(is_thrifty);
        reveal(behind);
        assert(m.cell(c).visits <= 1 + behind(m, c));
    }
    law_explorer_cannot_loop(m, truth, home, rooms);
    lemma_plan_cases(m);
    match m.planned() {
        Plan::Look(d) => {
            law_counts_agree(m, d, truth(m.at, d), (0, 0));
            lemma_look_is_thrifty(m, d, truth(m.at, d));
            assert forall|c: (int, int)| #[trigger] visited(next, c) <==> visited(m, c) by {
                law_glance_is_shared(m, d, truth(m.at, d), c, d);
            }
            lemma_as_many_visited(next, m, rooms);
        },
        Plan::Go(d) => {
            let to = beyond(m.at, d);
            assert(m.cell(to).visits < u32::MAX - 1);
            law_counts_agree(m, d, Side::Open, to);
            assert forall|c: (int, int)| #[trigger] visited(next, c) <==> visited(m, c) || c == to by {
                lemma_move_changes(m, d, c, d);
            }
            if m.fresh(d) {
                assert(chain(next)[chain(next).len() - 1] == to);
                if m.trail.len() > 0 {
                    assert(chain(m)[m.trail.len() - 1] == m.trail.last());
                    assert(visited(m, m.trail.last()));
                }
                lemma_chain_enclosed(next, truth, home, rooms, chain(next).len() - 1);
                lemma_one_more_visited(next, m, rooms, to);
                lemma_advance_is_thrifty(m, d);
            } else {
                lemma_retreats_along_the_trail(m, truth, d);
                assert(chain(m)[m.trail.len() - 1] == m.trail.last());
                assert(visited(m, to));
                assert(chain(m)[m.trail.len() as int] == m.at);
                lemma_retreat_is_thrifty(m, d);
                lemma_as_many_visited(next, m, rooms);
            }
        },
        _ => {},
    }
}

/// While it explores, a move that is not into an unvisited cell is back along the trail.
proof fn lemma_retreats_along_the_trail(m: Maze, truth: spec_fn((int, int), Dir) -> Side, d: Dir)
    requires
        is_maze(truth),
        exploring(m, truth, (0, 0)),
        m.planned() == Plan::Go(d),
        !m.fresh(d),
    ensures
        m.trail.len() > 0,
        beyond(m.at, d) == m.trail.last(),
{
    lemma_plan_cases(m);
    if m.trail.len() > 0 {
        let n = m.trail.len() - 1;
        assert(steps(truth, chain(m), n));
        let e = choose|e: Dir| beyond(m.trail[n], e) == chain(m)[n + 1] && #[trigger] truth(
            m.trail[n],
            e,
        ) is Open;
        let back = turned(e, 2);
        assert(truth(m.at, back) is Open);
        assert(beyond(m.at, back) == m.trail.last());
        lemma_way_back_is_found(m, back);
        assert(m.cell(m.at).looks(back) is Unknown || m.cell(m.at).looks(back) == truth(m.at, back));
        assert(m.here(back) != Side::Wall);
    } else {
        assert(chain(m)[0] == m.at);
        assert forall|c: (int, int)| #[trigger] visited(m, c) implies finished(m, c) by {
            if chain(m).contains(c) {
                assert(c == m.at);
                assert forall|e: Dir|
                    {
                        &&& !(#[trigger] m.cell(m.at).looks(e) is Unknown)
                        &&& !(m.cell(m.at).looks(e) is Outside)
                        &&& m.cell(m.at).looks(e) is Open ==> visited(m, beyond(m.at, e))
                    } by {
                    assert(m.here(e) == m.cell(m.at).looks(e));
                    assert(!m.fresh(e));
                }
            }
        }
        let region = Set::new(|c: (int, int)| visited(m, c));
        assert forall|c: (int, int), e: Dir|
            region.contains(c) && #[trigger] m.cell(c).looks(e) is Open implies region.contains(
            beyond(c, e),
        ) by {
            assert(visited(m, c));
            assert(finished(m, c));
        }
        lemma_closed_is_explored(m, region);
        assert(m.planned() is Stuck);
    }
}

/// From a state of the exploration on, it comes to an end.
proof fn lemma_exploration_ends(
    m: Maze,
    truth: spec_fn((int, int), Dir) -> Side,
    rooms: Set<(int, int)>,
) -> (k: nat)
    requires
        is_maze(truth),
        encloses(rooms, truth),
        rooms.contains((0int, 0int)),
        on_course(m, truth, rooms),
    ensures
        on_course(explored_for(m, truth, k), truth, rooms),
        explored_for(m, truth, k).planned() is Exit || explored_for(m, truth, k).planned() is Stuck,
        forall|j: nat| j < k ==> goes_on(#[trigger] explored_for(m, truth, j)),
    decreases unvisited(m, rooms), unlooked(m, rooms), m.trail.len(),
{
    if m.planned() is Exit || m.planned() is Stuck {
        0
    } else {
        lemma_course_is_kept(m, truth, rooms);
        let next = stepped(m, truth);
        let k = lemma_exploration_ends(next, truth, rooms);
        assert forall|j: nat| j < k + 1 implies goes_on(#[trigger] explored_for(m, truth, j)) by {
            if j > 0 {
                assert(explored_for(m, truth, j) == explored_for(next, truth, (j - 1) as nat));
            }
        }
        k + 1
    }
}

/// From the entrance, in a maze that stays put and is seen as it is, the explorer looks around,
/// enters cells never visited and goes back along its trail, and nothing else, until it sees
/// the way outside or gives up. Either comes within two moves for every cell but the first.
/// It gives up only if no walk from the entrance leads to a way outside. No cell is entered more
/// than five times.
pub proof fn law_exploration_is_short(
    truth: spec_fn((int, int), Dir) -> Side,
    rooms: Set<(int, int)>,
) -> (k: nat)
    requires
        is_maze(truth),
        encloses(rooms, truth),
        rooms.contains((0int, 0int)),
        truth((0, 0), Dir::North) is Wall,
        truth((0, 0), Dir::West) is Wall,
        truth((0, 0), Dir::South) is Wall,
    ensures
        forall|j: nat| j < k ==> goes_on(#[trigger] explored_for(Maze::entrance(), truth, j)),
        ({
            let m = explored_for(Maze::entrance(), truth, k);
            &&& m.moves <= 2 * (rooms.len() - 1)
            &&& forall|c: (int, int)| #[trigger] m.cell(c).visits <= 5
            &&& match m.planned() {
                Plan::Exit(d) => truth(m.at, d) is Outside,
                Plan::Stuck => forall|walk: Seq<(int, int)>, d: Dir|
                    #![trigger is_walk(truth, walk), truth(walk.last(), d)]
                    walk.len() > 0 && walk[0] == (0int, 0int) && is_walk(truth, walk) ==> !(truth(
                        walk.last(),
                        d,
                    ) is Outside),
                _ => false,
            }
        }),
{
    let start = Maze::entrance();
    law_exploration_starts(truth);
    law_counts_agree(start, Dir::East, Side::Open, (0, 0));
    let others = rooms.filter(|c: (int, int)| !visited(start, c));
    assert(others =~= rooms.remove((0int, 0int)));
    assert(chain(start) =~= seq![(0int, 0int)]);
    assert(is_thrifty(start)) by {
        reveal(is_thrifty);
    }
    let k = lemma_exploration_ends(start, truth, rooms);
    let m = explored_for(start, truth, k);
    vstd::set_lib::lemma_len_subset(rooms.filter(|c: (int, int)| !visited(m, c)), rooms);
    assert forall|c: (int, int)| #[trigger] m.cell(c).visits <= 5 by {
        reveal(is_thrifty);
        reveal(behind);
        assert(m.cell(c).visits <= 1 + behind(m, c));
    }
    law_explorer_cannot_loop(m, truth, (0, 0), rooms);
    if m.planned() is Stuck {
        assert forall|walk: Seq<(int, int)>, d: Dir|
            #![trigger is_walk(truth, walk), truth(walk.last(), d)]
            walk.len() > 0 && walk[0] == (0int, 0int) && is_walk(truth, walk) implies !(truth(
            walk.last(),
            d,
        ) is Outside) by {
            law_no_exit_is_missed(m, truth, (0, 0), walk);
        }
    }
    k
}

} // verus!

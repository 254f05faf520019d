//! The box around a set of cells.

use vstd::prelude::*;

use crate::sparse::{cells_of, place};

verus! {

/// A box of cells, both ends included.
#[derive(Debug, Clone, Copy, PartialEq, Eq)]
pub struct Bounds {
    pub x0: i32,
    pub x1: i32,
    pub y0: i32,
    pub y1: i32,
}

impl Bounds {
    pub open spec fn holds(self, c: (int, int)) -> bool {
        self.x0 <= c.0 <= self.x1 && self.y0 <= c.1 <= self.y1
    }

    pub open spec fn width(self) -> nat {
        (self.x1 - self.x0 + 1) as nat
    }

    pub open spec fn height(self) -> nat {
        (self.y1 - self.y0 + 1) as nat
    }
}

/// `b` is the smallest box that holds every cell of `s`.
pub open spec fn is_box(s: Set<(int, int)>, b: Bounds) -> bool {
    &&& forall|c: (int, int)| #[trigger] s.contains(c) ==> b.holds(c)
    &&& exists|c: (int, int)| #[trigger] s.contains(c) && c.0 == b.x0
    &&& exists|c: (int, int)| #[trigger] s.contains(c) && c.0 == b.x1
    &&& exists|c: (int, int)| #[trigger] s.contains(c) && c.1 == b.y0
    &&& exists|c: (int, int)| #[trigger] s.contains(c) && c.1 == b.y1
}

/// The box around `s`, if there is anything in it.
pub open spec fn box_of(s: Set<(int, int)>) -> Option<Bounds> {
    if s == Set::<(int, int)>::empty() {
        None
    } else {
        Some(choose|b: Bounds| is_box(s, b))
    }
}

proof fn lemma_one_box(s: Set<(int, int)>, b: Bounds)
    requires
        is_box(s, b),
    ensures
        box_of(s) == Some(b),
        b.x0 <= b.x1,
        b.y0 <= b.y1,
{
    let f = choose|b: Bounds| is_box(s, b);
    assert(is_box(s, f));
    let c = choose|c: (int, int)| #[trigger] s.contains(c) && c.0 == f.x0;
    let c = choose|c: (int, int)| #[trigger] s.contains(c) && c.0 == f.x1;
    let c = choose|c: (int, int)| #[trigger] s.contains(c) && c.1 == f.y0;
    let c = choose|c: (int, int)| #[trigger] s.contains(c) && c.1 == f.y1;
}

/// The box around listed cells.
pub fn bound(list: &Vec<(i32, i32)>) -> (b: Option<Bounds>)
    ensures
        b == box_of(cells_of(list@).to_set()),
        b matches Some(b) ==> is_box(cells_of(list@).to_set(), b) && b.x0 <= b.x1 && b.y0 <= b.y1,
{
    let ghost s = cells_of(list@).to_set();
    let n: usize = list.len();
    if n == 0 {
        proof {
            assert(s =~= Set::empty());
        }
        return None;
    }
    let first = list[0];
    let mut b = Bounds { x0: first.0, x1: first.0, y0: first.1, y1: first.1 };
    let mut i: usize = 1;
    while i < n
        invariant
            n == list.len(),
            1 <= i <= n,
            forall|j: int| 0 <= j < i ==> b.holds(place(#[trigger] list@[j])),
            exists|j: int| 0 <= j < i && (#[trigger] list@[j]).0 == b.x0,
            exists|j: int| 0 <= j < i && (#[trigger] list@[j]).0 == b.x1,
            exists|j: int| 0 <= j < i && (#[trigger] list@[j]).1 == b.y0,
            exists|j: int| 0 <= j < i && (#[trigger] list@[j]).1 == b.y1,
        decreases n - i,
    {
        let c = list[i];
        assert(list@[i as int] == c);
        b =
        Bounds {
            x0: if c.0 < b.x0 {
                c.0
            } else {
                b.x0
            },
            x1: if c.0 > b.x1 {
                c.0
            } else {
                b.x1
            },
            y0: if c.1 < b.y0 {
                c.1
            } else {
                b.y0
            },
            y1: if c.1 > b.y1 {
                c.1
            } else {
                b.y1
            },
        };
        i += 1;
    }
    proof {
        let cells = cells_of(list@);
        assert forall|j: int| 0 <= j < n implies s.contains(place(#[trigger] list@[j])) by {
            assert(cells[j] == place(list@[j]));
        }
        assert forall|c: (int, int)| #[trigger] s.contains(c) implies b.holds(c) by {
            let j = choose|j: int| 0 <= j < cells.len() && cells[j] == c;
            assert(place(list@[j]) == c);
        }
        let j = choose|j: int| 0 <= j < n && (#[trigger] list@[j]).0 == b.x0;
        assert(s.contains(place(list@[j])));
        let j = choose|j: int| 0 <= j < n && (#[trigger] list@[j]).0 == b.x1;
        assert(s.contains(place(list@[j])));
        let j = choose|j: int| 0 <= j < n && (#[trigger] list@[j]).1 == b.y0;
        assert(s.contains(place(list@[j])));
        let j = choose|j: int| 0 <= j < n && (#[trigger] list@[j]).1 == b.y1;
        assert(s.contains(place(list@[j])));
        assert(is_box(s, b));
        lemma_one_box(s, b);
    }
    Some(b)
}

} // verus!

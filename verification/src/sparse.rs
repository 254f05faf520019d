//! A map over grid cells that grows in any direction: what the duck remembers about places.

use std::collections::BTreeMap;

use vstd::prelude::*;

verus! {

broadcast use vstd::std_specs::btree::group_btree_axioms;

/// Whether a pair of coordinates names a cell.
pub open spec fn is_cell(c: (int, int)) -> bool {
    i32::MIN <= c.0 <= i32::MAX && i32::MIN <= c.1 <= i32::MAX
}

/// The cell as mathematical coordinates.
pub open spec fn place(c: (i32, i32)) -> (int, int) {
    (c.0 as int, c.1 as int)
}

/// Cells in reading order: by the first coordinate, then by the second.
pub open spec fn precedes(a: (int, int), b: (int, int)) -> bool {
    a.0 < b.0 || a.0 == b.0 && a.1 < b.1
}

/// The single number a cell is filed under.
spec fn code(c: (int, int)) -> u64 {
    ((c.0 + 0x8000_0000) * 0x1_0000_0000 + (c.1 + 0x8000_0000)) as u64
}

spec fn decode(k: u64) -> (int, int) {
    (k as int / 0x1_0000_0000 - 0x8000_0000, k as int % 0x1_0000_0000 - 0x8000_0000)
}

proof fn code_is_faithful(c: (int, int))
    requires
        is_cell(c),
    ensures
        code(c) as int == (c.0 + 0x8000_0000) * 0x1_0000_0000 + (c.1 + 0x8000_0000),
        decode(code(c)) == c,
{
}

proof fn decode_is_faithful(k: u64)
    ensures
        is_cell(decode(k)),
        code(decode(k)) == k,
{
}

fn encode(c: (i32, i32)) -> (k: u64)
    ensures
        k == code(place(c)),
        decode(k) == place(c),
{
    let x: i64 = c.0 as i64 + 0x8000_0000;
    let y: i64 = c.1 as i64 + 0x8000_0000;
    proof {
        code_is_faithful(place(c));
    }
    (x as u64) * 0x1_0000_0000 + y as u64
}

fn cell_of(k: u64) -> (c: (i32, i32))
    ensures
        place(c) == decode(k),
{
    let x: i64 = (k / 0x1_0000_0000) as i64 - 0x8000_0000;
    let y: i64 = (k % 0x1_0000_0000) as i64 - 0x8000_0000;
    (x as i32, y as i32)
}

/// Something known of some cells. Cells nobody wrote to are absent.
#[derive(Debug)]
pub struct Sparse<V> {
    cells: BTreeMap<u64, V>,
}

impl<V> View for Sparse<V> {
    type V = Map<(int, int), V>;

    closed spec fn view(&self) -> Map<(int, int), V> {
        Map::new(
            |c: (int, int)| is_cell(c) && self.cells@.contains_key(code(c)),
            |c: (int, int)| self.cells@[code(c)],
        )
    }
}

impl<V: Copy> Clone for Sparse<V> {
    fn clone(&self) -> (s: Self)
        ensures
            s@ == self@,
    {
        let s = Sparse { cells: self.cells.clone() };
        proof {
            assert(s@ =~= self@);
        }
        s
    }
}

impl<V: Copy> Sparse<V> {
    pub fn new() -> (s: Self)
        ensures
            s@ == Map::<(int, int), V>::empty(),
    {
        let s = Sparse { cells: BTreeMap::new() };
        proof {
            assert(s@ =~= Map::<(int, int), V>::empty());
        }
        s
    }

    pub fn get(&self, c: (i32, i32)) -> (v: Option<V>)
        ensures
            v is Some <==> self@.contains_key(place(c)),
            v matches Some(x) ==> x == self@[place(c)],
    {
        let k: u64 = encode(c);
        match self.cells.get(&k) {
            Some(v) => Some(*v),
            None => None,
        }
    }

    pub fn put(&mut self, c: (i32, i32), v: V)
        ensures
            final(self)@ == old(self)@.insert(place(c), v),
    {
        let k: u64 = encode(c);
        self.cells.insert(k, v);
        proof {
            assert forall|p: (int, int)| #![auto] is_cell(p) && p != place(c) implies code(p)
                != k by {
                code_is_faithful(p);
            }
            assert(self@ =~= old(self)@.insert(place(c), v));
        }
    }

    /// How many cells something is known of.
    pub fn len(&self) -> (n: usize)
        ensures
            n == self@.dom().len(),
            self@.dom().finite(),
    {
        proof {
            self.lemma_size();
        }
        self.cells.len()
    }

    /// Only cells are remembered.
    pub proof fn lemma_keys_are_cells(&self)
        ensures
            forall|c: (int, int)| #[trigger] self@.contains_key(c) ==> is_cell(c),
    {
    }

    /// Only so many cells are remembered.
    pub proof fn lemma_known_is_finite(&self)
        ensures
            self@.dom().finite(),
    {
        self.lemma_size();
    }

    proof fn lemma_size(&self)
        ensures
            self@.dom().finite(),
            self@.dom().len() == self.cells@.dom().len(),
    {
        let keys = self.cells@.dom();
        let image = keys.map(|k: u64| decode(k));
        assert(image =~= self@.dom()) by {
            assert forall|c: (int, int)| self@.dom().contains(c) implies image.contains(c) by {
                code_is_faithful(c);
                assert(keys.contains(code(c)));
            }
            assert forall|c: (int, int)| image.contains(c) implies self@.dom().contains(c) by {
                let k = choose|k: u64| keys.contains(k) && decode(k) == c;
                decode_is_faithful(k);
            }
        }
        assert(vstd::relations::injective(|k: u64| decode(k))) by {
            assert forall|a: u64, b: u64| decode(a) == decode(b) implies a == b by {
                decode_is_faithful(a);
                decode_is_faithful(b);
            }
        }
        vstd::set_lib::lemma_map_size(keys, image, |k: u64| decode(k));
    }

    /// Everything known, in reading order.
    pub fn entries(&self) -> (list: Vec<((i32, i32), V)>)
        ensures
            lists(self@, list@),
    {
        let mut list: Vec<((i32, i32), V)> = Vec::new();
        let iter = self.cells.iter();
        let ghost all = vstd::std_specs::iter::IteratorSpec::remaining(&iter);
        for pair in it: iter
            invariant
                it.seq() == all,
                list.len() == it.index(),
                forall|i: int| #![trigger list@[i]]
                    0 <= i < list.len() ==> place(list@[i].0) == decode(*all[i].0),
                forall|i: int| #![trigger list@[i]]
                    0 <= i < list.len() ==> list@[i].1 == *all[i].1,
        {
            list.push((cell_of(*pair.0), *pair.1));
        }
        proof {
            let m = self.cells@;
            let keys = all.map_values(|kv: (&u64, &V)| *kv.0);
            assert(vstd::std_specs::btree::increasing_seq(keys));
            assert forall|i: int| 0 <= i < list.len() implies {
                &&& self@.contains_key(place(#[trigger] list@[i].0))
                &&& self@[place(list@[i].0)] == list@[i].1
            } by {
                assert(m.contains_key(*all[i].0));
                decode_is_faithful(*all[i].0);
            }
            assert forall|c: (int, int)| #[trigger] self@.contains_key(c) implies exists|i: int|
                0 <= i < list.len() && place(#[trigger] list@[i].0) == c by {
                let k = code(c);
                code_is_faithful(c);
                assert(all.contains((&k, &m[k])));
                let i = choose|i: int| 0 <= i < all.len() && all[i] == (&k, &m[k]);
                assert(place(list@[i].0) == c);
            }
            assert forall|i: int, j: int| 0 <= i < j < list.len() implies precedes(
                place(#[trigger] list@[i].0),
                place(#[trigger] list@[j].0),
            ) by {
                assert(vstd::std_specs::cmp::OrdSpec::cmp_spec(&keys[i], &keys[j]) is Less);
                assert(keys[i] == *all[i].0 && keys[j] == *all[j].0);
            }
        }
        list
    }
}

/// `list` is what `m` holds, each cell once, in reading order.
pub open spec fn lists<V>(m: Map<(int, int), V>, list: Seq<((i32, i32), V)>) -> bool {
    &&& forall|i: int|
        0 <= i < list.len() ==> {
            &&& m.contains_key(place(#[trigger] list[i].0))
            &&& m[place(list[i].0)] == list[i].1
        }
    &&& forall|c: (int, int)|
        #[trigger] m.contains_key(c) ==> exists|i: int|
            0 <= i < list.len() && place(#[trigger] list[i].0) == c
    &&& forall|i: int, j: int|
        0 <= i < j < list.len() ==> precedes(
            place(#[trigger] list[i].0),
            place(#[trigger] list[j].0),
        )
}

/// How many of the first `k` entries hold a value that `wanted` picks.
pub open spec fn tally<V>(
    list: Seq<((i32, i32), V)>,
    wanted: spec_fn(V) -> bool,
    k: nat,
) -> nat
    decreases k,
{
    if k == 0 {
        0
    } else {
        tally(list, wanted, (k - 1) as nat) + (if wanted(list[k - 1].1) {
            1nat
        } else {
            0
        })
    }
}

/// The cells of a map whose values `wanted` picks.
pub open spec fn picked<V>(m: Map<(int, int), V>, wanted: spec_fn(V) -> bool) -> Set<(int, int)> {
    m.dom().filter(|c: (int, int)| wanted(m[c]))
}

spec fn picked_early<V>(
    list: Seq<((i32, i32), V)>,
    wanted: spec_fn(V) -> bool,
    k: nat,
) -> Set<(int, int)>
    decreases k,
{
    if k == 0 {
        Set::empty()
    } else if wanted(list[k - 1].1) {
        picked_early(list, wanted, (k - 1) as nat).insert(place(list[k - 1].0))
    } else {
        picked_early(list, wanted, (k - 1) as nat)
    }
}

proof fn lemma_picked_early<V>(
    m: Map<(int, int), V>,
    list: Seq<((i32, i32), V)>,
    wanted: spec_fn(V) -> bool,
    k: nat,
)
    requires
        lists(m, list),
        k <= list.len(),
    ensures
        picked_early(list, wanted, k).finite(),
        picked_early(list, wanted, k).len() == tally(list, wanted, k),
        forall|c: (int, int)| #[trigger]
            picked_early(list, wanted, k).contains(c) <==> exists|j: int|
                0 <= j < k && place(#[trigger] list[j].0) == c && wanted(list[j].1),
    decreases k,
{
    if k > 0 {
        let before = picked_early(list, wanted, (k - 1) as nat);
        lemma_picked_early(m, list, wanted, (k - 1) as nat);
        let last = place(list[k - 1].0);
        assert(!before.contains(last)) by {
            if before.contains(last) {
                let j = choose|j: int|
                    0 <= j < k - 1 && place(#[trigger] list[j].0) == last && wanted(list[j].1);
                assert(precedes(place(list[j].0), place(list[k - 1].0)));
            }
        }
        assert forall|c: (int, int)| #[trigger]
            picked_early(list, wanted, k).contains(c) <==> exists|j: int|
                0 <= j < k && place(#[trigger] list[j].0) == c && wanted(list[j].1) by {
            if before.contains(c) {
                let j = choose|j: int|
                    0 <= j < k - 1 && place(#[trigger] list[j].0) == c && wanted(list[j].1);
                assert(0 <= j < k);
            }
        }
    }
}

/// Counting along the list counts the cells.
pub proof fn lemma_tally<V>(
    m: Map<(int, int), V>,
    list: Seq<((i32, i32), V)>,
    wanted: spec_fn(V) -> bool,
)
    requires
        lists(m, list),
    ensures
        picked(m, wanted).finite(),
        picked(m, wanted).len() == tally(list, wanted, list.len()),
{
    lemma_picked_early(m, list, wanted, list.len());
    let early = picked_early(list, wanted, list.len());
    assert forall|c: (int, int)| picked(m, wanted).contains(c) <==> early.contains(c) by {
        if picked(m, wanted).contains(c) {
            assert(m.contains_key(c));
            let j = choose|j: int| 0 <= j < list.len() && place(#[trigger] list[j].0) == c;
            assert(m[place(list[j].0)] == list[j].1);
        }
        if early.contains(c) {
            let j = choose|j: int|
                0 <= j < list.len() && place(#[trigger] list[j].0) == c && wanted(list[j].1);
            assert(m.contains_key(place(list[j].0)));
        }
    }
    assert(picked(m, wanted) =~= early);
}

/// Listed cells as places.
pub open spec fn cells_of(s: Seq<(i32, i32)>) -> Seq<(int, int)> {
    s.map_values(|c: (i32, i32)| place(c))
}

impl<V: Copy> Sparse<V> {
    /// The cells whose values `pick` picks, in reading order.
    pub(crate) fn select<F: Fn(V) -> bool>(
        &self,
        pick: F,
        Ghost(wanted): Ghost<spec_fn(V) -> bool>,
    ) -> (cells: Vec<(i32, i32)>)
        requires
            forall|v: V| #[trigger] call_requires(pick, (v,)),
            forall|v: V, r: bool| #[trigger] call_ensures(pick, (v,), r) ==> r == wanted(v),
        ensures
            cells_of(cells@).to_set() == picked(self@, wanted),
            cells.len() == picked(self@, wanted).len(),
            in_order(cells@),
    {
        let list = self.entries();
        let mut cells: Vec<(i32, i32)> = Vec::new();
        let n: usize = list.len();
        let mut i: usize = 0;
        while i < n
            invariant
                n == list.len(),
                i <= n,
                lists(self@, list@),
                forall|v: V| #[trigger] call_requires(pick, (v,)),
                forall|v: V, r: bool| #[trigger] call_ensures(pick, (v,), r) ==> r == wanted(v),
                cells.len() == tally(list@, wanted, i as nat),
                forall|j: int|
                    0 <= j < cells.len() ==> is_pick(list@, wanted, i as int, #[trigger] cells@[j]),
                forall|k: int|
                    0 <= k < i && wanted((#[trigger] list@[k]).1) ==> cells@.contains(list@[k].0),
                in_order(cells@),
            decreases n - i,
        {
            let (c, v) = list[i];
            let ghost before = cells@;
            if pick(v) {
                proof {
                    assert forall|j: int| 0 <= j < cells.len() implies precedes(
                        place(#[trigger] cells@[j]),
                        place(c),
                    ) by {
                        let k = choose|k: int|
                            0 <= k < i && (#[trigger] list@[k]).0 == cells@[j] && wanted(
                                list@[k].1,
                            );
                        assert(precedes(place(list@[k].0), place(list@[i as int].0)));
                    }
                }
                cells.push(c);
                proof {
                    assert(list@[i as int] == (c, v));
                    assert forall|k: int|
                        0 <= k < i + 1 && wanted((#[trigger] list@[k]).1) implies cells@.contains(
                        list@[k].0,
                    ) by {
                        if k < i {
                            let j = choose|j: int| 0 <= j < before.len() && before[j] == list@[k].0;
                            assert(cells@[j] == list@[k].0);
                        } else {
                            assert(cells@[before.len() as int] == c);
                        }
                    }
                }
            }
            proof {
                assert forall|j: int| 0 <= j < cells.len() implies is_pick(
                    list@,
                    wanted,
                    i + 1,
                    #[trigger] cells@[j],
                ) by {
                    assert(list@[i as int] == (c, v));
                    if j < before.len() {
                        assert(is_pick(list@, wanted, i as int, before[j]));
                    }
                }
            }
            i += 1;
        }
        proof {
            lemma_tally(self@, list@, wanted);
            let s = cells_of(cells@).to_set();
            assert forall|c: (int, int)| #[trigger] s.contains(c) <==> picked(
                self@,
                wanted,
            ).contains(c) by {
                if s.contains(c) {
                    let j = choose|j: int| 0 <= j < cells.len() && cells_of(cells@)[j] == c;
                    assert(place(cells@[j]) == c);
                    let k = choose|k: int|
                        0 <= k < n && (#[trigger] list@[k]).0 == cells@[j] && wanted(list@[k].1);
                    assert(self@.contains_key(place(list@[k].0)));
                }
                if picked(self@, wanted).contains(c) {
                    assert(self@.contains_key(c));
                    let k = choose|k: int| 0 <= k < list@.len() && place(#[trigger] list@[k].0) == c;
                    assert(self@[place(list@[k].0)] == list@[k].1);
                    let j = choose|j: int| 0 <= j < cells.len() && cells@[j] == list@[k].0;
                    assert(cells_of(cells@)[j] == c);
                }
            }
            assert(s =~= picked(self@, wanted));
        }
        cells
    }
}

/// `c` is one of the first `n` cells listed, with a value that `wanted` picks.
spec fn is_pick<V>(
    list: Seq<((i32, i32), V)>,
    wanted: spec_fn(V) -> bool,
    n: int,
    c: (i32, i32),
) -> bool {
    exists|k: int| 0 <= k < n && (#[trigger] list[k]).0 == c && wanted(list[k].1)
}

/// Cells listed in reading order.
pub open spec fn in_order(cells: Seq<(i32, i32)>) -> bool {
    forall|i: int, j: int|
        0 <= i < j < cells.len() ==> precedes(place(#[trigger] cells[i]), place(#[trigger] cells[j]))
}

} // verus!

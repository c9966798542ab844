use vstd::prelude::*;

use crate::coord::{cells, Coord};

verus! {

/// The tiles on the board: at most one handle per cell.
pub struct Board<H> {
    coords: Vec<Coord>,
    handles: Vec<H>,
}

/// Where the cell `k` stands in `s`.
pub open spec fn index_of(s: Seq<Coord>, k: (int, int)) -> int {
    choose|i: int| 0 <= i < s.len() && s[i]@ == k
}

impl<H> View for Board<H> {
    type V = Map<(int, int), H>;

    closed spec fn view(&self) -> Map<(int, int), H> {
        Map::new(
            |k: (int, int)| cells(self.coords@).contains(k),
            |k: (int, int)| self.handles@[index_of(self.coords@, k)],
        )
    }
}

impl<H> Board<H> {
    pub closed spec fn well_formed(&self) -> bool {
        &&& self.coords.len() == self.handles.len()
        &&& self.coords@.no_duplicates()
    }

    pub fn new() -> (b: Board<H>)
        ensures
            b.well_formed(),
            b@ == Map::<(int, int), H>::empty(),
    {
        let b = Board { coords: Vec::new(), handles: Vec::new() };
        assert(b@ =~= Map::<(int, int), H>::empty());
        b
    }

    fn find(&self, c: Coord) -> (r: Option<usize>)
        requires
            self.well_formed(),
        ensures
            match r {
                Some(i) => i < self.coords.len() && self.coords[i as int] == c,
                None => !cells(self.coords@).contains(c@),
            },
    {
        let mut i: usize = 0;
        while i < self.coords.len()
            invariant
                i <= self.coords.len(),
                forall|j: int| 0 <= j < i ==> self.coords[j]@ != c@,
            decreases self.coords.len() - i,
        {
            if self.coords[i] == c {
                return Some(i);
            }
            i += 1;
        }
        None
    }

    proof fn lemma_index_of(&self, i: int)
        requires
            self.well_formed(),
            0 <= i < self.coords.len(),
        ensures
            index_of(self.coords@, self.coords[i]@) == i,
            cells(self.coords@).contains(self.coords[i]@),
    {
        let k = self.coords[i]@;
        assert(self.coords@[i]@ == k);
        let j = index_of(self.coords@, k);
        assert(self.coords@[j] == self.coords@[i]);
    }

    /// Whether a tile stands on `c`.
    pub fn contains(&self, c: Coord) -> (b: bool)
        requires
            self.well_formed(),
        ensures
            b == self@.contains_key(c@),
    {
        self.find(c).is_some()
    }

    /// The handle of the tile on `c`, if any.
    pub fn get(&self, c: Coord) -> (r: Option<&H>)
        requires
            self.well_formed(),
        ensures
            r matches Some(h) ==> self@.contains_key(c@) && *h == self@[c@],
            r is None ==> !self@.contains_key(c@),
    {
        match self.find(c) {
            Some(i) => {
                proof {
                    self.lemma_index_of(i as int);
                }
                Some(&self.handles[i])
            },
            None => None,
        }
    }

    /// Puts the tile `h` on `c` and hands back the tile that stood there, for
    /// the caller to release.
    pub fn place(&mut self, c: Coord, h: H) -> (previous: Option<H>)
        requires
            old(self).well_formed(),
        ensures
            final(self).well_formed(),
            final(self)@ == old(self)@.insert(c@, h),
            previous matches Some(p) ==> old(self)@.contains_key(c@) && p == old(self)@[c@],
            previous is None ==> !old(self)@.contains_key(c@),
    {
        let ghost before = *self;
        match self.find(c) {
            Some(i) => {
                proof {
                    before.lemma_index_of(i as int);
                }
                let p = self.handles.remove(i);
                self.handles.insert(i, h);
                assert(self.handles@ =~= before.handles@.update(i as int, h));
                assert forall|k: (int, int)| #[trigger] cells(self.coords@).contains(k) && k != c@
                    implies index_of(self.coords@, k) != i by {
                    let j = index_of(self.coords@, k);
                    assert(self.coords@[j]@ == k);
                }
                assert(self@ =~= before@.insert(c@, h));
                Some(p)
            },
            None => {
                self.coords.push(c);
                self.handles.push(h);
                let ghost n = before.coords.len() as int;
                assert(self.coords@[n] == c);
                assert forall|k: (int, int)| #[trigger] cells(self.coords@).contains(k) <==> cells(
                    before.coords@,
                ).contains(k) || k == c@ by {
                    if cells(self.coords@).contains(k) && k != c@ {
                        let j = choose|j: int| 0 <= j < self.coords.len() && self.coords@[j]@ == k;
                        assert(before.coords@[j]@ == k);
                    }
                    if cells(before.coords@).contains(k) {
                        let j = choose|j: int| 0 <= j < before.coords.len() && before.coords@[j]@ == k;
                        assert(self.coords@[j]@ == k);
                    }
                }
                assert(self.coords@.no_duplicates()) by {
                    assert forall|a: int, b: int| 0 <= a < b < self.coords.len() implies self.coords@[a]
                        != self.coords@[b] by {
                        if b == n {
                            if self.coords@[a] == c {
                                assert(before.coords@[a]@ == c@);
                            }
                        } else {
                            assert(before.coords@[a] != before.coords@[b]);
                        }
                    }
                }
                proof {
                    self.lemma_index_of(n);
                }
                assert forall|k: (int, int)| #[trigger] cells(before.coords@).contains(k) implies index_of(
                    self.coords@,
                    k,
                ) == index_of(before.coords@, k) by {
                    let j = index_of(before.coords@, k);
                    assert(self.coords@[j]@ == k);
                    self.lemma_index_of(j);
                }
                assert(self@ =~= before@.insert(c@, h));
                None
            },
        }
    }

    /// The occupied cells, each once.
    pub fn coords(&self) -> (r: Vec<Coord>)
        requires
            self.well_formed(),
        ensures
            cells(r@) == self@.dom(),
            r@.no_duplicates(),
    {
        let r = self.coords.clone();
        assert(r@ =~= self.coords@);
        assert(cells(r@) =~= self@.dom());
        r
    }

    /// Whether no tile is on the board.
    pub fn is_empty(&self) -> (b: bool)
        requires
            self.well_formed(),
        ensures
            b == (self@.dom() == Set::<(int, int)>::empty()),
    {
        if self.coords.len() == 0 {
            assert(self@.dom() =~= Set::<(int, int)>::empty());
            true
        } else {
            assert(self@.dom().contains(self.coords@[0]@));
            false
        }
    }
}

} // verus!

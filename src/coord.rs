use vstd::prelude::*;

verus! {

/// A cell of the hexagonal board in axial coordinates.
///
/// The third cube coordinate `s` satisfies `q + r + s == 0` and is never stored.
#[derive(Clone, Copy, Debug, PartialEq, Eq, Hash, Structural)]
pub struct Coord {
    pub q: i32,
    pub r: i32,
}

impl View for Coord {
    type V = (int, int);

    open spec fn view(&self) -> (int, int) {
        (self.q as int, self.r as int)
    }
}

pub open spec fn abs(x: int) -> int {
    if x < 0 {
        -x
    } else {
        x
    }
}

/// The number of steps between two cells: the largest of the three cube
/// coordinate differences.
pub open spec fn axial_distance(a: (int, int), b: (int, int)) -> int {
    let dq = abs(a.0 - b.0);
    let dr = abs(a.1 - b.1);
    let ds = abs((a.0 + a.1) - (b.0 + b.1));
    if dq >= dr && dq >= ds {
        dq
    } else if dr >= ds {
        dr
    } else {
        ds
    }
}

pub open spec fn adjacent(a: (int, int), b: (int, int)) -> bool {
    axial_distance(a, b) == 1
}

/// The six neighbours of a cell, in the fixed cyclic order
/// `(+1,0), (+1,-1), (0,-1), (-1,0), (-1,1), (0,1)`.
pub open spec fn neighbours_of(c: (int, int)) -> Seq<(int, int)> {
    seq![
        (c.0 + 1, c.1),
        (c.0 + 1, c.1 - 1),
        (c.0, c.1 - 1),
        (c.0 - 1, c.1),
        (c.0 - 1, c.1 + 1),
        (c.0, c.1 + 1),
    ]
}

/// The cells that a sequence of coordinates names.
pub open spec fn cells(s: Seq<Coord>) -> Set<(int, int)> {
    Set::new(|p: (int, int)| exists|i: int| 0 <= i < s.len() && s[i]@ == p)
}

/// The frontier of a set of occupied cells: the free cells next to an occupied one.
pub open spec fn outline_of(occupied: Set<(int, int)>) -> Set<(int, int)> {
    Set::new(
        |c: (int, int)|
            !occupied.contains(c) && exists|h: (int, int)| occupied.contains(h) && adjacent(h, c),
    )
}

impl Coord {
    /// Whether all six neighbours of this cell have coordinates that fit in `i32`.
    pub open spec fn is_interior(&self) -> bool {
        i32::MIN < self.q < i32::MAX && i32::MIN < self.r < i32::MAX
    }

    pub fn new(q: i32, r: i32) -> (c: Coord)
        ensures
            c.q == q,
            c.r == r,
    {
        Coord { q, r }
    }

    /// The implicit third cube coordinate.
    pub fn s(&self) -> (s: i64)
        ensures
            s == -(self.q + self.r),
    {
        -(self.q as i64 + self.r as i64)
    }

    pub fn neighbours(&self) -> (ns: Vec<Coord>)
        requires
            self.is_interior(),
        ensures
            ns.len() == 6,
            forall|k: int| 0 <= k < 6 ==> #[trigger] ns[k]@ == neighbours_of(self@)[k],
    {
        let (q, r) = (self.q, self.r);
        let ns = vec![
            Coord::new(q + 1, r),
            Coord::new(q + 1, r - 1),
            Coord::new(q, r - 1),
            Coord::new(q - 1, r),
            Coord::new(q - 1, r + 1),
            Coord::new(q, r + 1),
        ];
        assert(forall|k: int| 0 <= k < 6 ==> #[trigger] ns[k]@ == neighbours_of(self@)[k]) by {
            assert(ns[0]@ == neighbours_of(self@)[0]);
            assert(ns[1]@ == neighbours_of(self@)[1]);
            assert(ns[2]@ == neighbours_of(self@)[2]);
            assert(ns[3]@ == neighbours_of(self@)[3]);
            assert(ns[4]@ == neighbours_of(self@)[4]);
            assert(ns[5]@ == neighbours_of(self@)[5]);
        }
        ns
    }
}

/// Adjacency is exactly membership among the six neighbours.
pub proof fn lemma_adjacent_iff_neighbour(a: (int, int), b: (int, int))
    ensures
        adjacent(a, b) <==> neighbours_of(a).contains(b),
{
    let ns = neighbours_of(a);
    if adjacent(a, b) {
        if b == (a.0 + 1, a.1) {
            assert(ns[0] == b);
        } else if b == (a.0 + 1, a.1 - 1) {
            assert(ns[1] == b);
        } else if b == (a.0, a.1 - 1) {
            assert(ns[2] == b);
        } else if b == (a.0 - 1, a.1) {
            assert(ns[3] == b);
        } else if b == (a.0 - 1, a.1 + 1) {
            assert(ns[4] == b);
        } else {
            assert(b == (a.0, a.1 + 1));
            assert(ns[5] == b);
        }
    }
    if ns.contains(b) {
        let k = choose|k: int| 0 <= k < ns.len() && ns[k] == b;
        assert(0 <= k < 6);
        assert(adjacent(a, b));
    }
}

/// Every cell has exactly six distinct neighbours, each at distance one, and
/// each of them has the cell among its own neighbours.
pub proof fn lemma_neighbours(c: (int, int))
    ensures
        neighbours_of(c).len() == 6,
        neighbours_of(c).no_duplicates(),
        forall|k: int| 0 <= k < 6 ==> axial_distance(c, #[trigger] neighbours_of(c)[k]) == 1,
        forall|k: int| 0 <= k < 6 ==> neighbours_of(#[trigger] neighbours_of(c)[k]).contains(c),
        forall|d: (int, int)| adjacent(c, d) <==> #[trigger] neighbours_of(c).contains(d),
{
    let ns = neighbours_of(c);
    assert forall|k: int| 0 <= k < 6 implies axial_distance(c, #[trigger] ns[k]) == 1
        && neighbours_of(ns[k]).contains(c) by {
        lemma_adjacent_iff_neighbour(ns[k], c);
    }
    assert forall|d: (int, int)| adjacent(c, d) <==> #[trigger] ns.contains(d) by {
        lemma_adjacent_iff_neighbour(c, d);
    }
}


/// Whether `c` occurs in `v`.
fn contains(v: &[Coord], c: Coord) -> (b: bool)
    ensures
        b == cells(v@).contains(c@),
{
    let mut i: usize = 0;
    while i < v.len()
        invariant
            i <= v.len(),
            forall|j: int| 0 <= j < i ==> v[j]@ != c@,
        decreases v.len() - i,
    {
        if v[i] == c {
            assert(v@[i as int]@ == c@);
            return true;
        }
        i += 1;
    }
    false
}

/// The free cells next to the occupied ones, each once.
///
/// The order follows the occupied cells and, for each, the cyclic order of its
/// neighbours; callers that need another order sort the result.
pub fn outline(hexes: &[Coord]) -> (out: Vec<Coord>)
    requires
        forall|i: int| 0 <= i < hexes.len() ==> #[trigger] hexes[i].is_interior(),
    ensures
        cells(out@) == outline_of(cells(hexes@)),
        out@.no_duplicates(),
{
    let ghost occupied = cells(hexes@);
    let mut out: Vec<Coord> = Vec::new();
    let mut i: usize = 0;
    while i < hexes.len()
        invariant
            i <= hexes.len(),
            occupied == cells(hexes@),
            forall|j: int| 0 <= j < hexes.len() ==> #[trigger] hexes[j].is_interior(),
            out@.no_duplicates(),
            forall|k: int| 0 <= k < out.len() ==> outline_of(occupied).contains(#[trigger] out[k]@),
            forall|j: int, k: int|
                0 <= j < i && 0 <= k < 6 && !occupied.contains(
                    #[trigger] neighbours_of(hexes[j]@)[k],
                ) ==> cells(out@).contains(neighbours_of(hexes[j]@)[k]),
        decreases hexes.len() - i,
    {
        let h = hexes[i];
        assert(occupied.contains(h@)) by {
            assert(hexes@[i as int]@ == h@);
        }
        proof {
            lemma_neighbours(h@);
        }
        let ns = h.neighbours();
        let mut k: usize = 0;
        while k < 6
            invariant
                k <= 6,
                i < hexes.len(),
                h == hexes[i as int],
                occupied == cells(hexes@),
                occupied.contains(h@),
                ns.len() == 6,
                forall|m: int| 0 <= m < 6 ==> #[trigger] ns[m]@ == neighbours_of(h@)[m],
                forall|m: int| 0 <= m < 6 ==> axial_distance(h@, #[trigger] neighbours_of(h@)[m]) == 1,
                out@.no_duplicates(),
                forall|m: int| 0 <= m < out.len() ==> outline_of(occupied).contains(#[trigger] out[m]@),
                forall|j: int, m: int|
                    0 <= j < i && 0 <= m < 6 && !occupied.contains(
                        #[trigger] neighbours_of(hexes[j]@)[m],
                    ) ==> cells(out@).contains(neighbours_of(hexes[j]@)[m]),
                forall|m: int|
                    0 <= m < k && !occupied.contains(#[trigger] neighbours_of(h@)[m])
                        ==> cells(out@).contains(neighbours_of(h@)[m]),
            decreases 6 - k,
        {
            let n = ns[k];
            assert(n@ == neighbours_of(h@)[k as int]);
            let taken = contains(hexes, n);
            let seen = contains(out.as_slice(), n);
            if !taken && !seen {
                let ghost before = out@;
                assert(adjacent(h@, n@));
                assert(outline_of(occupied).contains(n@));
                out.push(n);
                assert(out@[before.len() as int] == n);
                assert forall|a: int, b: int| 0 <= a < b < out.len() implies out@[a] != out@[b] by {
                    if b == before.len() {
                        if out@[a] == n {
                            assert(cells(before).contains(n@));
                        }
                    } else {
                        assert(before[a] != before[b]);
                    }
                }
                assert forall|p: (int, int)| cells(before).contains(p) implies cells(out@).contains(p) by {
                    let w = choose|w: int| 0 <= w < before.len() && before[w]@ == p;
                    assert(out@[w]@ == p);
                }
                assert(cells(out@).contains(n@));
            }
            k += 1;
        }
        i += 1;
    }
    assert forall|c: (int, int)| outline_of(occupied).contains(c) implies cells(out@).contains(c) by {
        let h = choose|h: (int, int)| occupied.contains(h) && adjacent(h, c);
        let j = choose|j: int| 0 <= j < hexes.len() && hexes@[j]@ == h;
        lemma_adjacent_iff_neighbour(h, c);
        let m = choose|m: int| 0 <= m < neighbours_of(h).len() && neighbours_of(h)[m] == c;
        assert(neighbours_of(hexes[j]@)[m] == c);
    }
    assert forall|c: (int, int)| cells(out@).contains(c) implies outline_of(occupied).contains(c) by {
        let w = choose|w: int| 0 <= w < out.len() && out@[w]@ == c;
        assert(outline_of(occupied).contains(out[w]@));
    }
    assert(cells(out@) =~= outline_of(occupied));
    out
}

/// The outline never holds an occupied cell, and each of its cells is next to
/// an occupied one.
pub proof fn lemma_outline_sound(occupied: Set<(int, int)>)
    ensures
        outline_of(occupied).disjoint(occupied),
        forall|c: (int, int)|
            #[trigger] outline_of(occupied).contains(c) ==> exists|h: (int, int)|
                occupied.contains(h) && neighbours_of(h).contains(c),
{
    assert forall|c: (int, int)| #[trigger] outline_of(occupied).contains(c) implies exists|
        h: (int, int),
    | occupied.contains(h) && neighbours_of(h).contains(c) by {
        let h = choose|h: (int, int)| occupied.contains(h) && adjacent(h, c);
        lemma_adjacent_iff_neighbour(h, c);
    }
}

/// An empty board has an empty outline.
pub proof fn lemma_outline_empty()
    ensures
        outline_of(Set::empty()) == Set::<(int, int)>::empty(),
{
    assert(outline_of(Set::empty()) =~= Set::<(int, int)>::empty());
}

/// An index of a cell with the largest `q` among those of a non-empty sequence.
pub open spec fn index_of_max_q(s: Seq<Coord>) -> int
    decreases s.len(),
{
    if s.len() <= 1 {
        0
    } else {
        let i = index_of_max_q(s.drop_last());
        if s.last().q > s[i].q {
            s.len() - 1
        } else {
            i
        }
    }
}

proof fn lemma_index_of_max_q(s: Seq<Coord>)
    requires
        s.len() > 0,
    ensures
        0 <= index_of_max_q(s) < s.len(),
        forall|j: int| 0 <= j < s.len() ==> (#[trigger] s[j]).q <= s[index_of_max_q(s)].q,
    decreases s.len(),
{
    if s.len() > 1 {
        lemma_index_of_max_q(s.drop_last());
        let i = index_of_max_q(s.drop_last());
        assert forall|j: int| 0 <= j < s.len() - 1 implies s[j].q <= s[i].q by {
            assert(s.drop_last()[j] == s[j]);
        }
    }
}

/// A non-empty board always has a free cell next to it: the cell beyond the
/// one with the largest `q`.
pub proof fn lemma_outline_nonempty(hexes: Seq<Coord>)
    requires
        hexes.len() > 0,
    ensures
        exists|c: (int, int)| #[trigger] outline_of(cells(hexes)).contains(c),
{
    lemma_index_of_max_q(hexes);
    let m = hexes[index_of_max_q(hexes)]@;
    let c = (m.0 + 1, m.1);
    assert(cells(hexes).contains(m));
    assert(adjacent(m, c));
    assert(!cells(hexes).contains(c)) by {
        if cells(hexes).contains(c) {
            let w = choose|w: int| 0 <= w < hexes.len() && hexes[w]@ == c;
            assert(hexes[w].q <= hexes[index_of_max_q(hexes)].q);
        }
    }
    assert(outline_of(cells(hexes)).contains(c));
}

} // verus!

use vstd::prelude::*;

verus! {

/// A vector in fixed point: each component counts millionths.
#[derive(Clone, Copy, Debug, PartialEq, Eq, Hash, Structural)]
pub struct Fixed3 {
    pub x: i64,
    pub y: i64,
    pub z: i64,
}

/// One triangle corner before welding: where it is and which way its face looks.
#[derive(Clone, Copy, Debug, PartialEq, Eq, Hash, Structural)]
pub struct VertexKey {
    pub position: Fixed3,
    pub normal: Fixed3,
}

/// Triangle corners gathered three at a time, not yet shared between triangles.
pub struct MeshBuilder {
    pub corners: Vec<VertexKey>,
}

/// An indexed triangle list: `positions` and `normals` run in parallel and
/// every three entries of `indices` name the corners of one triangle.
pub struct IndexedMesh {
    pub positions: Vec<Fixed3>,
    pub normals: Vec<Fixed3>,
    pub indices: Vec<u32>,
}

impl IndexedMesh {
    /// The vertices of the mesh as (position, normal) pairs.
    pub open spec fn vertices(&self) -> Seq<VertexKey> {
        Seq::new(
            self.positions.len() as nat,
            |j: int| VertexKey { position: self.positions[j], normal: self.normals[j] },
        )
    }

    pub open spec fn well_formed(&self) -> bool {
        &&& self.positions.len() == self.normals.len()
        &&& forall|i: int| 0 <= i < self.indices.len() ==> #[trigger] self.indices[i] < self.positions.len()
    }

    /// The corner sequence that the mesh spells out, one entry per index.
    pub open spec fn corners(&self) -> Seq<VertexKey> {
        Seq::new(self.indices.len() as nat, |i: int| self.vertices()[self.indices[i] as int])
    }
}

/// The distinct corners of `s` in the order in which they first occur.
pub open spec fn welded(s: Seq<VertexKey>) -> Seq<VertexKey>
    decreases s.len(),
{
    if s.len() == 0 {
        seq![]
    } else {
        let w = welded(s.drop_last());
        if w.contains(s.last()) {
            w
        } else {
            w.push(s.last())
        }
    }
}

/// Welding keeps each corner once, keeps nothing else, and never grows.
pub proof fn lemma_welded(s: Seq<VertexKey>)
    ensures
        welded(s).no_duplicates(),
        welded(s).len() <= s.len(),
        forall|v: VertexKey| #[trigger] welded(s).contains(v) <==> s.contains(v),
    decreases s.len(),
{
    if s.len() > 0 {
        let p = s.drop_last();
        lemma_welded(p);
        assert forall|v: VertexKey| #[trigger] s.contains(v) <==> p.contains(v) || v == s.last() by {
            if s.contains(v) {
                let i = choose|i: int| 0 <= i < s.len() && s[i] == v;
                if i < s.len() - 1 {
                    assert(p[i] == v);
                }
            }
            if p.contains(v) {
                let i = choose|i: int| 0 <= i < p.len() && p[i] == v;
                assert(s[i] == v);
            }
            if v == s.last() {
                assert(s[s.len() - 1] == v);
            }
        }
        let w = welded(p);
        if !w.contains(s.last()) {
            let w2 = w.push(s.last());
            assert forall|v: VertexKey| #[trigger] w2.contains(v) <==> w.contains(v) || v == s.last() by {
                if w2.contains(v) {
                    let i = choose|i: int| 0 <= i < w2.len() && w2[i] == v;
                    if i < w.len() {
                        assert(w[i] == v);
                    }
                }
                if w.contains(v) {
                    let i = choose|i: int| 0 <= i < w.len() && w[i] == v;
                    assert(w2[i] == v);
                }
                if v == s.last() {
                    assert(w2[w.len() as int] == v);
                }
            }
        }
    }
}

/// Where `k` stands in `keys`, if anywhere.
fn find_key(keys: &Vec<VertexKey>, k: VertexKey) -> (r: Option<usize>)
    ensures
        match r {
            Some(j) => j < keys.len() && keys[j as int] == k,
            None => !keys@.contains(k),
        },
{
    let mut j: usize = 0;
    while j < keys.len()
        invariant
            j <= keys.len(),
            forall|m: int| 0 <= m < j ==> keys[m] != k,
        decreases keys.len() - j,
    {
        if keys[j] == k {
            return Some(j);
        }
        j += 1;
    }
    None
}

impl MeshBuilder {
    pub fn new() -> (b: MeshBuilder)
        ensures
            b.corners@ == Seq::<VertexKey>::empty(),
    {
        MeshBuilder { corners: Vec::new() }
    }

    /// Adds one flat-shaded triangle: its three corners share the face normal.
    pub fn add_triangle(&mut self, points: [Fixed3; 3], normal: Fixed3)
        ensures
            final(self).corners@ == old(self).corners@ + seq![
                (VertexKey { position: points[0], normal }),
                (VertexKey { position: points[1], normal }),
                (VertexKey { position: points[2], normal }),
            ],
    {
        let ghost before = self.corners@;
        self.corners.push(VertexKey { position: points[0], normal });
        self.corners.push(VertexKey { position: points[1], normal });
        self.corners.push(VertexKey { position: points[2], normal });
        assert(self.corners@ =~= before + seq![
            VertexKey { position: points[0], normal },
            VertexKey { position: points[1], normal },
            VertexKey { position: points[2], normal },
        ]);
    }

    /// Welds equal corners into one vertex and indexes the triangles by them.
    ///
    /// Vertices come in the order of their first corner.
    pub fn build(self) -> (m: IndexedMesh)
        requires
            self.corners.len() <= u32::MAX,
        ensures
            m.well_formed(),
            m.vertices() == welded(self.corners@),
            m.indices.len() == self.corners.len(),
            m.corners() == self.corners@,
            forall|i: int, j: int|
                0 <= i < m.indices.len() && 0 <= j < m.indices.len() ==> (m.indices[i]
                    == m.indices[j] <==> self.corners[i] == self.corners[j]),
    {
        weld(&self.corners)
    }
}

/// Welds equal corners of `corners` into one vertex each; see [`MeshBuilder::build`].
fn weld(corners: &Vec<VertexKey>) -> (m: IndexedMesh)
    requires
        corners.len() <= u32::MAX,
    ensures
        m.well_formed(),
        m.vertices() == welded(corners@),
        m.indices.len() == corners.len(),
        m.corners() == corners@,
        forall|i: int, j: int|
            0 <= i < m.indices.len() && 0 <= j < m.indices.len() ==> (m.indices[i] == m.indices[j]
                <==> corners[i] == corners[j]),
{
    let mut keys: Vec<VertexKey> = Vec::new();
    let mut positions: Vec<Fixed3> = Vec::new();
    let mut normals: Vec<Fixed3> = Vec::new();
    let mut indices: Vec<u32> = Vec::new();
    let mut i: usize = 0;
    while i < corners.len()
        invariant
            i <= corners.len(),
            corners.len() <= u32::MAX,
            keys@ == welded(corners@.subrange(0, i as int)),
            keys.len() <= i,
            positions.len() == keys.len(),
            normals.len() == keys.len(),
            forall|j: int|
                0 <= j < keys.len() ==> #[trigger] keys[j] == (VertexKey {
                    position: positions[j],
                    normal: normals[j],
                }),
            indices.len() == i,
            forall|m: int|
                0 <= m < i ==> #[trigger] indices[m] < keys.len() && keys[indices[m] as int]
                    == corners[m],
        decreases corners.len() - i,
    {
        let c = corners[i];
        let ghost prefix = corners@.subrange(0, i as int);
        let ghost next = corners@.subrange(0, i as int + 1);
        assert(next.drop_last() =~= prefix);
        assert(next.last() == c);
        proof {
            lemma_welded(prefix);
        }
        match find_key(&keys, c) {
            Some(j) => {
                indices.push(j as u32);
            },
            None => {
                let j = keys.len();
                keys.push(c);
                positions.push(c.position);
                normals.push(c.normal);
                indices.push(j as u32);
            },
        }
        i += 1;
    }
    assert(corners@.subrange(0, corners.len() as int) =~= corners@);
    proof {
        lemma_welded(corners@);
    }
    let m = IndexedMesh { positions, normals, indices };
    assert(m.vertices() =~= welded(corners@));
    assert(m.corners() =~= corners@);
    assert forall|a: int, b: int|
        0 <= a < m.indices.len() && 0 <= b < m.indices.len() && corners[a] == corners[b] implies m.indices[a]
        == m.indices[b] by {
        let w = welded(corners@);
        assert(w[m.indices[a] as int] == w[m.indices[b] as int]);
    }
    m
}

} // verus!

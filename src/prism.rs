use vstd::prelude::*;

use itertools::Itertools;

use crate::mesh::{welded, lemma_welded, Fixed3, IndexedMesh, MeshBuilder, VertexKey};

verus! {

/// The largest number of sides for which every index of the mesh fits in `u32`.
pub const MAX_SIDES: u32 = 0x1000_0000;

/// The outer points of a prism over an `n`-gon are numbered side by side:
/// the top corner of side `i` is `2 * i`, its bottom corner `2 * i + 1`.
pub open spec fn top(i: int) -> int {
    2 * i
}

pub open spec fn bottom(i: int) -> int {
    2 * i + 1
}

/// The two triangles of the side face from side `j` to the next side, wound
/// so that the face looks away from the axis.
pub open spec fn side_face(n: int, j: int) -> Seq<(int, int, int)> {
    let k = (j + 1) % n;
    seq![(top(j), bottom(k), bottom(j)), (top(j), top(k), bottom(k))]
}

/// The top and bottom cap triangles of the fan from side 0 over sides `i` and `i + 1`.
pub open spec fn cap_pair(i: int) -> Seq<(int, int, int)> {
    seq![(top(0), top(i + 1), top(i)), (bottom(0), bottom(i), bottom(i + 1))]
}

/// The side faces of the first `j` sides.
pub open spec fn side_faces(n: int, j: int) -> Seq<(int, int, int)>
    decreases j,
{
    if j <= 0 {
        seq![]
    } else {
        side_faces(n, j - 1) + side_face(n, j - 1)
    }
}

/// The cap triangles of the first `c` fan steps.
pub open spec fn cap_pairs(c: int) -> Seq<(int, int, int)>
    decreases c,
{
    if c <= 0 {
        seq![]
    } else {
        cap_pairs(c - 1) + cap_pair(c)
    }
}

/// Every triangle of the prism over an `n`-gon: all side faces, then the caps.
pub open spec fn prism_triangles_of(n: int) -> Seq<(int, int, int)> {
    side_faces(n, n) + cap_pairs(n - 2)
}

pub open spec fn triangles_view(v: Seq<(u32, u32, u32)>) -> Seq<(int, int, int)> {
    v.map_values(|t: (u32, u32, u32)| (t.0 as int, t.1 as int, t.2 as int))
}

/// The corners of the triangles `tris` over the outer points `points`, each
/// triangle carrying its own normal from `normals`.
pub open spec fn prism_corners(
    tris: Seq<(int, int, int)>,
    points: Seq<Fixed3>,
    normals: Seq<Fixed3>,
) -> Seq<VertexKey>
    decreases tris.len(),
{
    if tris.len() == 0 {
        seq![]
    } else {
        let t = tris.last();
        let nm = normals[tris.len() - 1];
        prism_corners(tris.drop_last(), points, normals) + seq![
            VertexKey { position: points[t.0], normal: nm },
            VertexKey { position: points[t.1], normal: nm },
            VertexKey { position: points[t.2], normal: nm },
        ]
    }
}

/// What the welded prism mesh over `n` sides is, given its outer points and
/// its triangle normals.
pub open spec fn is_prism_mesh(m: IndexedMesh, n: int, points: Seq<Fixed3>, normals: Seq<Fixed3>) -> bool {
    let c = prism_corners(prism_triangles_of(n), points, normals);
    &&& m.well_formed()
    &&& m.vertices() == welded(c)
    &&& m.corners() == c
}

/// Relies on itertools' `circular_tuple_windows`, which on `0..n` yields
/// `(k, (k + 1) % n)` for each `k < n`.
#[verifier::external_body]
fn circular_pairs(n: u32) -> (w: Vec<(u32, u32)>)
    requires
        n > 0,
    ensures
        w.len() == n,
        forall|k: int| 0 <= k < n ==> #[trigger] w[k] == (k as u32, ((k + 1) % (n as int)) as u32),
{
    (0..n).circular_tuple_windows().collect()
}

/// Relies on itertools' `tuple_windows`, which on `lo..hi` yields
/// `(k, k + 1)` for each `lo <= k < hi - 1`.
#[verifier::external_body]
fn window_pairs(lo: u32, hi: u32) -> (w: Vec<(u32, u32)>)
    requires
        lo < hi,
    ensures
        w.len() == hi - lo - 1,
        forall|k: int| 0 <= k < w.len() ==> #[trigger] w[k] == ((lo + k) as u32, (lo + k + 1) as u32),
{
    (lo..hi).tuple_windows().collect()
}

proof fn lemma_side_faces(n: int, j: int)
    requires
        n > 0,
        0 <= j <= n,
    ensures
        side_faces(n, j).len() == 2 * j,
        forall|t: int|
            0 <= t < 2 * j ==> {
                let tri = #[trigger] side_faces(n, j)[t];
                &&& 0 <= tri.0 < 2 * n
                &&& 0 <= tri.1 < 2 * n
                &&& 0 <= tri.2 < 2 * n
            },
    decreases j,
{
    if j > 0 {
        lemma_side_faces(n, j - 1);
        let p = side_faces(n, j - 1);
        let f = side_face(n, j - 1);
        assert(0 <= (j - 1 + 1) % n < n);
        assert forall|t: int| 0 <= t < 2 * j implies {
            let tri = #[trigger] side_faces(n, j)[t];
            &&& 0 <= tri.0 < 2 * n
            &&& 0 <= tri.1 < 2 * n
            &&& 0 <= tri.2 < 2 * n
        } by {
            if t < 2 * (j - 1) {
                assert(side_faces(n, j)[t] == p[t]);
            } else {
                assert(side_faces(n, j)[t] == f[t - 2 * (j - 1)]);
            }
        }
    }
}

proof fn lemma_cap_pairs(n: int, c: int)
    requires
        0 <= c <= n - 2,
    ensures
        cap_pairs(c).len() == 2 * c,
        forall|t: int|
            0 <= t < 2 * c ==> {
                let tri = #[trigger] cap_pairs(c)[t];
                &&& 0 <= tri.0 < 2 * n
                &&& 0 <= tri.1 < 2 * n
                &&& 0 <= tri.2 < 2 * n
            },
    decreases c,
{
    if c > 0 {
        lemma_cap_pairs(n, c - 1);
        let p = cap_pairs(c - 1);
        let f = cap_pair(c);
        assert forall|t: int| 0 <= t < 2 * c implies {
            let tri = #[trigger] cap_pairs(c)[t];
            &&& 0 <= tri.0 < 2 * n
            &&& 0 <= tri.1 < 2 * n
            &&& 0 <= tri.2 < 2 * n
        } by {
            if t < 2 * (c - 1) {
                assert(cap_pairs(c)[t] == p[t]);
            } else {
                assert(cap_pairs(c)[t] == f[t - 2 * (c - 1)]);
            }
        }
    }
}

/// A prism over an `n`-gon has `2n` side triangles and `2(n - 2)` cap
/// triangles, and each corner is one of its `2n` outer points.
pub proof fn lemma_prism_triangles(n: int)
    requires
        n >= 3,
    ensures
        prism_triangles_of(n).len() == 4 * n - 4,
        forall|t: int|
            0 <= t < 4 * n - 4 ==> {
                let tri = #[trigger] prism_triangles_of(n)[t];
                &&& 0 <= tri.0 < 2 * n
                &&& 0 <= tri.1 < 2 * n
                &&& 0 <= tri.2 < 2 * n
            },
{
    lemma_side_faces(n, n);
    lemma_cap_pairs(n, n - 2);
    let s = side_faces(n, n);
    let c = cap_pairs(n - 2);
    assert forall|t: int| 0 <= t < 4 * n - 4 implies {
        let tri = #[trigger] prism_triangles_of(n)[t];
        &&& 0 <= tri.0 < 2 * n
        &&& 0 <= tri.1 < 2 * n
        &&& 0 <= tri.2 < 2 * n
    } by {
        if t < 2 * n {
            assert(prism_triangles_of(n)[t] == s[t]);
        } else {
            assert(prism_triangles_of(n)[t] == c[t - 2 * n]);
        }
    }
}

/// The triangles of the prism over an `n`-gon, as triples of outer point numbers.
pub fn prism_triangles(n: u32) -> (tris: Vec<(u32, u32, u32)>)
    requires
        3 <= n <= MAX_SIDES,
    ensures
        triangles_view(tris@) == prism_triangles_of(n as int),
{
    let mut tris: Vec<(u32, u32, u32)> = Vec::new();
    let sides = circular_pairs(n);
    let mut j: usize = 0;
    while j < sides.len()
        invariant
            3 <= n <= MAX_SIDES,
            sides.len() == n,
            forall|k: int| 0 <= k < n ==> #[trigger] sides[k] == (k as u32, ((k + 1) % (n as int)) as u32),
            j <= sides.len(),
            triangles_view(tris@) == side_faces(n as int, j as int),
        decreases sides.len() - j,
    {
        let (a, b) = sides[j];
        assert(a == j && b == (j + 1) % (n as int));
        let ghost before = tris@;
        tris.push((2 * a, 2 * b + 1, 2 * a + 1));
        tris.push((2 * a, 2 * b, 2 * b + 1));
        assert(triangles_view(tris@) =~= triangles_view(before) + side_face(n as int, j as int));
        j += 1;
    }
    let caps = window_pairs(1, n);
    let mut c: usize = 0;
    while c < caps.len()
        invariant
            3 <= n <= MAX_SIDES,
            caps.len() == n - 2,
            forall|k: int| 0 <= k < caps.len() ==> #[trigger] caps[k] == ((1 + k) as u32, (1 + k + 1) as u32),
            c <= caps.len(),
            triangles_view(tris@) == side_faces(n as int, n as int) + cap_pairs(c as int),
        decreases caps.len() - c,
    {
        let (a, b) = caps[c];
        let ghost before = tris@;
        tris.push((0, 2 * b, 2 * a));
        tris.push((1, 2 * a + 1, 2 * b + 1));
        assert(cap_pairs(c as int + 1) == cap_pairs(c as int) + cap_pair(c as int + 1));
        assert(triangles_view(tris@) =~= triangles_view(before) + cap_pair(c as int + 1));
        c += 1;
    }
    tris
}


proof fn lemma_prism_corners_len(tris: Seq<(int, int, int)>, points: Seq<Fixed3>, normals: Seq<Fixed3>)
    ensures
        prism_corners(tris, points, normals).len() == 3 * tris.len(),
    decreases tris.len(),
{
    if tris.len() > 0 {
        lemma_prism_corners_len(tris.drop_last(), points, normals);
    }
}

/// The welded mesh of a prism over an `n`-gon.
///
/// `points` holds the `2n` outer points, numbered as [`top`] and [`bottom`]
/// say, and `normals` the normal of each of the `4n - 4` triangles of
/// [`prism_triangles`], in that order.
pub fn prism_mesh(n: u32, points: &Vec<Fixed3>, normals: &Vec<Fixed3>) -> (m: IndexedMesh)
    requires
        3 <= n <= MAX_SIDES,
        points.len() == 2 * n,
        normals.len() == 4 * n - 4,
    ensures
        is_prism_mesh(m, n as int, points@, normals@),
        m.positions.len() == m.normals.len(),
        m.indices.len() == 12 * n - 12,
        forall|i: int| 0 <= i < m.indices.len() ==> #[trigger] m.indices[i] < m.positions.len(),
{
    let tris = prism_triangles(n);
    let ghost all = prism_triangles_of(n as int);
    proof {
        lemma_prism_triangles(n as int);
    }
    let mut builder = MeshBuilder::new();
    let mut t: usize = 0;
    while t < tris.len()
        invariant
            3 <= n <= MAX_SIDES,
            points.len() == 2 * n,
            normals.len() == 4 * n - 4,
            all == prism_triangles_of(n as int),
            all.len() == 4 * n - 4,
            triangles_view(tris@) == all,
            forall|u: int|
                0 <= u < 4 * n - 4 ==> {
                    let tri = #[trigger] all[u];
                    &&& 0 <= tri.0 < 2 * n
                    &&& 0 <= tri.1 < 2 * n
                    &&& 0 <= tri.2 < 2 * n
                },
            t <= tris.len(),
            builder.corners@ == prism_corners(all.subrange(0, t as int), points@, normals@),
        decreases tris.len() - t,
    {
        let (a, b, c) = tris[t];
        assert(all[t as int] == (a as int, b as int, c as int));
        let ghost before = all.subrange(0, t as int);
        let ghost after = all.subrange(0, t as int + 1);
        assert(after.drop_last() =~= before);
        builder.add_triangle(
            [points[a as usize], points[b as usize], points[c as usize]],
            normals[t],
        );
        t += 1;
    }
    assert(all.subrange(0, all.len() as int) =~= all);
    proof {
        lemma_prism_corners_len(all, points@, normals@);
    }
    builder.build()
}

/// Building the prism twice from the same outer points and normals gives the
/// same vertices in the same order and the same triangles.
pub proof fn lemma_prism_mesh_deterministic(
    n: int,
    points: Seq<Fixed3>,
    normals: Seq<Fixed3>,
    m1: IndexedMesh,
    m2: IndexedMesh,
)
    requires
        is_prism_mesh(m1, n, points, normals),
        is_prism_mesh(m2, n, points, normals),
    ensures
        m1.vertices() == m2.vertices(),
        m1.indices@ == m2.indices@,
{
    let c = prism_corners(prism_triangles_of(n), points, normals);
    let w = welded(c);
    lemma_welded(c);
    assert(m1.corners().len() == m2.corners().len());
    assert forall|i: int| 0 <= i < m1.indices.len() implies m1.indices[i] == m2.indices[i] by {
        assert(m1.corners()[i] == c[i]);
        assert(m2.corners()[i] == c[i]);
        assert(w[m1.indices[i] as int] == w[m2.indices[i] as int]);
    }
    assert(m1.indices@ =~= m2.indices@);
}

} // verus!

use vstd::prelude::*;

use rand::seq::SliceRandom;

use crate::coord::{cells, lemma_outline_nonempty, outline, outline_of, Coord};

verus! {

/// Relies on rand's `SliceRandom::choose` with the thread-local generator:
/// `None` for an empty slice, else one of its elements.
#[verifier::external_body]
fn choose_random(v: &Vec<Coord>) -> (r: Option<Coord>)
    ensures
        r is None <==> v.len() == 0,
        r matches Some(c) ==> v@.contains(c),
{
    v.choose(&mut rand::thread_rng()).copied()
}

/// The cells where the next tile may go: the origin on an empty board, else
/// the free cells next to it.
pub fn spawn_candidates(occupied: &[Coord]) -> (c: Vec<Coord>)
    requires
        forall|i: int| 0 <= i < occupied.len() ==> #[trigger] occupied[i].is_interior(),
    ensures
        c.len() > 0,
        c@.no_duplicates(),
        occupied.len() == 0 ==> c@ == seq![(Coord { q: 0, r: 0 })],
        occupied.len() > 0 ==> cells(c@) == outline_of(cells(occupied@)),
{
    if occupied.len() == 0 {
        let c = vec![Coord::new(0, 0)];
        assert(c@ =~= seq![Coord { q: 0, r: 0 }]);
        c
    } else {
        let c = outline(occupied);
        proof {
            lemma_outline_nonempty(occupied@);
            let p = choose|p: (int, int)| #[trigger] outline_of(cells(occupied@)).contains(p);
            assert(cells(c@).contains(p));
        }
        c
    }
}

/// Picks at random the cell for the next tile among [`spawn_candidates`].
pub fn spawn_site(occupied: &[Coord]) -> (s: Coord)
    requires
        forall|i: int| 0 <= i < occupied.len() ==> #[trigger] occupied[i].is_interior(),
    ensures
        occupied.len() == 0 ==> s == (Coord { q: 0, r: 0 }),
        occupied.len() > 0 ==> outline_of(cells(occupied@)).contains(s@),
{
    let candidates = spawn_candidates(occupied);
    match choose_random(&candidates) {
        Some(s) => {
            proof {
                let i = choose|i: int| 0 <= i < candidates.len() && candidates@[i] == s;
                assert(cells(candidates@).contains(s@));
            }
            s
        },
        None => {
            // The candidates are never empty.
            candidates[0]
        },
    }
}

/// The direction in which the held movement keys push the camera, as steps
/// along the board's `x` and `z` axes; keys that pull against each other cancel.
pub fn movement(left: bool, right: bool, forward: bool, back: bool) -> (d: (i8, i8))
    ensures
        d.0 == (if right { 1int } else { 0 }) - (if left { 1int } else { 0 }),
        d.1 == (if back { 1int } else { 0 }) - (if forward { 1int } else { 0 }),
{
    let mut x: i8 = 0;
    let mut z: i8 = 0;
    if left {
        x = x - 1;
    }
    if right {
        x = x + 1;
    }
    if forward {
        z = z - 1;
    }
    if back {
        z = z + 1;
    }
    (x, z)
}

} // verus!

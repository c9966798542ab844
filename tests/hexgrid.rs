use hexboard::controls::{movement, spawn_candidates, spawn_site};
use hexboard::coord::{outline, Coord};

fn c(q: i32, r: i32) -> Coord {
    Coord::new(q, r)
}

fn sorted(mut v: Vec<Coord>) -> Vec<(i32, i32)> {
    let mut out: Vec<(i32, i32)> = v.drain(..).map(|x| (x.q, x.r)).collect();
    out.sort();
    out
}

fn distance(a: Coord, b: Coord) -> i64 {
    let dq = (a.q as i64 - b.q as i64).abs();
    let dr = (a.r as i64 - b.r as i64).abs();
    let ds = (a.s() - b.s()).abs();
    dq.max(dr).max(ds)
}

#[test]
fn third_coordinate_balances_the_other_two() {
    assert_eq!(c(3, -5).s(), 2);
    assert_eq!(c(0, 0).s(), 0);
    assert_eq!(c(i32::MAX, i32::MAX).s(), -2 * (i32::MAX as i64));
}

#[test]
fn neighbours_of_origin_follow_the_cyclic_order() {
    let ns: Vec<(i32, i32)> = c(0, 0).neighbours().iter().map(|x| (x.q, x.r)).collect();
    assert_eq!(ns, vec![(1, 0), (1, -1), (0, -1), (-1, 0), (-1, 1), (0, 1)]);
}

#[test]
fn neighbours_are_six_distinct_cells_at_distance_one_and_symmetric() {
    let centre = c(4, -7);
    let ns = centre.neighbours();
    assert_eq!(ns.len(), 6);
    assert_eq!(sorted(ns.clone()).len(), 6);
    let mut uniq = sorted(ns.clone());
    uniq.dedup();
    assert_eq!(uniq.len(), 6);
    for n in &ns {
        assert_eq!(distance(centre, *n), 1);
        assert!(n.neighbours().contains(&centre));
    }
}

#[test]
fn outline_of_empty_board_is_empty() {
    assert!(outline(&[]).is_empty());
}

#[test]
fn outline_of_single_cell_is_its_six_neighbours() {
    let got = sorted(outline(&[c(0, 0)]));
    let mut want = vec![(1, 0), (1, -1), (0, -1), (-1, 0), (-1, 1), (0, 1)];
    want.sort();
    assert_eq!(got, want);
}

#[test]
fn outline_of_two_cells_has_ten_cells() {
    let got = sorted(outline(&[c(0, 0), c(1, 0)]));
    let mut want = vec![
        (1, -1),
        (0, -1),
        (-1, 0),
        (-1, 1),
        (0, 1),
        (2, 0),
        (2, -1),
        (1, 1),
    ];
    want.sort();
    assert_eq!(got.len(), 8);
    assert_eq!(got, want);
}

#[test]
fn outline_is_free_adjacent_and_without_repeats() {
    let board = vec![c(0, 0), c(1, 0), c(0, 1), c(5, 5), c(0, 0)];
    let out = outline(&board);
    let mut uniq = sorted(out.clone());
    uniq.dedup();
    assert_eq!(uniq.len(), out.len());
    for x in &out {
        assert!(!board.contains(x));
        assert!(board.iter().any(|h| h.neighbours().contains(x)));
    }
    for h in &board {
        for n in h.neighbours() {
            if !board.contains(&n) {
                assert!(out.contains(&n));
            }
        }
    }
}

#[test]
fn outline_starts_with_the_first_cells_free_neighbours() {
    let out = outline(&[c(0, 0), c(1, 0)]);
    let first: Vec<(i32, i32)> = out.iter().take(5).map(|x| (x.q, x.r)).collect();
    assert_eq!(first, vec![(1, -1), (0, -1), (-1, 0), (-1, 1), (0, 1)]);
}

#[test]
fn empty_board_spawns_at_origin() {
    assert_eq!(spawn_candidates(&[]), vec![c(0, 0)]);
    assert_eq!(spawn_site(&[]), c(0, 0));
}

#[test]
fn spawn_site_lies_on_the_outline() {
    let board = vec![c(0, 0), c(1, 0), c(1, -1)];
    let frontier = outline(&board);
    assert_eq!(sorted(spawn_candidates(&board)), sorted(frontier.clone()));
    for _ in 0..50 {
        let s = spawn_site(&board);
        assert!(frontier.contains(&s));
    }
}

#[test]
fn movement_keys_combine_and_cancel() {
    assert_eq!(movement(false, false, false, false), (0, 0));
    assert_eq!(movement(true, false, false, false), (-1, 0));
    assert_eq!(movement(false, true, true, false), (1, -1));
    assert_eq!(movement(true, true, false, true), (0, 1));
    assert_eq!(movement(true, true, true, true), (0, 0));
}

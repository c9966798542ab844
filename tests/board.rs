use hexboard::board::Board;
use hexboard::coord::Coord;

#[test]
fn new_board_is_empty() {
    let b: Board<u32> = Board::new();
    assert!(b.is_empty());
    assert!(b.coords().is_empty());
    assert_eq!(b.get(Coord::new(0, 0)), None);
}

#[test]
fn placing_on_a_free_cell_releases_nothing() {
    let mut b: Board<&str> = Board::new();
    assert_eq!(b.place(Coord::new(0, 0), "a"), None);
    assert_eq!(b.place(Coord::new(1, -1), "b"), None);
    assert!(!b.is_empty());
    assert!(b.contains(Coord::new(1, -1)));
    assert!(!b.contains(Coord::new(-1, 1)));
    assert_eq!(b.get(Coord::new(0, 0)), Some(&"a"));
    assert_eq!(b.coords(), vec![Coord::new(0, 0), Coord::new(1, -1)]);
}

#[test]
fn placing_on_an_occupied_cell_hands_back_the_old_tile() {
    let mut b: Board<String> = Board::new();
    assert_eq!(b.place(Coord::new(2, 3), "first".to_string()), None);
    assert_eq!(b.place(Coord::new(2, 3), "second".to_string()), Some("first".to_string()));
    assert_eq!(b.get(Coord::new(2, 3)), Some(&"second".to_string()));
    assert_eq!(b.coords().len(), 1);
}

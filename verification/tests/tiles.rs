//! Tile addressing: coordinate bounds and the 0-63 index bijection.

use xfutebol::geometry::{chebyshev, Position};

#[test]
fn test_from_coords_accepts_board_range() {
    for row in 0..8 {
        for col in 0..8 {
            let p = Position::from_coords(row, col).unwrap();
            assert_eq!(p.row as usize, row);
            assert_eq!(p.col as usize, col);
        }
    }
}

#[test]
fn test_from_coords_rejects_out_of_range() {
    assert!(Position::from_coords(8, 0).is_none());
    assert!(Position::from_coords(0, 8).is_none());
    assert!(Position::from_coords(100, 100).is_none());
}

#[test]
fn test_to_index_returns_coordinates() {
    let p = Position { row: 3, col: 5 };
    assert_eq!(p.to_index(), (3, 5));
}

#[test]
fn test_tile_index_is_bijective() {
    let mut seen = [false; 64];
    for row in 0..8u8 {
        for col in 0..8u8 {
            let p = Position { row, col };
            let idx = p.index();
            assert!(idx < 64);
            assert!(!seen[idx as usize], "two tiles share index {}", idx);
            seen[idx as usize] = true;
            assert_eq!(Position::from_index(idx), p);
        }
    }
    assert!(seen.iter().all(|&b| b));
}

#[test]
fn test_index_formula() {
    assert_eq!(Position { row: 0, col: 0 }.index(), 0);
    assert_eq!(Position { row: 0, col: 7 }.index(), 7);
    assert_eq!(Position { row: 7, col: 7 }.index(), 63);
    assert_eq!(Position { row: 2, col: 3 }.index(), 19);
}

#[test]
fn test_chebyshev_distance() {
    let a = Position { row: 3, col: 3 };
    assert_eq!(chebyshev(a, Position { row: 3, col: 3 }), 0);
    assert_eq!(chebyshev(a, Position { row: 4, col: 4 }), 1);
    assert_eq!(chebyshev(a, Position { row: 3, col: 7 }), 4);
    assert_eq!(chebyshev(a, Position { row: 0, col: 5 }), 3);
    assert_eq!(chebyshev(Position { row: 0, col: 5 }, a), 3);
}

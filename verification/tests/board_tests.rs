use conways_life::board::Board;
use conways_life::board::OutOfBounds;

#[test]
fn test_add() {
    let mut board = Board::new(10, 3);
    board.set(8, 1, true).unwrap();
    assert!(board.get(8, 1).unwrap());
    assert!(board.get(0, 0).unwrap() == false);
}

#[test]
#[should_panic]
fn test_out_of_bounds() {
    let board = Board::new(10, 3);
    board.get(1, 10).unwrap();
}

#[test]
fn test_colours() {
    let mut board = Board::new(3, 3);
    board.set_colour(0, 0, 64).unwrap();
    board.set_colour(2, 2, 128).unwrap();
    assert!(board.get_colour(0, 0).unwrap() == 64);
    // 1, 1 is unset; it should have been initialised to a
    // random number in the range 128..=255
    assert!(board.get_colour(1, 1).unwrap() >= 128);
    assert!(board.get_colour(2, 2).unwrap() == 128);
}

#[test]
fn test_get_out_of_bounds_error() {
    let board = Board::new(10, 3);
    assert_eq!(board.get(10, 0), Err(OutOfBounds));
    assert_eq!(board.get(0, 3), Err(OutOfBounds));
    assert_eq!(board.get(10, 3), Err(OutOfBounds));
}

#[test]
fn test_set_out_of_bounds_error() {
    let mut board = Board::new(10, 3);
    assert_eq!(board.set(10, 0, true), Err(OutOfBounds));
    assert_eq!(board.set(0, 3, true), Err(OutOfBounds));
    // a rejected write leaves the board unchanged
    for col in 0..10 {
        for row in 0..3 {
            assert!(board.get(col, row).unwrap() == false);
        }
    }
}

#[test]
fn test_colour_out_of_bounds_error() {
    let mut board = Board::new(10, 3);
    assert_eq!(board.get_colour(10, 0), Err(OutOfBounds));
    assert_eq!(board.get_colour(0, 3), Err(OutOfBounds));
    assert_eq!(board.set_colour(10, 0, 7), Err(OutOfBounds));
    assert_eq!(board.set_colour(0, 3, 7), Err(OutOfBounds));
}

#[test]
fn test_new_intensity_range() {
    let board = Board::new(6, 4);
    for col in 0..6 {
        for row in 0..4 {
            assert!(board.get(col, row).unwrap() == false);
            let intensity = board.get_colour(col, row).unwrap();
            assert!(intensity >= 128);
        }
    }
}

#[test]
fn test_clear() {
    let mut board = Board::new(4, 4);
    board.set(1, 2, true).unwrap();
    board.set(3, 3, true).unwrap();
    board.set_colour(1, 2, 200).unwrap();
    board.clear();
    for col in 0..4 {
        for row in 0..4 {
            assert!(board.get(col, row).unwrap() == false);
        }
    }
    // intensities are untouched by clear
    assert_eq!(board.get_colour(1, 2).unwrap(), 200);
}

#[test]
fn test_randomise_keeps_live_cells() {
    let mut board = Board::new(5, 4);
    board.set(1, 1, true).unwrap();
    board.randomise(10);
    assert!(board.get(1, 1).unwrap());
}

#[test]
fn test_randomise_zero_draws() {
    let mut board = Board::new(5, 4);
    board.set(2, 3, true).unwrap();
    board.randomise(0);
    for col in 0..5 {
        for row in 0..4 {
            assert_eq!(board.get(col, row).unwrap(), col == 2 && row == 3);
        }
    }
}

#[test]
fn test_write_read_round_trip() {
    let mut board = Board::new(7, 7);
    board.set(4, 5, true).unwrap();
    assert!(board.get(4, 5).unwrap());
    board.set(4, 5, false).unwrap();
    assert!(board.get(4, 5).unwrap() == false);
    board.set_colour(6, 0, 255).unwrap();
    assert_eq!(board.get_colour(6, 0).unwrap(), 255);
    board.set_colour(6, 0, 0).unwrap();
    assert_eq!(board.get_colour(6, 0).unwrap(), 0);
}

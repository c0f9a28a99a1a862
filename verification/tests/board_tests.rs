use sos::board::{Board, OutOfBounds};

#[test]
fn get_value_gives_error_when_coord_out_of_bounds() {
    let b = Board::new(5, 10, 0);
    assert_eq!(b.get_value(5, 10), Err(OutOfBounds));
}

#[test]
fn get_value_returns_value_when_coord_in_bounds() {
    let b = Board::new(5, 10, 0);
    assert_eq!(b.get_value(4, 8), Ok(0));
}

#[test]
fn set_cell_gives_error_when_coord_out_of_bounds() {
    let mut b = Board::new(5, 10, 0);
    assert_eq!(b.set_cell(5, 6, 1), Err(OutOfBounds));
}

#[test]
fn set_cell_returns_ok_when_coord_in_bounds() {
    let mut b = Board::new(5, 10, 0);
    assert_eq!(b.set_cell(4, 6, 1), Ok(()));
}

#[test]
fn coord_not_valid_when_x_out_of_bounds() {
    let b = Board::new(5, 10, 0);
    assert_eq!(b.is_valid(5, 5), false);
}

#[test]
fn coord_not_valid_when_y_out_of_bounds() {
    let b = Board::new(5, 10, 0);
    assert_eq!(b.is_valid(4, 11), false);
}

#[test]
fn coord_valid_when_in_bounds() {
    let b = Board::new(5, 10, 0);
    assert_eq!(b.is_valid(4, 5), true);
}

#[test]
fn resize_changes_board_size() {
    let mut b = Board::new(5, 10, 0);

    let new_x = 10;
    let new_y = 5;

    b.resize_reset(new_x, new_y, 0);
    assert!(
        b.is_valid(new_x - 1, new_y - 1) && !b.is_valid(new_x, new_y - 1) && !b.is_valid(
            new_x - 1,
            new_y,
        )
    );
}

#[test]
fn resize_resets_board_fill() {
    let mut b = Board::new(5, 10, 0);
    b.set_cell(4, 6, 1).unwrap();
    b.resize_reset(10, 5, 0);
    let mut all_zero = true;
    for y in 0..5 {
        for x in 0..10 {
            if b.get_value(x, y) != Ok(0) {
                all_zero = false;
            }
        }
    }
    assert!(all_zero);
}

// A written value is read back from the same coordinate and nowhere else.
#[test]
fn set_cell_writes_only_its_coordinate() {
    let mut b = Board::new(4, 4, 'X');
    b.set_cell(2, 3, 'M').unwrap();
    assert_eq!(b.get_value(2, 3), Ok('M'));
    assert_eq!(b.get_value(3, 2), Ok('X'));
    assert_eq!(b.get_value(0, 0), Ok('X'));
}

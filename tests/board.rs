use tetris::board::{down, left, right, rotate, Board, BoardError, Piece, COLS, EMPTY, ROWS, WALL};
use tetris::shape::{Rotation, Shape};

fn empty_board() -> Board {
    Board::new([0u8; 16])
}

fn fill(board: &mut Board, r: usize, c: usize) {
    board.grid[r][c] = 2;
}

#[test]
fn new_board_is_walled_and_empty() {
    let b = empty_board();
    assert_eq!(ROWS, b.grid.len());
    for r in 0..ROWS {
        assert_eq!(COLS, b.grid[r].len());
        for c in 0..COLS {
            let border = r == 0 || r == ROWS - 1 || c == 0 || c == COLS - 1;
            assert_eq!(if border { WALL } else { EMPTY }, b.grid[r][c]);
        }
    }
    assert_eq!(0, b.score);
    assert!(!b.is_gameover());
    let shape = b.collector.get_current();
    assert_eq!(b.current, Piece { x: 5 - (shape.w() as i32) / 2, y: 1, shape });
}

#[test]
fn moves_on_open_board_are_accepted() {
    let b = empty_board();
    let p = Piece { x: 4, y: 5, shape: Shape::T(0) };
    assert_eq!(Ok(Piece { x: 4, y: 6, shape: Shape::T(0) }), down(&b, &p));
    assert_eq!(Ok(Piece { x: 3, y: 5, shape: Shape::T(0) }), left(&b, &p));
    assert_eq!(Ok(Piece { x: 5, y: 5, shape: Shape::T(0) }), right(&b, &p));
}

#[test]
fn moves_into_walls_are_rejected() {
    let b = empty_board();
    let at_left = Piece { x: 1, y: 5, shape: Shape::O(0) };
    assert_eq!(Err(BoardError::UnableToMove), left(&b, &at_left));
    let at_right = Piece { x: 7, y: 5, shape: Shape::O(0) };
    assert_eq!(Err(BoardError::UnableToMove), right(&b, &at_right));
    let at_floor = Piece { x: 4, y: 17, shape: Shape::O(0) };
    assert_eq!(Err(BoardError::TouchingGround), down(&b, &at_floor));
}

#[test]
fn moves_off_the_grid_are_rejected() {
    let b = empty_board();
    let far = Piece { x: 40, y: 5, shape: Shape::O(0) };
    assert_eq!(Err(BoardError::UnableToMove), left(&b, &far));
    let below = Piece { x: 4, y: 30, shape: Shape::O(0) };
    assert_eq!(Err(BoardError::TouchingGround), down(&b, &below));
    let above = Piece { x: 4, y: -5, shape: Shape::O(0) };
    assert_eq!(Err(BoardError::UnableToMove), right(&b, &above));
}

#[test]
fn moves_onto_locked_blocks_are_rejected() {
    let mut b = empty_board();
    fill(&mut b, 7, 4);
    let p = Piece { x: 4, y: 5, shape: Shape::O(0) };
    assert_eq!(Err(BoardError::TouchingGround), down(&b, &p));
    fill(&mut b, 5, 3);
    assert_eq!(Err(BoardError::UnableToMove), left(&b, &p));
    fill(&mut b, 6, 6);
    assert_eq!(Err(BoardError::UnableToMove), right(&b, &p));
    // A block next to an empty cell of the matrix does not block.
    let mut b2 = empty_board();
    fill(&mut b2, 5, 3);
    let t = Piece { x: 3, y: 4, shape: Shape::T(0) };
    assert_eq!(Ok(Piece { x: 3, y: 5, shape: Shape::T(0) }), down(&b2, &t));
}

#[test]
fn rotation_in_open_space_turns_in_place() {
    let b = empty_board();
    let p = Piece { x: 4, y: 5, shape: Shape::L(3) };
    assert_eq!(Ok(Piece { x: 4, y: 5, shape: Shape::L(0) }), rotate(&b, &p));
}

#[test]
fn rotation_against_left_wall_kicks_right() {
    let b = empty_board();
    let t = Piece { x: 0, y: 5, shape: Shape::T(1) };
    assert_eq!(Ok(Piece { x: 1, y: 5, shape: Shape::T(2) }), rotate(&b, &t));
    let j = Piece { x: 0, y: 5, shape: Shape::J(1) };
    assert_eq!(Ok(Piece { x: 1, y: 5, shape: Shape::J(2) }), rotate(&b, &j));
}

#[test]
fn rotation_against_right_wall_kicks_left() {
    let b = empty_board();
    let t = Piece { x: 7, y: 5, shape: Shape::T(3) };
    assert_eq!(Ok(Piece { x: 6, y: 5, shape: Shape::T(0) }), rotate(&b, &t));
}

#[test]
fn flat_long_piece_kicks_two_columns() {
    let b = empty_board();
    let i = Piece { x: -1, y: 5, shape: Shape::I(1) };
    assert_eq!(Ok(Piece { x: 1, y: 5, shape: Shape::I(2) }), rotate(&b, &i));
}

#[test]
fn rotation_with_no_free_kick_is_refused() {
    let mut b = empty_board();
    for c in 2..COLS - 1 {
        fill(&mut b, 7, c);
    }
    let i = Piece { x: -1, y: 5, shape: Shape::I(1) };
    assert_eq!(Err(BoardError::UnableToRotate), rotate(&b, &i));
}

#[test]
fn lock_on_empty_board_clears_nothing() {
    for seed in 0..20u8 {
        let mut b = Board::new([seed; 16]);
        let before = b.current;
        let lines = b.lock_and_advance();
        assert_eq!(0, lines);
        assert_eq!(0, b.score);
        let m = before.shape.value();
        let mut written = 0;
        for r in 1..ROWS - 1 {
            for c in 1..COLS - 1 {
                if b.grid[r][c] != EMPTY {
                    written += 1;
                    let (i, j) = (r as i32 - before.y, c as i32 - before.x);
                    assert_eq!(m[i as usize][j as usize], b.grid[r][c]);
                }
            }
        }
        assert_eq!(4, written);
    }
}

#[test]
fn single_gap_line_clear() {
    let mut b = empty_board();
    let row = ROWS - 2;
    for c in 1..COLS - 1 {
        if c != 5 {
            fill(&mut b, row, c);
        }
    }
    b.grid[10][2] = 7;
    b.current = Piece { x: 3, y: 15, shape: Shape::I(1) };
    let before = b.grid.clone();
    let lines = b.lock_and_advance();
    assert_eq!(1, lines);
    assert_eq!(50, b.score);
    assert!(!b.is_gameover());
    let mut top = vec![EMPTY; COLS];
    top[0] = WALL;
    top[COLS - 1] = WALL;
    assert_eq!(top, b.grid[1]);
    assert_eq!(7, b.grid[11][2]);
    assert_eq!(EMPTY, b.grid[10][2]);
    for r in 16..=row {
        let mut expected = before[r - 1].clone();
        expected[5] = 1;
        assert_eq!(expected, b.grid[r]);
    }
    assert_eq!(before[ROWS - 1], b.grid[ROWS - 1]);
    assert_eq!(before[0], b.grid[0]);
}

#[test]
fn two_lines_clear_at_once() {
    let mut b = empty_board();
    for r in [17usize, 18] {
        for c in 1..COLS - 1 {
            if c != 4 && c != 5 {
                fill(&mut b, r, c);
            }
        }
    }
    b.current = Piece { x: 4, y: 17, shape: Shape::O(0) };
    assert_eq!(2, b.lock_and_advance());
    assert_eq!(100, b.score);
    for r in 1..ROWS - 1 {
        for c in 1..COLS - 1 {
            assert_eq!(EMPTY, b.grid[r][c]);
        }
    }
}

#[test]
fn locking_in_top_rows_ends_game() {
    let mut b = empty_board();
    b.current = Piece { x: 4, y: 1, shape: Shape::T(0) };
    b.lock_and_advance();
    assert!(b.is_gameover());
    assert_eq!(Piece { x: 4, y: 1, shape: Shape::T(0) }, b.current);
    let grid = b.grid.clone();
    assert_eq!(0, b.lock_and_advance());
    assert!(b.is_gameover());
    assert_eq!(grid, b.grid);
}

#[test]
fn locking_brings_next_piece() {
    let mut b = empty_board();
    let next = b.collector.get_next();
    b.current = Piece { x: 4, y: 16, shape: b.current.shape };
    b.lock_and_advance();
    assert_eq!(next, b.collector.get_current());
    assert_eq!(Piece { x: 5 - (next.w() as i32) / 2, y: 1, shape: next }, b.current);
}

#[test]
fn repeated_locks_end_the_game() {
    let mut b = Board::new([0u8; 16]);
    let mut calls = 0;
    let mut was_over = false;
    while !b.is_gameover() {
        b.lock_and_advance();
        calls += 1;
        assert!(calls <= 200);
        if was_over {
            assert!(b.is_gameover());
        }
        was_over = b.is_gameover();
    }
    for _ in 0..5 {
        b.lock_and_advance();
        assert!(b.is_gameover());
    }
}

#[test]
fn straight_drops_end_the_game() {
    let mut b = Board::new([0u8; 16]);
    let mut pieces = 0;
    while !b.is_gameover() {
        match down(&b, &b.current) {
            Ok(p) => b.current = p,
            Err(_) => {
                b.lock_and_advance();
                pieces += 1;
                assert!(pieces <= (ROWS - 2) * (COLS - 2));
            }
        }
    }
    assert!(b.is_gameover());
    b.lock_and_advance();
    assert!(b.is_gameover());
}

#[test]
fn steering_towards_a_column() {
    let mut b = empty_board();
    b.current = Piece { x: 1, y: 5, shape: Shape::O(0) };
    b.move_current_to(4);
    assert_eq!(4, b.current.x);
    b.move_current_to(100);
    assert_eq!(7, b.current.x);
    b.current = Piece { x: 7, y: 5, shape: Shape::O(0) };
    b.move_current_to(0);
    assert_eq!(2, b.current.x);
}

#[test]
fn turning_the_current_piece() {
    let mut b = empty_board();
    b.current = Piece { x: 4, y: 5, shape: Shape::S(0) };
    b.rotate_current(Rotation::Rotate270);
    assert_eq!(Shape::S(3), b.current.shape);
    b.rotate_current(Rotation::Rotate0);
    assert_eq!(Shape::S(3), b.current.shape);
    b.rotate_current(Rotation::Rotate180);
    assert_eq!(Shape::S(1), b.current.shape);
}

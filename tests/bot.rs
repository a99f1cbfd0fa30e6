use tetris::board::{Board, Piece, COLS};
use tetris::bot::{Bot, TetrisBot};
use tetris::shape::{Rotation, Shape};

#[test]
fn fixed_bot_proposes_column_four() {
    let b = Board::new([4u8; 16]);
    assert_eq!((4, Rotation::Rotate0), Bot::new().ask(&b));
}

#[test]
fn random_bot_keeps_piece_between_walls() {
    let mut b = Board::new([4u8; 16]);
    let bot = TetrisBot::new();
    b.current = Piece { x: 3, y: 1, shape: Shape::I(0) };
    let mut seen_high = false;
    for _ in 0..300 {
        let x = bot.ask(&b);
        assert!(1 <= x && x < COLS - 1 - 4);
        seen_high |= x > 1;
    }
    assert!(seen_high);
    b.current = Piece { x: 4, y: 1, shape: Shape::O(0) };
    for _ in 0..300 {
        let x = bot.ask(&b);
        assert!(1 <= x && x < COLS - 1 - 2);
    }
}

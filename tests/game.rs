use tetris::board::{Piece, EMPTY};
use tetris::game::{Game, Key, Player, SubGame};
use tetris::shape::Shape;

#[test]
fn session_layout() {
    let g = Game::new(2, 3, true, [1u8; 16]);
    assert_eq!(6, g.games.len());
    assert!(g.games[0].bot.is_none());
    assert!(g.games[1..].iter().all(|s| s.bot.is_some()));
    let first = g.games[0].board.current;
    assert!(g.games.iter().all(|s| s.board.current == first));
    let bots = Game::new(1, 2, false, [1u8; 16]);
    assert!(bots.games.iter().all(|s| s.bot.is_some()));
    assert_eq!(0, Game::new(0, 4, true, [1u8; 16]).games.len());
}

#[test]
fn tick_moves_every_board_down() {
    let mut g = Game::new(1, 2, true, [2u8; 16]);
    let human = g.games[0].board.current;
    g.update();
    assert_eq!(human.y + 1, g.games[0].board.current.y);
    assert_eq!(human.x, g.games[0].board.current.x);
    assert_eq!(human.y + 1, g.games[1].board.current.y);
    assert_eq!(4, g.games[1].board.current.x);
}

#[test]
fn keys_reach_only_the_human_board() {
    let mut g = Game::new(1, 2, true, [2u8; 16]);
    let bot_before = g.games[1].board.current;
    let human = g.games[0].board.current;
    g.key_down_event(Key::Left);
    assert_eq!(human.x - 1, g.games[0].board.current.x);
    g.key_down_event(Key::Right);
    g.key_down_event(Key::Right);
    assert_eq!(human.x + 1, g.games[0].board.current.x);
    g.key_down_event(Key::Down);
    assert_eq!(human.y + 1, g.games[0].board.current.y);
    assert_eq!(bot_before, g.games[1].board.current);

    let mut bots = Game::new(1, 1, false, [2u8; 16]);
    let before = bots.games[0].board.current;
    bots.key_down_event(Key::Left);
    assert_eq!(before, bots.games[0].board.current);
}

#[test]
fn up_key_turns_the_piece() {
    let mut s = SubGame::new([5u8; 16], Player::Human);
    s.board.current = Piece { x: 4, y: 5, shape: Shape::T(0) };
    s.key_down_event(Key::Up);
    assert_eq!(Shape::T(1), s.board.current.shape);
}

#[test]
fn down_key_locks_a_landed_piece() {
    let mut s = SubGame::new([5u8; 16], Player::Human);
    s.board.current = Piece { x: 4, y: 17, shape: Shape::O(0) };
    s.key_down_event(Key::Down);
    assert_ne!(EMPTY, s.board.grid[18][4]);
    assert_eq!(1, s.board.current.y);
}

#[test]
fn bot_sessions_run_until_every_board_is_over() {
    let mut g = Game::new(2, 2, false, [9u8; 16]);
    let mut ticks = 0;
    while !g.games.iter().all(|s| s.board.is_gameover()) {
        g.update();
        ticks += 1;
        assert!(ticks < 10_000);
    }
    let grid = g.games[0].board.grid.clone();
    g.update();
    assert_eq!(grid, g.games[0].board.grid);
}

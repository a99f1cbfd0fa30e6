use crate::board::{down, left, right, rotate, Board};
use crate::bot::Bot;
use vstd::prelude::*;

verus! {

/// Who controls a board.
#[derive(Clone, Copy, PartialEq, Eq, Debug, Structural)]
pub enum Player {
    Human,
    Bot,
}

/// The four input commands.
#[derive(Clone, Copy, PartialEq, Eq, Debug, Structural)]
pub enum Key {
    Left,
    Right,
    Down,
    Up,
}

/// One board of a session, with the bot that drives it, if any.
pub struct SubGame {
    pub board: Board,
    pub bot: Option<Bot>,
}

impl SubGame {
    pub open spec fn wf(&self) -> bool {
        self.board.wf()
    }

    /// The board after the bot, if any, has applied its proposal.
    pub open spec fn steered_board(self) -> Board {
        match self.bot {
            Some(bot) => {
                let (x, rotation) = bot.proposal(self.board);
                let turned = Board {
                    current: crate::board::turn_times(
                        self.board.cells(),
                        self.board.current,
                        rotation.quarters(),
                    ),
                    ..self.board
                };
                Board {
                    current: crate::board::steered(turned.cells(), turned.current, x as int),
                    ..turned
                }
            },
            None => self.board,
        }
    }

    /// One tick: a finished board stays as it is; otherwise the bot, if any,
    /// steers the piece, and then the board takes one gravity step.
    pub open spec fn ticks_into(self, next: SubGame) -> bool {
        &&& next.bot == self.bot
        &&& if self.board.game_over {
            next.board == self.board
        } else {
            self.steered_board().falls_into(next.board)
        }
    }

    /// What an input command does to a board driven by a person: a move or
    /// turn is applied if allowed, and `Down` on a landed piece locks it.
    /// Bot-driven and finished boards ignore input.
    pub open spec fn keys_into(self, key: Key, next: SubGame) -> bool {
        let b = self.board;
        let g = b.cells();
        &&& next.bot == self.bot
        &&& if self.bot.is_some() || b.game_over {
            next.board == b
        } else {
            match key {
                Key::Down => b.falls_into(next.board),
                Key::Left => next.board == (Board {
                    current: crate::board::shift_or_stay(g, b.current, -1),
                    ..b
                }),
                Key::Right => next.board == (Board {
                    current: crate::board::shift_or_stay(g, b.current, 1),
                    ..b
                }),
                Key::Up => next.board == (Board {
                    current: crate::board::turn_or_stay(g, b.current),
                    ..b
                }),
            }
        }
    }

    /// A board seeded with `seed`, driven by a bot unless `player` is `Human`.
    pub fn new(seed: [u8; 16], player: Player) -> (r: SubGame)
        ensures
            r.wf(),
            r.bot.is_some() <==> player == Player::Bot,
            r.board.cells() == crate::board::initial_grid(),
            r.board.score == 0,
            !r.board.game_over,
    {
        let bot = match player {
            Player::Human => None,
            Player::Bot => Some(Bot::new()),
        };
        SubGame { board: Board::new(seed), bot }
    }

    /// One gravity step of the board.
    fn down(&mut self)
        requires
            old(self).wf(),
        ensures
            final(self).wf(),
            final(self).bot == old(self).bot,
            old(self).board.falls_into(final(self).board),
    {
        match down(&self.board, &self.board.current) {
            Ok(piece) => self.board.current = piece,
            Err(_) => {
                self.board.lock_and_advance();
            },
        }
    }

    /// One tick, as `ticks_into` says.
    pub fn update(&mut self)
        requires
            old(self).wf(),
        ensures
            final(self).wf(),
            old(self).ticks_into(*final(self)),
    {
        if self.board.is_gameover() {
            return;
        }
        match &self.bot {
            Some(bot) => {
                let (x, rotation) = bot.ask(&self.board);
                self.board.rotate_current(rotation);
                self.board.move_current_to(x);
            },
            None => {},
        }
        self.down();
    }

    /// Applies an input command, as `keys_into` says.
    pub fn key_down_event(&mut self, key: Key)
        requires
            old(self).wf(),
        ensures
            final(self).wf(),
            old(self).keys_into(key, *final(self)),
    {
        if self.bot.is_some() || self.board.is_gameover() {
            return;
        }
        match key {
            Key::Down => self.down(),
            Key::Left => {
                if let Ok(piece) = left(&self.board, &self.board.current) {
                    self.board.current = piece;
                }
            },
            Key::Right => {
                if let Ok(piece) = right(&self.board, &self.board.current) {
                    self.board.current = piece;
                }
            },
            Key::Up => {
                if let Ok(piece) = rotate(&self.board, &self.board.current) {
                    self.board.current = piece;
                }
            },
        }
    }
}

/// A session: `nrows * ncols` boards, all seeded alike, laid out row by row;
/// the first is driven by a person when the session has one, the others by bots.
pub struct Game {
    pub games: Vec<SubGame>,
}

impl Game {
    pub open spec fn wf(&self) -> bool {
        forall|i: int| 0 <= i < self.games@.len() ==> (#[trigger] self.games@[i]).wf()
    }

    /// The session has a board driven by a person: the first one.
    pub open spec fn has_human(&self) -> bool {
        self.games@.len() > 0 && self.games@[0].bot.is_none()
    }

    /// A session of `nrows * ncols` fresh boards seeded with `seed`; board 0
    /// is driven by a person exactly when `has_player` holds.
    pub fn new(nrows: usize, ncols: usize, has_player: bool, seed: [u8; 16]) -> (r: Game)
        ensures
            r.wf(),
            r.games@.len() == nrows * ncols,
            forall|i: int|
                0 <= i < r.games@.len() ==> {
                    let s = #[trigger] r.games@[i];
                    &&& s.bot.is_none() <==> (has_player && i == 0)
                    &&& s.board.cells() == crate::board::initial_grid()
                    &&& s.board.score == 0
                    &&& !s.board.game_over
                },
    {
        let mut games: Vec<SubGame> = Vec::new();
        let mut i: usize = 0;
        while i < nrows
            invariant
                i <= nrows,
                games@.len() == i * ncols,
                forall|k: int|
                    0 <= k < games@.len() ==> {
                        let s = #[trigger] games@[k];
                        &&& s.wf()
                        &&& s.bot.is_none() <==> (has_player && k == 0)
                        &&& s.board.cells() == crate::board::initial_grid()
                        &&& s.board.score == 0
                        &&& !s.board.game_over
                    },
            decreases nrows - i,
        {
            let mut j: usize = 0;
            while j < ncols
                invariant
                    i < nrows,
                    j <= ncols,
                    games@.len() == i * ncols + j,
                    forall|k: int|
                        0 <= k < games@.len() ==> {
                            let s = #[trigger] games@[k];
                            &&& s.wf()
                            &&& s.bot.is_none() <==> (has_player && k == 0)
                            &&& s.board.cells() == crate::board::initial_grid()
                            &&& s.board.score == 0
                            &&& !s.board.game_over
                        },
                decreases ncols - j,
            {
                proof {
                    assert(i * ncols + j == 0 <==> (i == 0 && j == 0)) by (nonlinear_arith)
                        requires
                            i >= 0,
                            j >= 0,
                            ncols > j,
                    ;
                }
                let player = if has_player && i == 0 && j == 0 {
                    Player::Human
                } else {
                    Player::Bot
                };
                games.push(SubGame::new(seed, player));
                j += 1;
            }
            proof {
                assert((i + 1) * ncols == i * ncols + ncols) by (nonlinear_arith);
            }
            i += 1;
        }
        Game { games }
    }

    /// One tick of the session: every board ticks once, as
    /// `SubGame::ticks_into` says.
    pub fn update(&mut self)
        requires
            old(self).wf(),
        ensures
            final(self).wf(),
            final(self).games@.len() == old(self).games@.len(),
            forall|i: int|
                0 <= i < old(self).games@.len() ==> old(self).games@[i].ticks_into(
                    #[trigger] final(self).games@[i],
                ),
    {
        let n = self.games.len();
        let mut i: usize = 0;
        while i < n
            invariant
                n == self.games@.len(),
                n == old(self).games@.len(),
                i <= n,
                forall|k: int| 0 <= k < n ==> (#[trigger] self.games@[k]).wf(),
                forall|k: int| 0 <= k < i ==> old(self).games@[k].ticks_into(#[trigger] self.games@[k]),
                forall|k: int| i <= k < n ==> #[trigger] self.games@[k] == old(self).games@[k],
            decreases n - i,
        {
            self.games[i].update();
            i += 1;
        }
    }

    /// Hands an input command to the board driven by a person, if there is
    /// one; the other boards are left as they are.
    pub fn key_down_event(&mut self, key: Key)
        requires
            old(self).wf(),
        ensures
            final(self).wf(),
            final(self).games@.len() == old(self).games@.len(),
            old(self).has_human() ==> old(self).games@[0].keys_into(key, final(self).games@[0]),
            forall|i: int|
                0 <= i < old(self).games@.len() && (i > 0 || !old(self).has_human())
                    ==> #[trigger] final(self).games@[i] == old(self).games@[i],
    {
        if self.games.len() > 0 && self.games[0].bot.is_none() {
            self.games[0].key_down_event(key);
        }
    }
}

} // verus!

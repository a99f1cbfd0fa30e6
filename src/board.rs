use crate::collector::PieceCollector;
use crate::shape::{rows_view, Rotation, Shape};
use vstd::prelude::*;

verus! {

/// Number of grid rows: a wall row on top, the playing rows, a wall row at the bottom.
pub const ROWS: usize = 20;

/// Number of grid columns: a wall column on each side of the playing columns.
pub const COLS: usize = 10;

/// Grid value of an empty cell.
pub const EMPTY: u8 = 0;

/// Grid value of a border cell.
pub const WALL: u8 = 8;

/// Row at which every new piece is anchored.
pub const SPAWN_Y: i32 = 1;

/// Points for each cleared line.
pub const LINE_SCORE: u64 = 50;

/// Why a move was refused.
#[derive(Clone, Copy, PartialEq, Eq, Debug, Structural)]
pub enum BoardError {
    TouchingGround,
    UnableToMove,
    UnableToRotate,
}

/// A falling piece: the grid position of the top-left corner of its
/// occupancy matrix, and its shape.
#[derive(Clone, Copy, PartialEq, Eq, Debug, Structural)]
pub struct Piece {
    pub x: i32,
    pub y: i32,
    pub shape: Shape,
}

/// Cell `(r, c)` is a border cell of the grid.
pub open spec fn is_border(r: int, c: int) -> bool {
    r == 0 || r == ROWS - 1 || c == 0 || c == COLS - 1
}

/// Cell `(r, c)` is a playing cell, inside the walls.
pub open spec fn is_interior(r: int, c: int) -> bool {
    1 <= r < ROWS - 1 && 1 <= c < COLS - 1
}

/// A grid of `ROWS` rows of `COLS` cells, walled on its borders, each inner
/// cell empty or holding a kind label.
pub open spec fn grid_wf(g: Seq<Seq<u8>>) -> bool {
    &&& g.len() == ROWS
    &&& forall|r: int| 0 <= r < ROWS ==> #[trigger] g[r].len() == COLS
    &&& forall|r: int, c: int|
        0 <= r < ROWS && 0 <= c < COLS ==> (#[trigger] g[r][c] == WALL <==> is_border(r, c))
    &&& forall|r: int, c: int| 0 <= r < ROWS && 0 <= c < COLS ==> #[trigger] g[r][c] <= WALL
}

/// Cell `(r, c)` is off the grid or not empty: a piece may not occupy it.
pub open spec fn blocked(g: Seq<Seq<u8>>, r: int, c: int) -> bool {
    !(0 <= r < ROWS && 0 <= c < COLS) || g[r][c] != EMPTY
}

/// The piece, moved by `(dx, dy)`, has an occupied cell on a blocked cell.
pub open spec fn overlaps(g: Seq<Seq<u8>>, p: Piece, dx: int, dy: int) -> bool {
    exists|i: int, j: int| #[trigger] p.shape.occupied(i, j) && blocked(g, p.y + dy + i, p.x + dx + j)
}

/// The empty playing row: walls at both ends.
pub open spec fn empty_row() -> Seq<u8> {
    Seq::new(COLS as nat, |c: int| if c == 0 || c == COLS - 1 { WALL } else { EMPTY })
}

/// The grid of a new board: walls on the borders, every other cell empty.
pub open spec fn initial_grid() -> Seq<Seq<u8>> {
    Seq::new(
        ROWS as nat,
        |r: int| if r == 0 || r == ROWS - 1 { Seq::new(COLS as nat, |c: int| WALL) } else { empty_row() },
    )
}

/// The long piece lying flat, the one case where kicks of two columns are tried.
pub open spec fn long_flat(s: Shape) -> bool {
    s == Shape::I(0) || s == Shape::I(2)
}


/// The grid with every cell the piece covers set to the piece's label; the
/// other cells keep their values.
pub open spec fn placed(g: Seq<Seq<u8>>, p: Piece) -> Seq<Seq<u8>> {
    Seq::new(
        g.len(),
        |r: int| Seq::new(g[r].len(), |c: int| if p.covers(r, c) { p.shape.label() } else { g[r][c] }),
    )
}

/// Locking the piece tops out: one of its cells lies in the two top rows.
pub open spec fn tops_out(p: Piece) -> bool {
    exists|i: int, j: int| #[trigger] p.shape.occupied(i, j) && p.y + i < 2
}

/// No cell of the row is empty.
pub open spec fn row_full(row: Seq<u8>) -> bool {
    forall|c: int| 0 <= c < row.len() ==> #[trigger] row[c] != EMPTY
}

/// Row `i` removed: the rows above it move down by one and the top playing
/// row becomes empty.
pub open spec fn drop_row(g: Seq<Seq<u8>>, i: int) -> Seq<Seq<u8>> {
    Seq::new(
        g.len(),
        |r: int|
            if r == 1 {
                empty_row()
            } else if 2 <= r <= i {
                g[r - 1]
            } else {
                g[r]
            },
    )
}

/// The grid after the line sweep from row `i` down: each row found full, in
/// turn, is dropped, and the sweep goes on with the row below it.
pub open spec fn sweep(g: Seq<Seq<u8>>, i: int) -> Seq<Seq<u8>>
    decreases ROWS - i,
{
    if i >= ROWS - 1 {
        g
    } else if row_full(g[i]) {
        sweep(drop_row(g, i), i + 1)
    } else {
        sweep(g, i + 1)
    }
}

/// The number of rows that the sweep from row `i` drops.
pub open spec fn sweep_count(g: Seq<Seq<u8>>, i: int) -> nat
    decreases ROWS - i,
{
    if i >= ROWS - 1 {
        0
    } else if row_full(g[i]) {
        1 + sweep_count(drop_row(g, i), i + 1)
    } else {
        sweep_count(g, i + 1)
    }
}

/// The score after `lines` more cleared lines, held at `u64::MAX`.
pub open spec fn add_lines(score: u64, lines: nat) -> u64 {
    if score + LINE_SCORE * lines > u64::MAX {
        u64::MAX
    } else {
        (score + LINE_SCORE * lines) as u64
    }
}

/// The piece of the given shape that a board spawns: on the spawn row,
/// centred on the grid by the shape's width.
pub open spec fn spawned(s: Shape) -> Piece {
    Piece { x: (COLS / 2 - s.used_cols(s.side()) / 2) as i32, y: SPAWN_Y, shape: s }
}

/// The piece moved `dx` columns if that overlaps nothing, else unchanged.
pub open spec fn shift_or_stay(g: Seq<Seq<u8>>, p: Piece, dx: int) -> Piece {
    if overlaps(g, p, dx, 0) {
        p
    } else {
        p.moved(dx, 0)
    }
}

/// The piece after a turn with wall kicks, or unchanged if the turn is refused.
pub open spec fn turn_or_stay(g: Seq<Seq<u8>>, p: Piece) -> Piece {
    match turn_result(g, p) {
        Some(q) => q,
        None => p,
    }
}

/// The piece after `k` attempted turns.
pub open spec fn turn_times(g: Seq<Seq<u8>>, p: Piece, k: nat) -> Piece
    decreases k,
{
    if k == 0 {
        p
    } else {
        turn_times(g, turn_or_stay(g, p), (k - 1) as nat)
    }
}

/// Steps towards column `target` from the left, one attempted step per try,
/// while fewer than five tries are used; gives the piece and the tries used.
pub open spec fn steer_right(g: Seq<Seq<u8>>, p: Piece, target: int, tries: nat) -> (Piece, nat)
    decreases 5 - tries,
{
    if p.x < target && tries < 5 {
        steer_right(g, shift_or_stay(g, p, 1), target, tries + 1)
    } else {
        (p, tries)
    }
}

/// Steps towards column `target` from the right, with the tries left.
pub open spec fn steer_left(g: Seq<Seq<u8>>, p: Piece, target: int, tries: nat) -> (Piece, nat)
    decreases 5 - tries,
{
    if p.x > target && tries < 5 {
        steer_left(g, shift_or_stay(g, p, -1), target, tries + 1)
    } else {
        (p, tries)
    }
}

/// The piece steered towards column `target` with at most five attempted
/// steps in all, rightwards first.
pub open spec fn steered(g: Seq<Seq<u8>>, p: Piece, target: int) -> Piece {
    let (q, k) = steer_right(g, p, target, 0);
    steer_left(g, q, target, k).0
}

impl Piece {
    /// The piece covers grid cell `(r, c)`.
    pub open spec fn covers(self, r: int, c: int) -> bool {
        self.shape.occupied(r - self.y, c - self.x)
    }

    /// Every cell the piece covers is a playing cell.
    pub open spec fn inside(self) -> bool {
        forall|i: int, j: int|
            #[trigger] self.shape.occupied(i, j) ==> is_interior(self.y + i, self.x + j)
    }

    /// The piece moved by `(dx, dy)`.
    pub open spec fn moved(self, dx: int, dy: int) -> Piece {
        Piece { x: (self.x + dx) as i32, y: (self.y + dy) as i32, shape: self.shape }
    }

    /// The piece turned a quarter clockwise in place.
    pub open spec fn turned(self) -> Piece {
        Piece { shape: self.shape.turned(), ..self }
    }

    /// A piece of the given shape at column `x` of the spawn row.
    pub fn new(x: i32, shape: Shape) -> (r: Piece)
        ensures
            r == (Piece { x, y: SPAWN_Y, shape }),
    {
        Piece { x, y: SPAWN_Y, shape }
    }

    fn x(self, x: i32) -> (r: Piece)
        ensures
            r == (Piece { x, ..self }),
    {
        Piece { x, y: self.y, shape: self.shape }
    }

    fn y(self, y: i32) -> (r: Piece)
        ensures
            r == (Piece { y, ..self }),
    {
        Piece { x: self.x, y, shape: self.shape }
    }

    fn shape(self, shape: Shape) -> (r: Piece)
        ensures
            r == (Piece { shape, ..self }),
    {
        Piece { x: self.x, y: self.y, shape }
    }
}

/// A piece inside the walls has its anchor close to the playing area.
proof fn lemma_inside_bounds(p: Piece)
    requires
        p.inside(),
        p.shape.wf(),
    ensures
        -1 <= p.x <= COLS - 2,
        -1 <= p.y <= ROWS - 2,
{
    p.shape.lemma_has_cell();
    if p.shape.occupied(1, 1) {
        assert(is_interior(p.y + 1, p.x + 1));
    } else if p.shape.occupied(1, 2) {
        assert(is_interior(p.y + 1, p.x + 2));
    } else {
        assert(is_interior(p.y + 2, p.x + 1));
    }
}

/// A piece that overlaps nothing after a move lies inside the walls.
proof fn lemma_free_is_inside(g: Seq<Seq<u8>>, p: Piece, dx: int, dy: int)
    requires
        grid_wf(g),
        !overlaps(g, p, dx, dy),
        p.shape.wf(),
        -2 <= dx <= 2,
        -2 <= dy <= 2,
    ensures
        p.moved(dx, dy).inside(),
        p.moved(dx, dy).x == p.x + dx,
        p.moved(dx, dy).y == p.y + dy,
{
    p.shape.lemma_has_cell();
    if p.shape.occupied(1, 1) {
        assert(!blocked(g, p.y + dy + 1, p.x + dx + 1));
    } else if p.shape.occupied(1, 2) {
        assert(!blocked(g, p.y + dy + 1, p.x + dx + 2));
    } else {
        assert(!blocked(g, p.y + dy + 2, p.x + dx + 1));
    }
    let q = p.moved(dx, dy);
    assert forall|i: int, j: int| #[trigger] q.shape.occupied(i, j) implies is_interior(
        q.y + i,
        q.x + j,
    ) by {
        assert(p.shape.occupied(i, j));
        assert(!blocked(g, p.y + dy + i, p.x + dx + j));
        assert(g[p.y + dy + i][p.x + dx + j] != WALL);
    }
}

/// Writes `v` into cell `(r, c)`.
fn set_cell(grid: &mut Vec<Vec<u8>>, r: usize, c: usize, v: u8)
    requires
        r < old(grid)@.len(),
        c < old(grid)@[r as int]@.len(),
    ensures
        rows_view(final(grid)@) == rows_view(old(grid)@).update(
            r as int,
            rows_view(old(grid)@)[r as int].update(c as int, v),
        ),
{
    let mut row: Vec<u8> = Vec::new();
    grid.set_and_swap(r, &mut row);
    row.set(c, v);
    grid.set_and_swap(r, &mut row);
    assert(rows_view(grid@) =~= rows_view(old(grid)@).update(
        r as int,
        rows_view(old(grid)@)[r as int].update(c as int, v),
    ));
}

/// A playing row with nothing in it.
fn new_empty_row() -> (r: Vec<u8>)
    ensures
        r@ == empty_row(),
{
    let mut row: Vec<u8> = Vec::new();
    let mut c: usize = 0;
    while c < COLS
        invariant
            c <= COLS,
            row@ == empty_row().subrange(0, c as int),
        decreases COLS - c,
    {
        if c == 0 || c == COLS - 1 {
            row.push(WALL);
        } else {
            row.push(EMPTY);
        }
        c += 1;
        assert(row@ =~= empty_row().subrange(0, c as int));
    }
    assert(row@ =~= empty_row());
    row
}

/// The grid of a new board.
fn new_grid() -> (r: Vec<Vec<u8>>)
    ensures
        rows_view(r@) == initial_grid(),
{
    let mut grid: Vec<Vec<u8>> = Vec::new();
    let mut r: usize = 0;
    while r < ROWS
        invariant
            r <= ROWS,
            grid@.len() == r,
            rows_view(grid@) == initial_grid().subrange(0, r as int),
        decreases ROWS - r,
    {
        let row = if r == 0 || r == ROWS - 1 {
            let mut row: Vec<u8> = Vec::new();
            let mut c: usize = 0;
            while c < COLS
                invariant
                    c <= COLS,
                    row@ == Seq::new(c as nat, |k: int| WALL),
                decreases COLS - c,
            {
                row.push(WALL);
                c += 1;
                assert(row@ =~= Seq::new(c as nat, |k: int| WALL));
            }
            row
        } else {
            new_empty_row()
        };
        assert(row@ == initial_grid()[r as int]);
        let ghost prev = grid@;
        grid.push(row);
        assert forall|k: int| 0 <= k <= r implies #[trigger] rows_view(grid@)[k] == initial_grid()[k] by {
            if k < r {
                assert(grid@[k] == prev[k]);
                assert(rows_view(prev)[k] == initial_grid().subrange(0, r as int)[k]);
            }
        }
        r += 1;
        assert(rows_view(grid@) =~= initial_grid().subrange(0, r as int));
    }
    assert(rows_view(grid@) =~= initial_grid());
    grid
}

/// The outcome of a clockwise turn with wall kicks: the piece is turned in
/// place, then shifted by the first of 0, -1, +1 columns (and, for the flat
/// long piece, -2, +2 columns) at which it overlaps nothing.
pub open spec fn turn_result(g: Seq<Seq<u8>>, p: Piece) -> Option<Piece> {
    let q = p.turned();
    if !overlaps(g, q, 0, 0) {
        Some(q)
    } else if !overlaps(g, q, -1, 0) {
        Some(q.moved(-1, 0))
    } else if !overlaps(g, q, 1, 0) {
        Some(q.moved(1, 0))
    } else if long_flat(q.shape) && !overlaps(g, q, -2, 0) {
        Some(q.moved(-2, 0))
    } else if long_flat(q.shape) && !overlaps(g, q, 2, 0) {
        Some(q.moved(2, 0))
    } else {
        None
    }
}

/// One player's board: the grid, the piece stream, the falling piece, the
/// score and the game-over flag.
pub struct Board {
    /// `ROWS` rows of `COLS` cells: `EMPTY`, a kind label, or `WALL`.
    pub grid: Vec<Vec<u8>>,
    pub collector: PieceCollector,
    pub current: Piece,
    pub score: u64,
    pub game_over: bool,
}

impl Board {
    /// The grid as rows of cell values.
    pub open spec fn cells(&self) -> Seq<Seq<u8>> {
        rows_view(self.grid@)
    }

    pub open spec fn wf(&self) -> bool {
        &&& grid_wf(self.cells())
        &&& self.collector.wf()
        &&& self.current.shape.wf()
        &&& self.current.inside()
    }
}

/// Tests whether the piece, moved by `(dx, dy)`, would cover a blocked cell.
fn overlapping(board: &Board, piece: &Piece, dx: i64, dy: i64) -> (r: bool)
    requires
        grid_wf(board.cells()),
        piece.shape.wf(),
        -2 <= dx <= 2,
        -2 <= dy <= 2,
    ensures
        r == overlaps(board.cells(), *piece, dx as int, dy as int),
{
    proof {
        piece.shape.lemma_matrix_shape();
    }
    let ghost g = board.cells();
    let m = piece.shape.value();
    let n = m.len();
    let mut i: usize = 0;
    while i < n
        invariant
            n == piece.shape.side(),
            rows_view(m@) == piece.shape.cells(),
            piece.shape.cells().len() == n,
            forall|k: int| 0 <= k < n ==> #[trigger] piece.shape.cells()[k].len() == n,
            g == board.cells(),
            grid_wf(g),
            -2 <= dx <= 2,
            -2 <= dy <= 2,
            i <= n,
            forall|ii: int, jj: int|
                #![trigger piece.shape.occupied(ii, jj)]
                0 <= ii < i && piece.shape.occupied(ii, jj) ==> !blocked(
                    g,
                    piece.y + dy + ii,
                    piece.x + dx + jj,
                ),
        decreases n - i,
    {
        let mut j: usize = 0;
        while j < n
            invariant
                n == piece.shape.side(),
                rows_view(m@) == piece.shape.cells(),
                piece.shape.cells().len() == n,
                forall|k: int| 0 <= k < n ==> #[trigger] piece.shape.cells()[k].len() == n,
                g == board.cells(),
                grid_wf(g),
                -2 <= dx <= 2,
                -2 <= dy <= 2,
                i < n,
                j <= n,
                forall|ii: int, jj: int|
                    #![trigger piece.shape.occupied(ii, jj)]
                    (0 <= ii < i || (ii == i && jj < j)) && piece.shape.occupied(ii, jj)
                        ==> !blocked(g, piece.y + dy + ii, piece.x + dx + jj),
            decreases n - j,
        {
            assert(m@[i as int]@ == piece.shape.cells()[i as int]);
            if m[i][j] != EMPTY {
                assert(piece.shape.occupied(i as int, j as int));
                let r: i64 = piece.y as i64 + dy + i as i64;
                let c: i64 = piece.x as i64 + dx + j as i64;
                if r < 0 || c < 0 || r >= ROWS as i64 || c >= COLS as i64 {
                    return true;
                }
                assert(board.grid@[r as int]@ == g[r as int]);
                if board.grid[r as usize][c as usize] != EMPTY {
                    return true;
                }
            }
            j += 1;
        }
        i += 1;
    }
    false
}

/// The piece one row lower, unless that overlaps the grid.
pub fn down(board: &Board, piece: &Piece) -> (r: Result<Piece, BoardError>)
    requires
        board.wf(),
        piece.shape.wf(),
    ensures
        r == if overlaps(board.cells(), *piece, 0, 1) {
            Err(BoardError::TouchingGround)
        } else {
            Ok(piece.moved(0, 1))
        },
        r is Ok ==> r->Ok_0.inside() && r->Ok_0.shape.wf(),
{
    if !overlapping(board, piece, 0, 1) {
        proof {
            lemma_free_is_inside(board.cells(), *piece, 0, 1);
            lemma_inside_bounds(piece.moved(0, 1));
        }
        Ok(piece.y(piece.y + 1))
    } else {
        Err(BoardError::TouchingGround)
    }
}

/// The piece one column to the right, unless that overlaps the grid.
pub fn right(board: &Board, piece: &Piece) -> (r: Result<Piece, BoardError>)
    requires
        board.wf(),
        piece.shape.wf(),
    ensures
        r == if overlaps(board.cells(), *piece, 1, 0) {
            Err(BoardError::UnableToMove)
        } else {
            Ok(piece.moved(1, 0))
        },
        r is Ok ==> r->Ok_0.inside() && r->Ok_0.shape.wf(),
{
    if !overlapping(board, piece, 1, 0) {
        proof {
            lemma_free_is_inside(board.cells(), *piece, 1, 0);
            lemma_inside_bounds(piece.moved(1, 0));
        }
        Ok(piece.x(piece.x + 1))
    } else {
        Err(BoardError::UnableToMove)
    }
}

/// The piece one column to the left, unless that overlaps the grid.
pub fn left(board: &Board, piece: &Piece) -> (r: Result<Piece, BoardError>)
    requires
        board.wf(),
        piece.shape.wf(),
    ensures
        r == if overlaps(board.cells(), *piece, -1, 0) {
            Err(BoardError::UnableToMove)
        } else {
            Ok(piece.moved(-1, 0))
        },
        r is Ok ==> r->Ok_0.inside() && r->Ok_0.shape.wf(),
{
    if !overlapping(board, piece, -1, 0) {
        proof {
            lemma_free_is_inside(board.cells(), *piece, -1, 0);
            lemma_inside_bounds(piece.moved(-1, 0));
        }
        Ok(piece.x(piece.x - 1))
    } else {
        Err(BoardError::UnableToMove)
    }
}

/// The piece turned a quarter clockwise, kicked sideways as `turn_result`
/// says, unless no kick frees it.
pub fn rotate(board: &Board, piece: &Piece) -> (r: Result<Piece, BoardError>)
    requires
        board.wf(),
        piece.shape.wf(),
    ensures
        r == match turn_result(board.cells(), *piece) {
            Some(q) => Ok(q),
            None => Err(BoardError::UnableToRotate),
        },
        r is Ok ==> r->Ok_0.inside() && r->Ok_0.shape.wf(),
{
    can_rotate(board, piece)
}

/// The wall-kick search behind `rotate`.
fn can_rotate(board: &Board, piece: &Piece) -> (r: Result<Piece, BoardError>)
    requires
        board.wf(),
        piece.shape.wf(),
    ensures
        r == match turn_result(board.cells(), *piece) {
            Some(q) => Ok(q),
            None => Err(BoardError::UnableToRotate),
        },
        r is Ok ==> r->Ok_0.inside() && r->Ok_0.shape.wf(),
{
    let ghost g = board.cells();
    let turned = piece.shape(piece.shape.rotate_clockwise());
    let flat = turned.shape == Shape::I(0) || turned.shape == Shape::I(2);
    if !overlapping(board, &turned, 0, 0) {
        proof {
            lemma_free_is_inside(g, turned, 0, 0);
            assert(turned.moved(0, 0) == turned);
        }
        Ok(turned)
    } else if !overlapping(board, &turned, -1, 0) {
        proof {
            lemma_free_is_inside(g, turned, -1, 0);
            lemma_inside_bounds(turned.moved(-1, 0));
        }
        Ok(turned.x(turned.x - 1))
    } else if !overlapping(board, &turned, 1, 0) {
        proof {
            lemma_free_is_inside(g, turned, 1, 0);
            lemma_inside_bounds(turned.moved(1, 0));
        }
        Ok(turned.x(turned.x + 1))
    } else if flat && !overlapping(board, &turned, -2, 0) {
        proof {
            lemma_free_is_inside(g, turned, -2, 0);
            lemma_inside_bounds(turned.moved(-2, 0));
        }
        Ok(turned.x(turned.x - 2))
    } else if flat && !overlapping(board, &turned, 2, 0) {
        proof {
            lemma_free_is_inside(g, turned, 2, 0);
            lemma_inside_bounds(turned.moved(2, 0));
        }
        Ok(turned.x(turned.x + 2))
    } else {
        Err(BoardError::UnableToRotate)
    }
}

/// Dropping a playing row keeps the grid well formed.
proof fn lemma_drop_row_wf(g: Seq<Seq<u8>>, i: int)
    requires
        grid_wf(g),
        1 <= i < ROWS - 1,
    ensures
        grid_wf(drop_row(g, i)),
{
    let d = drop_row(g, i);
    assert forall|r: int, c: int| 0 <= r < ROWS && 0 <= c < COLS implies (#[trigger] d[r][c] == WALL
        <==> is_border(r, c)) && d[r][c] <= WALL by {
        if 2 <= r <= i {
            assert(g[r - 1][c] == WALL <==> is_border(r - 1, c));
            assert(g[r - 1][c] <= WALL);
        } else if r != 1 {
            assert(g[r][c] == WALL <==> is_border(r, c));
            assert(g[r][c] <= WALL);
        }
    }
}

/// Writing a piece that lies inside the walls keeps the grid well formed.
proof fn lemma_placed_wf(g: Seq<Seq<u8>>, p: Piece)
    requires
        grid_wf(g),
        p.inside(),
        p.shape.wf(),
    ensures
        grid_wf(placed(g, p)),
{
    p.shape.lemma_matrix_shape();
    let d = placed(g, p);
    assert forall|r: int, c: int| 0 <= r < ROWS && 0 <= c < COLS implies (#[trigger] d[r][c] == WALL
        <==> is_border(r, c)) && d[r][c] <= WALL by {
        if p.covers(r, c) {
            assert(p.shape.occupied(r - p.y, c - p.x));
            assert(is_interior(p.y + (r - p.y), p.x + (c - p.x)));
        } else {
            assert(g[r][c] == WALL <==> is_border(r, c));
            assert(g[r][c] <= WALL);
        }
    }
}

/// Every valid shape spawns inside the walls.
proof fn lemma_spawned_inside(s: Shape)
    requires
        s.wf(),
        0 <= s.used_cols(s.side()) <= s.side(),
    ensures
        spawned(s).inside(),
{
    let p = spawned(s);
    let w = s.used_cols(s.side());
    assert(3 <= COLS / 2 - w / 2 <= 5);
    assert(p.x == COLS / 2 - w / 2);
    assert(s.side() <= 4);
    assert forall|i: int, j: int| #[trigger] p.shape.occupied(i, j) implies is_interior(
        p.y + i,
        p.x + j,
    ) by {}
}

/// Whether no cell of the row is empty.
fn is_full_row(row: &Vec<u8>) -> (r: bool)
    ensures
        r == row_full(row@),
{
    let mut c: usize = 0;
    while c < row.len()
        invariant
            c <= row@.len(),
            forall|k: int| 0 <= k < c ==> #[trigger] row@[k] != EMPTY,
        decreases row@.len() - c,
    {
        if row[c] == EMPTY {
            return false;
        }
        c += 1;
    }
    true
}

/// The spawn piece of a shape.
fn spawn(shape: Shape) -> (r: Piece)
    requires
        shape.wf(),
    ensures
        r == spawned(shape),
        r.inside(),
{
    let w = shape.w();
    proof {
        lemma_spawned_inside(shape);
    }
    Piece::new((COLS / 2 - w / 2) as i32, shape)
}

impl Board {
    /// What one lock step does: on a finished board, nothing; otherwise the
    /// falling piece is written into the grid, the game ends if it reaches
    /// the two top rows, full rows are swept (`lines` of them, 50 points
    /// each), and, unless the game ended, the next kind of the stream comes
    /// into play at the spawn position.
    pub open spec fn locks_into(self, next: Board, lines: nat) -> bool {
        if self.game_over {
            next == self && lines == 0
        } else {
            let g = placed(self.cells(), self.current);
            &&& next.cells() == sweep(g, 1)
            &&& lines == sweep_count(g, 1)
            &&& next.score == add_lines(self.score, lines)
            &&& next.game_over == tops_out(self.current)
            &&& if next.game_over {
                next.current == self.current && next.collector == self.collector
            } else {
                &&& next.current == spawned(Shape::of_label(self.collector.next_shape))
                &&& next.collector.current_shape == self.collector.next_shape
            }
        }
    }

    /// A new board: walled empty grid, score 0, and the first kind of the
    /// stream seeded with `seed` at the spawn position.
    pub fn new(seed: [u8; 16]) -> (r: Board)
        ensures
            r.wf(),
            r.cells() == initial_grid(),
            r.score == 0,
            !r.game_over,
            r.current == spawned(Shape::of_label(r.collector.current_shape)),
    {
        let grid = new_grid();
        let collector = PieceCollector::new(seed);
        let current = spawn(collector.get_current());
        let r = Board { grid, collector, current, score: 0, game_over: false };
        proof {
            assert forall|r: int, c: int| 0 <= r < ROWS && 0 <= c < COLS implies (
            #[trigger] initial_grid()[r][c] == WALL <==> is_border(r, c)) && initial_grid()[r][c]
                <= WALL by {}
        }
        r
    }

    /// Writes the cells of the falling piece into the grid, and ends the game
    /// if one of them lies in the two top rows.
    pub fn place_current_piece(&mut self)
        requires
            old(self).wf(),
        ensures
            final(self).wf(),
            final(self).cells() == placed(old(self).cells(), old(self).current),
            final(self).game_over == (old(self).game_over || tops_out(old(self).current)),
            final(self).current == old(self).current,
            final(self).collector == old(self).collector,
            final(self).score == old(self).score,
    {
        let ghost g0 = self.cells();
        let p = self.current;
        proof {
            p.shape.lemma_matrix_shape();
            lemma_inside_bounds(p);
            lemma_placed_wf(g0, p);
        }
        let m = p.shape.value();
        let n = m.len();
        let mut i: usize = 0;
        while i < n
            invariant
                n == p.shape.side(),
                rows_view(m@) == p.shape.cells(),
                p.shape.cells().len() == n,
                forall|k: int| 0 <= k < n ==> #[trigger] p.shape.cells()[k].len() == n,
                forall|a: int, b: int|
                    0 <= a < n && 0 <= b < n ==> (#[trigger] p.shape.cells()[a][b] == 0
                        || p.shape.cells()[a][b] == p.shape.label()),
                p == self.current,
                p.inside(),
                -1 <= p.x <= COLS - 2,
                -1 <= p.y <= ROWS - 2,
                grid_wf(g0),
                self.cells().len() == ROWS,
                forall|r: int| 0 <= r < ROWS ==> #[trigger] self.cells()[r].len() == COLS,
                i <= n,
                forall|r: int, c: int|
                    0 <= r < ROWS && 0 <= c < COLS ==> #[trigger] self.cells()[r][c] == if p.covers(r, c)
                        && r - p.y < i { p.shape.label() } else { g0[r][c] },
                self.collector == old(self).collector,
                self.score == old(self).score,
                self.game_over == old(self).game_over,
            decreases n - i,
        {
            let mut j: usize = 0;
            while j < n
                invariant
                    n == p.shape.side(),
                    rows_view(m@) == p.shape.cells(),
                    p.shape.cells().len() == n,
                    forall|k: int| 0 <= k < n ==> #[trigger] p.shape.cells()[k].len() == n,
                    forall|a: int, b: int|
                        0 <= a < n && 0 <= b < n ==> (#[trigger] p.shape.cells()[a][b] == 0
                            || p.shape.cells()[a][b] == p.shape.label()),
                    p == self.current,
                    p.inside(),
                    -1 <= p.x <= COLS - 2,
                    -1 <= p.y <= ROWS - 2,
                    grid_wf(g0),
                    self.cells().len() == ROWS,
                    forall|r: int| 0 <= r < ROWS ==> #[trigger] self.cells()[r].len() == COLS,
                    i < n,
                    j <= n,
                    forall|r: int, c: int|
                        0 <= r < ROWS && 0 <= c < COLS ==> #[trigger] self.cells()[r][c] == if p.covers(r, c)
                            && (r - p.y < i || (r - p.y == i && c - p.x < j)) {
                            p.shape.label()
                        } else {
                            g0[r][c]
                        },
                    self.collector == old(self).collector,
                    self.score == old(self).score,
                    self.game_over == old(self).game_over,
                decreases n - j,
            {
                assert(m@[i as int]@ == p.shape.cells()[i as int]);
                let v = m[i][j];
                if v != EMPTY {
                    assert(p.shape.occupied(i as int, j as int));
                    assert(is_interior(p.y + i, p.x + j));
                    let r = (p.y as i64 + i as i64) as usize;
                    let c = (p.x as i64 + j as i64) as usize;
                    assert(self.grid@[r as int]@ == self.cells()[r as int]);
                    set_cell(&mut self.grid, r, c, v);
                }
                j += 1;
            }
            i += 1;
        }
        proof {
            assert(self.cells() =~~= placed(g0, p));
        }
        let top = p.shape.y();
        if (p.y as i64) + (top as i64) < 2 {
            proof {
                let j = choose|j: int| p.shape.occupied(top as int, j);
                assert(p.shape.occupied(top as int, j));
            }
            self.game_over = true;
        } else {
            proof {
                assert forall|i: int, j: int| #[trigger] p.shape.occupied(i, j) implies !(p.y + i < 2) by {
                    if i < top {
                        assert(p.shape.row_used(i));
                    }
                }
            }
        }
    }

    /// Sweeps the playing rows from the top down: each full row met is
    /// removed, with the rows above it moving down and 50 points added to the
    /// score. Returns how many rows were removed.
    pub fn remove_full_lines(&mut self) -> (r: usize)
        requires
            old(self).wf(),
        ensures
            final(self).wf(),
            final(self).cells() == sweep(old(self).cells(), 1),
            r == sweep_count(old(self).cells(), 1),
            final(self).score == add_lines(old(self).score, r as nat),
            final(self).current == old(self).current,
            final(self).collector == old(self).collector,
            final(self).game_over == old(self).game_over,
    {
        let ghost g0 = self.cells();
        let mut count: usize = 0;
        let mut i: usize = 1;
        while i < ROWS - 1
            invariant
                1 <= i <= ROWS - 1,
                count < i,
                grid_wf(self.cells()),
                self.grid@.len() == ROWS,
                sweep(self.cells(), i as int) == sweep(g0, 1),
                count + sweep_count(self.cells(), i as int) == sweep_count(g0, 1),
                self.score == add_lines(old(self).score, count as nat),
                self.current == old(self).current,
                self.collector == old(self).collector,
                self.game_over == old(self).game_over,
            decreases ROWS - 1 - i,
        {
            let ghost g = self.cells();
            assert(self.grid@[i as int]@ == g[i as int]);
            if is_full_row(&self.grid[i]) {
                count += 1;
                self.score = self.score.saturating_add(LINE_SCORE);
                self.grid.remove(i);
                self.grid.insert(1, new_empty_row());
                proof {
                    assert(self.cells() =~~= drop_row(g, i as int));
                    lemma_drop_row_wf(g, i as int);
                }
            }
            i += 1;
        }
        count
    }

    /// Locks the falling piece, sweeps full rows and brings the next piece
    /// into play, as `locks_into` says. Returns how many rows were removed.
    pub fn lock_and_advance(&mut self) -> (lines: usize)
        requires
            old(self).wf(),
        ensures
            final(self).wf(),
            old(self).locks_into(*final(self), lines as nat),
    {
        if self.game_over {
            return 0;
        }
        self.place_current_piece();
        let lines = self.remove_full_lines();
        if !self.game_over {
            self.collector.next();
            let shape = self.collector.get_current();
            self.current = spawn(shape);
        }
        lines
    }

    /// Whether the game has ended.
    pub fn is_gameover(&self) -> (r: bool)
        ensures
            r == self.game_over,
    {
        self.game_over
    }
}

impl Board {
    /// The number of rows that the next lock step clears.
    pub open spec fn lock_lines(self) -> nat {
        if self.game_over {
            0
        } else {
            sweep_count(placed(self.cells(), self.current), 1)
        }
    }

    /// One gravity step: the piece falls a row if that overlaps nothing;
    /// otherwise the board takes a lock step.
    pub open spec fn falls_into(self, next: Board) -> bool {
        if overlaps(self.cells(), self.current, 0, 1) {
            self.locks_into(next, self.lock_lines())
        } else {
            next == (Board { current: self.current.moved(0, 1), ..self })
        }
    }

    /// Turns the falling piece clockwise by the given amount, one checked
    /// quarter turn (with wall kicks) at a time; a refused turn leaves the
    /// piece as it is.
    pub fn rotate_current(&mut self, degrees: Rotation)
        requires
            old(self).wf(),
        ensures
            final(self).wf(),
            *final(self) == (Board {
                current: turn_times(old(self).cells(), old(self).current, degrees.quarters()),
                ..*old(self)
            }),
    {
        let k: usize = match degrees {
            Rotation::Rotate0 => 0,
            Rotation::Rotate90 => 1,
            Rotation::Rotate180 => 2,
            Rotation::Rotate270 => 3,
        };
        let ghost g = self.cells();
        let ghost start = self.current;
        let mut done: usize = 0;
        while done < k
            invariant
                self.wf(),
                g == self.cells(),
                done <= k,
                k == degrees.quarters(),
                turn_times(g, self.current, (k - done) as nat) == turn_times(g, start, k as nat),
                *self == (Board { current: self.current, ..*old(self) }),
            decreases k - done,
        {
            if let Ok(piece) = rotate(self, &self.current) {
                self.current = piece;
            }
            done += 1;
        }
    }

    /// Steers the falling piece towards column `x`, one checked step at a
    /// time, with at most five attempted steps.
    pub fn move_current_to(&mut self, x: usize)
        requires
            old(self).wf(),
        ensures
            final(self).wf(),
            *final(self) == (Board {
                current: steered(old(self).cells(), old(self).current, x as int),
                ..*old(self)
            }),
    {
        let ghost g = self.cells();
        let ghost start = self.current;
        let target: i64 = if x > 1000 { 1000 } else { x as i64 };
        let mut tries: usize = 0;
        while (self.current.x as i64) < target && tries < 5
            invariant
                self.wf(),
                g == self.cells(),
                tries <= 5,
                target == if x > 1000 { 1000 } else { x as int },
                steer_right(g, self.current, x as int, tries as nat) == steer_right(g, start, x as int, 0),
                *self == (Board { current: self.current, ..*old(self) }),
            decreases 5 - tries,
        {
            proof {
                lemma_inside_bounds(self.current);
            }
            if let Ok(piece) = right(self, &self.current) {
                self.current = piece;
            }
            tries += 1;
        }
        proof {
            lemma_inside_bounds(self.current);
        }
        let ghost mid = self.current;
        let ghost k0 = tries;
        assert(steer_right(g, self.current, x as int, tries as nat) == (mid, k0 as nat));
        while (self.current.x as i64) > target && tries < 5
            invariant
                self.wf(),
                g == self.cells(),
                tries <= 5,
                target == if x > 1000 { 1000 } else { x as int },
                steer_right(g, start, x as int, 0) == (mid, k0 as nat),
                steer_left(g, self.current, x as int, tries as nat) == steer_left(
                    g,
                    mid,
                    x as int,
                    k0 as nat,
                ),
                *self == (Board { current: self.current, ..*old(self) }),
            decreases 5 - tries,
        {
            proof {
                lemma_inside_bounds(self.current);
            }
            if let Ok(piece) = left(self, &self.current) {
                self.current = piece;
            }
            tries += 1;
        }
    }
}

/// Rows `i` to `j - 1` are not full: the sweep passes over them untouched.
proof fn lemma_sweep_skip(g: Seq<Seq<u8>>, i: int, j: int)
    requires
        1 <= i <= j <= ROWS - 1,
        forall|r: int| i <= r < j ==> !row_full(#[trigger] g[r]),
    ensures
        sweep(g, i) == sweep(g, j),
        sweep_count(g, i) == sweep_count(g, j),
    decreases j - i,
{
    if i < j {
        lemma_sweep_skip(g, i + 1, j);
    }
}

/// No playing row of a well-formed grid holds a cell of a piece at every
/// column: a piece is at most four columns wide, a playing row eight.
proof fn lemma_piece_fills_no_row(g: Seq<Seq<u8>>, p: Piece, r: int)
    requires
        grid_wf(g),
        p.shape.wf(),
        1 <= r < ROWS - 1,
        forall|c: int| 1 <= c < COLS - 1 ==> #[trigger] g[r][c] == EMPTY,
    ensures
        !row_full(placed(g, p)[r]),
{
    let c = if p.x <= 1 { COLS - 2 } else { 1 };
    assert(!p.covers(r, c as int));
    assert(placed(g, p)[r][c as int] == EMPTY);
}

/// Locking a piece on a board whose playing area is empty clears no row and
/// leaves the score as it was.
pub proof fn lemma_lock_on_empty_board(b: Board, next: Board, lines: nat)
    requires
        b.wf(),
        forall|r: int, c: int| is_interior(r, c) ==> #[trigger] b.cells()[r][c] == EMPTY,
        b.locks_into(next, lines),
    ensures
        lines == 0,
        next.score == b.score,
        !b.game_over ==> next.cells() == placed(b.cells(), b.current),
{
    if !b.game_over {
        let g = b.cells();
        let p = b.current;
        let g1 = placed(g, p);
        assert forall|r: int| 1 <= r < ROWS - 1 implies !row_full(#[trigger] g1[r]) by {
            assert forall|c: int| 1 <= c < COLS - 1 implies #[trigger] g[r][c] == EMPTY by {
                assert(is_interior(r, c));
            }
            lemma_piece_fills_no_row(g, p, r);
        }
        lemma_sweep_skip(g1, 1, ROWS - 1);
    }
}

/// When playing row `row` lacks only the cell at column `col`, and the
/// locked piece covers that cell without completing any other row, the lock
/// step clears exactly that row: 50 more points, every row above it one row
/// lower, and the top playing row empty between its two walls.
pub proof fn lemma_single_line_clear(b: Board, next: Board, lines: nat, row: int, col: int)
    requires
        b.wf(),
        !b.game_over,
        1 <= row < ROWS - 1,
        1 <= col < COLS - 1,
        b.cells()[row][col] == EMPTY,
        forall|c: int| 1 <= c < COLS - 1 && c != col ==> #[trigger] b.cells()[row][c] != EMPTY,
        b.current.covers(row, col),
        forall|r: int|
            1 <= r < ROWS - 1 && r != row ==> !row_full(
                #[trigger] placed(b.cells(), b.current)[r],
            ),
        b.score + LINE_SCORE <= u64::MAX,
        b.locks_into(next, lines),
    ensures
        lines == 1,
        next.score == b.score + LINE_SCORE,
        next.cells()[1] == empty_row(),
        forall|r: int| 2 <= r <= row ==> #[trigger] next.cells()[r] == placed(b.cells(), b.current)[r - 1],
        forall|r: int| r == 0 || row < r < ROWS ==> #[trigger] next.cells()[r] == placed(b.cells(), b.current)[r],
{
    let g = b.cells();
    let p = b.current;
    let g1 = placed(g, p);
    p.shape.lemma_matrix_shape();
    assert forall|c: int| 0 <= c < g1[row].len() implies #[trigger] g1[row][c] != EMPTY by {
        if c == col {
            assert(p.shape.occupied(row - p.y, col - p.x));
        } else if c == 0 || c == COLS - 1 {
            assert(is_border(row, c));
        } else if p.covers(row, c) {
            assert(p.shape.occupied(row - p.y, c - p.x));
        } else {
            assert(g[row][c] != EMPTY);
        }
    }
    lemma_sweep_skip(g1, 1, row);
    let g2 = drop_row(g1, row);
    assert forall|r: int| row + 1 <= r < ROWS - 1 implies !row_full(#[trigger] g2[r]) by {
        assert(g2[r] == g1[r]);
    }
    lemma_sweep_skip(g2, row + 1, ROWS - 1);
}

/// Once a board's game is over it stays over: a lock step changes nothing,
/// and a gravity step keeps the flag.
pub proof fn lemma_game_over_stays(b: Board, next: Board)
    requires
        b.game_over,
        b.locks_into(next, b.lock_lines()) || b.falls_into(next),
    ensures
        next.game_over,
{
}

} // verus!

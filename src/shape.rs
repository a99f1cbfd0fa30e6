use vstd::prelude::*;

verus! {

/// A tetromino kind together with its rotation state: the number of clockwise
/// quarter turns from the spawn orientation, in `0..4`.
#[derive(Clone, Copy, PartialEq, Eq, Debug, Structural)]
pub enum Shape {
    I(u8),
    J(u8),
    L(u8),
    O(u8),
    S(u8),
    T(u8),
    Z(u8),
}

/// A turn of a quarter multiple, clockwise.
#[derive(Clone, Copy, PartialEq, Eq, Debug, Structural)]
pub enum Rotation {
    Rotate0,
    Rotate90,
    Rotate180,
    Rotate270,
}

impl Rotation {
    /// The number of clockwise quarter turns.
    pub open spec fn quarters(self) -> nat {
        match self {
            Rotation::Rotate0 => 0,
            Rotation::Rotate90 => 1,
            Rotation::Rotate180 => 2,
            Rotation::Rotate270 => 3,
        }
    }
}

/// The rows of a matrix held as a vector of row vectors.
pub open spec fn rows_view(m: Seq<Vec<u8>>) -> Seq<Seq<u8>> {
    m.map_values(|row: Vec<u8>| row@)
}

impl Shape {
    pub open spec fn turns(self) -> u8 {
        match self {
            Shape::I(r) => r,
            Shape::J(r) => r,
            Shape::L(r) => r,
            Shape::O(r) => r,
            Shape::S(r) => r,
            Shape::T(r) => r,
            Shape::Z(r) => r,
        }
    }

    /// A shape is valid when its rotation state is one of the four quarter turns.
    pub open spec fn wf(self) -> bool {
        self.turns() < 4
    }

    /// The label of the kind: the value its cells carry in the occupancy matrix
    /// and in a board's grid.
    pub open spec fn label(self) -> u8 {
        match self {
            Shape::I(_) => 1,
            Shape::J(_) => 2,
            Shape::L(_) => 3,
            Shape::O(_) => 4,
            Shape::S(_) => 5,
            Shape::T(_) => 6,
            Shape::Z(_) => 7,
        }
    }

    /// The same kind in the given rotation state.
    pub open spec fn with_turns(self, r: u8) -> Shape {
        match self {
            Shape::I(_) => Shape::I(r),
            Shape::J(_) => Shape::J(r),
            Shape::L(_) => Shape::L(r),
            Shape::O(_) => Shape::O(r),
            Shape::S(_) => Shape::S(r),
            Shape::T(_) => Shape::T(r),
            Shape::Z(_) => Shape::Z(r),
        }
    }

    /// The same kind turned a quarter clockwise.
    pub open spec fn turned(self) -> Shape {
        self.with_turns(((self.turns() + 1) % 4) as u8)
    }

    /// The side of the square occupancy matrix.
    pub open spec fn side(self) -> int {
        match self {
            Shape::I(_) => 4,
            Shape::O(_) => 2,
            _ => 3,
        }
    }

    /// The occupancy matrix, row by row: 0 for an empty cell, the kind's label
    /// for an occupied one.
    pub open spec fn cells(self) -> Seq<Seq<u8>> {
        match self {
            Shape::I(0) => seq![seq![0u8, 0, 0, 0], seq![1u8, 1, 1, 1], seq![0u8, 0, 0, 0], seq![0u8, 0, 0, 0]],
            Shape::I(1) => seq![seq![0u8, 0, 1, 0], seq![0u8, 0, 1, 0], seq![0u8, 0, 1, 0], seq![0u8, 0, 1, 0]],
            Shape::I(2) => seq![seq![0u8, 0, 0, 0], seq![0u8, 0, 0, 0], seq![1u8, 1, 1, 1], seq![0u8, 0, 0, 0]],
            Shape::I(3) => seq![seq![0u8, 1, 0, 0], seq![0u8, 1, 0, 0], seq![0u8, 1, 0, 0], seq![0u8, 1, 0, 0]],
            Shape::J(0) => seq![seq![2u8, 0, 0], seq![2u8, 2, 2], seq![0u8, 0, 0]],
            Shape::J(1) => seq![seq![0u8, 2, 2], seq![0u8, 2, 0], seq![0u8, 2, 0]],
            Shape::J(2) => seq![seq![0u8, 0, 0], seq![2u8, 2, 2], seq![0u8, 0, 2]],
            Shape::J(3) => seq![seq![0u8, 2, 0], seq![0u8, 2, 0], seq![2u8, 2, 0]],
            Shape::L(0) => seq![seq![0u8, 0, 3], seq![3u8, 3, 3], seq![0u8, 0, 0]],
            Shape::L(1) => seq![seq![0u8, 3, 0], seq![0u8, 3, 0], seq![0u8, 3, 3]],
            Shape::L(2) => seq![seq![0u8, 0, 0], seq![3u8, 3, 3], seq![3u8, 0, 0]],
            Shape::L(3) => seq![seq![3u8, 3, 0], seq![0u8, 3, 0], seq![0u8, 3, 0]],
            Shape::O(_) => seq![seq![4u8, 4], seq![4u8, 4]],
            Shape::S(0) => seq![seq![0u8, 5, 5], seq![5u8, 5, 0], seq![0u8, 0, 0]],
            Shape::S(1) => seq![seq![0u8, 5, 0], seq![0u8, 5, 5], seq![0u8, 0, 5]],
            Shape::S(2) => seq![seq![0u8, 0, 0], seq![0u8, 5, 5], seq![5u8, 5, 0]],
            Shape::S(3) => seq![seq![5u8, 0, 0], seq![5u8, 5, 0], seq![0u8, 5, 0]],
            Shape::T(0) => seq![seq![0u8, 6, 0], seq![6u8, 6, 6], seq![0u8, 0, 0]],
            Shape::T(1) => seq![seq![0u8, 6, 0], seq![0u8, 6, 6], seq![0u8, 6, 0]],
            Shape::T(2) => seq![seq![0u8, 0, 0], seq![6u8, 6, 6], seq![0u8, 6, 0]],
            Shape::T(3) => seq![seq![0u8, 6, 0], seq![6u8, 6, 0], seq![0u8, 6, 0]],
            Shape::Z(0) => seq![seq![7u8, 7, 0], seq![0u8, 7, 7], seq![0u8, 0, 0]],
            Shape::Z(1) => seq![seq![0u8, 0, 7], seq![0u8, 7, 7], seq![0u8, 7, 0]],
            Shape::Z(2) => seq![seq![0u8, 0, 0], seq![7u8, 7, 0], seq![0u8, 7, 7]],
            Shape::Z(3) => seq![seq![0u8, 7, 0], seq![7u8, 7, 0], seq![7u8, 0, 0]],
            _ => seq![],
        }
    }

    /// Cell `(i, j)` (row `i`, column `j`) of the matrix is occupied.
    pub open spec fn occupied(self, i: int, j: int) -> bool {
        0 <= i < self.side() && 0 <= j < self.side() && self.cells()[i][j] != 0
    }

    pub open spec fn col_used(self, j: int) -> bool {
        exists|i: int| #[trigger] self.occupied(i, j)
    }

    pub open spec fn row_used(self, i: int) -> bool {
        exists|j: int| #[trigger] self.occupied(i, j)
    }

    /// How many of the first `n` columns hold an occupied cell.
    pub open spec fn used_cols(self, n: int) -> int
        decreases n,
    {
        if n <= 0 {
            0
        } else {
            self.used_cols(n - 1) + if self.col_used(n - 1) { 1int } else { 0int }
        }
    }

    /// How many of the first `n` rows hold an occupied cell.
    pub open spec fn used_rows(self, n: int) -> int
        decreases n,
    {
        if n <= 0 {
            0
        } else {
            self.used_rows(n - 1) + if self.row_used(n - 1) { 1int } else { 0int }
        }
    }

    pub open spec fn rgb(self) -> (u8, u8, u8) {
        match self {
            Shape::I(_) => (249, 35, 56),
            Shape::J(_) => (201, 115, 255),
            Shape::L(_) => (28, 118, 188),
            Shape::O(_) => (254, 227, 86),
            Shape::S(_) => (83, 213, 4),
            Shape::T(_) => (54, 224, 255),
            Shape::Z(_) => (248, 147, 29),
        }
    }

    /// The kind whose label is `index`, in its spawn orientation.
    pub open spec fn of_label(index: u8) -> Shape {
        match index {
            1 => Shape::I(0),
            2 => Shape::J(0),
            3 => Shape::L(0),
            4 => Shape::O(0),
            5 => Shape::S(0),
            6 => Shape::T(0),
            _ => Shape::Z(0),
        }
    }

    /// The matrix is `side` by `side`, and each cell is empty or carries the label.
    pub proof fn lemma_matrix_shape(self)
        requires
            self.wf(),
        ensures
            self.cells().len() == self.side(),
            forall|i: int| 0 <= i < self.side() ==> #[trigger] self.cells()[i].len() == self.side(),
            forall|i: int, j: int|
                0 <= i < self.side() && 0 <= j < self.side() ==> (#[trigger] self.cells()[i][j]
                    == 0 || self.cells()[i][j] == self.label()),
            self.label() >= 1 && self.label() <= 7,
    {
    }

    /// Every shape has an occupied cell at one of three places near the centre.
    pub proof fn lemma_has_cell(self)
        requires
            self.wf(),
        ensures
            self.occupied(1, 1) || self.occupied(1, 2) || self.occupied(2, 1),
    {
    }

    /// The occupancy matrix of this shape.
    pub fn value(&self) -> (r: Vec<Vec<u8>>)
        requires
            self.wf(),
        ensures
            rows_view(r@) == self.cells(),
    {
        match *self {
            Shape::I(0) => {
                let v = vec![vec![0u8, 0, 0, 0], vec![1u8, 1, 1, 1], vec![0u8, 0, 0, 0], vec![0u8, 0, 0, 0]];
                assert(rows_view(v@) =~~= self.cells());
                v
            },
            Shape::I(1) => {
                let v = vec![vec![0u8, 0, 1, 0], vec![0u8, 0, 1, 0], vec![0u8, 0, 1, 0], vec![0u8, 0, 1, 0]];
                assert(rows_view(v@) =~~= self.cells());
                v
            },
            Shape::I(2) => {
                let v = vec![vec![0u8, 0, 0, 0], vec![0u8, 0, 0, 0], vec![1u8, 1, 1, 1], vec![0u8, 0, 0, 0]];
                assert(rows_view(v@) =~~= self.cells());
                v
            },
            Shape::I(3) => {
                let v = vec![vec![0u8, 1, 0, 0], vec![0u8, 1, 0, 0], vec![0u8, 1, 0, 0], vec![0u8, 1, 0, 0]];
                assert(rows_view(v@) =~~= self.cells());
                v
            },
            Shape::J(0) => {
                let v = vec![vec![2u8, 0, 0], vec![2u8, 2, 2], vec![0u8, 0, 0]];
                assert(rows_view(v@) =~~= self.cells());
                v
            },
            Shape::J(1) => {
                let v = vec![vec![0u8, 2, 2], vec![0u8, 2, 0], vec![0u8, 2, 0]];
                assert(rows_view(v@) =~~= self.cells());
                v
            },
            Shape::J(2) => {
                let v = vec![vec![0u8, 0, 0], vec![2u8, 2, 2], vec![0u8, 0, 2]];
                assert(rows_view(v@) =~~= self.cells());
                v
            },
            Shape::J(3) => {
                let v = vec![vec![0u8, 2, 0], vec![0u8, 2, 0], vec![2u8, 2, 0]];
                assert(rows_view(v@) =~~= self.cells());
                v
            },
            Shape::L(0) => {
                let v = vec![vec![0u8, 0, 3], vec![3u8, 3, 3], vec![0u8, 0, 0]];
                assert(rows_view(v@) =~~= self.cells());
                v
            },
            Shape::L(1) => {
                let v = vec![vec![0u8, 3, 0], vec![0u8, 3, 0], vec![0u8, 3, 3]];
                assert(rows_view(v@) =~~= self.cells());
                v
            },
            Shape::L(2) => {
                let v = vec![vec![0u8, 0, 0], vec![3u8, 3, 3], vec![3u8, 0, 0]];
                assert(rows_view(v@) =~~= self.cells());
                v
            },
            Shape::L(3) => {
                let v = vec![vec![3u8, 3, 0], vec![0u8, 3, 0], vec![0u8, 3, 0]];
                assert(rows_view(v@) =~~= self.cells());
                v
            },
            Shape::O(_) => {
                let v = vec![vec![4u8, 4], vec![4u8, 4]];
                assert(rows_view(v@) =~~= self.cells());
                v
            },
            Shape::S(0) => {
                let v = vec![vec![0u8, 5, 5], vec![5u8, 5, 0], vec![0u8, 0, 0]];
                assert(rows_view(v@) =~~= self.cells());
                v
            },
            Shape::S(1) => {
                let v = vec![vec![0u8, 5, 0], vec![0u8, 5, 5], vec![0u8, 0, 5]];
                assert(rows_view(v@) =~~= self.cells());
                v
            },
            Shape::S(2) => {
                let v = vec![vec![0u8, 0, 0], vec![0u8, 5, 5], vec![5u8, 5, 0]];
                assert(rows_view(v@) =~~= self.cells());
                v
            },
            Shape::S(3) => {
                let v = vec![vec![5u8, 0, 0], vec![5u8, 5, 0], vec![0u8, 5, 0]];
                assert(rows_view(v@) =~~= self.cells());
                v
            },
            Shape::T(0) => {
                let v = vec![vec![0u8, 6, 0], vec![6u8, 6, 6], vec![0u8, 0, 0]];
                assert(rows_view(v@) =~~= self.cells());
                v
            },
            Shape::T(1) => {
                let v = vec![vec![0u8, 6, 0], vec![0u8, 6, 6], vec![0u8, 6, 0]];
                assert(rows_view(v@) =~~= self.cells());
                v
            },
            Shape::T(2) => {
                let v = vec![vec![0u8, 0, 0], vec![6u8, 6, 6], vec![0u8, 6, 0]];
                assert(rows_view(v@) =~~= self.cells());
                v
            },
            Shape::T(3) => {
                let v = vec![vec![0u8, 6, 0], vec![6u8, 6, 0], vec![0u8, 6, 0]];
                assert(rows_view(v@) =~~= self.cells());
                v
            },
            Shape::Z(0) => {
                let v = vec![vec![7u8, 7, 0], vec![0u8, 7, 7], vec![0u8, 0, 0]];
                assert(rows_view(v@) =~~= self.cells());
                v
            },
            Shape::Z(1) => {
                let v = vec![vec![0u8, 0, 7], vec![0u8, 7, 7], vec![0u8, 7, 0]];
                assert(rows_view(v@) =~~= self.cells());
                v
            },
            Shape::Z(2) => {
                let v = vec![vec![0u8, 0, 0], vec![7u8, 7, 0], vec![0u8, 7, 7]];
                assert(rows_view(v@) =~~= self.cells());
                v
            },
            Shape::Z(3) => {
                let v = vec![vec![0u8, 7, 0], vec![7u8, 7, 0], vec![7u8, 0, 0]];
                assert(rows_view(v@) =~~= self.cells());
                v
            },
            _ => {
                assert(false);
                Vec::new()
            }
        }
    }

    /// The colour (red, green, blue) used to draw the kind.
    pub fn color(&self) -> (r: (u8, u8, u8))
        ensures
            r == self.rgb(),
    {
        match *self {
            Shape::I(_) => (249, 35, 56),
            Shape::J(_) => (201, 115, 255),
            Shape::L(_) => (28, 118, 188),
            Shape::O(_) => (254, 227, 86),
            Shape::S(_) => (83, 213, 4),
            Shape::T(_) => (54, 224, 255),
            Shape::Z(_) => (248, 147, 29),
        }
    }

    /// The same kind turned a quarter clockwise.
    pub fn rotate_clockwise(&self) -> (r: Shape)
        requires
            self.wf(),
        ensures
            r == self.turned(),
            r.wf(),
    {
        match *self {
            Shape::I(i) => Shape::I((i + 1) % 4),
            Shape::J(i) => Shape::J((i + 1) % 4),
            Shape::L(i) => Shape::L((i + 1) % 4),
            Shape::O(i) => Shape::O((i + 1) % 4),
            Shape::S(i) => Shape::S((i + 1) % 4),
            Shape::T(i) => Shape::T((i + 1) % 4),
            Shape::Z(i) => Shape::Z((i + 1) % 4),
        }
    }

    /// The first column of the matrix that holds an occupied cell.
    pub fn x(&self) -> (r: usize)
        requires
            self.wf(),
        ensures
            r < self.side(),
            self.col_used(r as int),
            forall|j: int| 0 <= j < r ==> !self.col_used(j),
    {
        proof {
            self.lemma_matrix_shape();
            self.lemma_has_cell();
        }
        let m = self.value();
        let n = m.len();
        let mut j: usize = 0;
        while j < n
            invariant
                n == self.side(),
                rows_view(m@) == self.cells(),
                self.cells().len() == n,
                forall|i: int| 0 <= i < n ==> #[trigger] self.cells()[i].len() == n,
                j <= n,
                forall|jj: int| 0 <= jj < j ==> !self.col_used(jj),
            decreases n - j,
        {
            let mut i: usize = 0;
            while i < n
                invariant
                    n == self.side(),
                    rows_view(m@) == self.cells(),
                    self.cells().len() == n,
                    forall|k: int| 0 <= k < n ==> #[trigger] self.cells()[k].len() == n,
                    j < n,
                    i <= n,
                    forall|jj: int| 0 <= jj < j ==> !self.col_used(jj),
                    forall|ii: int| 0 <= ii < i ==> !self.occupied(ii, j as int),
                decreases n - i,
            {
                assert(m@[i as int]@ == self.cells()[i as int]);
                if m[i][j] > 0 {
                    assert(self.occupied(i as int, j as int));
                    return j;
                }
                i += 1;
            }
            assert(!self.col_used(j as int));
            j += 1;
        }
        assert(!self.col_used(1) && !self.col_used(2));
        0
    }

    /// The first row of the matrix that holds an occupied cell.
    pub fn y(&self) -> (r: usize)
        requires
            self.wf(),
        ensures
            r < self.side(),
            self.row_used(r as int),
            forall|i: int| 0 <= i < r ==> !self.row_used(i),
    {
        proof {
            self.lemma_matrix_shape();
            self.lemma_has_cell();
        }
        let m = self.value();
        let n = m.len();
        let mut i: usize = 0;
        while i < n
            invariant
                n == self.side(),
                rows_view(m@) == self.cells(),
                self.cells().len() == n,
                forall|k: int| 0 <= k < n ==> #[trigger] self.cells()[k].len() == n,
                i <= n,
                forall|ii: int| 0 <= ii < i ==> !self.row_used(ii),
            decreases n - i,
        {
            let mut j: usize = 0;
            while j < n
                invariant
                    n == self.side(),
                    rows_view(m@) == self.cells(),
                    self.cells().len() == n,
                    forall|k: int| 0 <= k < n ==> #[trigger] self.cells()[k].len() == n,
                    i < n,
                    j <= n,
                    forall|ii: int| 0 <= ii < i ==> !self.row_used(ii),
                    forall|jj: int| 0 <= jj < j ==> !self.occupied(i as int, jj),
                decreases n - j,
            {
                assert(m@[i as int]@ == self.cells()[i as int]);
                if m[i][j] > 0 {
                    assert(self.occupied(i as int, j as int));
                    return i;
                }
                j += 1;
            }
            assert(!self.row_used(i as int));
            i += 1;
        }
        assert(!self.row_used(1) && !self.row_used(2));
        0
    }

    /// The number of columns of the matrix that hold an occupied cell: the
    /// width of the shape.
    pub fn w(&self) -> (r: usize)
        requires
            self.wf(),
        ensures
            r == self.used_cols(self.side()),
            r <= self.side(),
    {
        proof {
            self.lemma_matrix_shape();
        }
        let m = self.value();
        let n = m.len();
        let mut width = n;
        let mut j: usize = 0;
        while j < n
            invariant
                n == self.side(),
                rows_view(m@) == self.cells(),
                self.cells().len() == n,
                forall|k: int| 0 <= k < n ==> #[trigger] self.cells()[k].len() == n,
                j <= n,
                0 <= self.used_cols(j as int) <= j,
                width == n - j + self.used_cols(j as int),
            decreases n - j,
        {
            let mut count: usize = 0;
            let mut i: usize = 0;
            while i < n
                invariant
                    n == self.side(),
                    rows_view(m@) == self.cells(),
                    self.cells().len() == n,
                    forall|k: int| 0 <= k < n ==> #[trigger] self.cells()[k].len() == n,
                    j < n,
                    i <= n,
                    count <= i,
                    count == 0 <==> forall|ii: int| 0 <= ii < i ==> !self.occupied(ii, j as int),
                decreases n - i,
            {
                assert(m@[i as int]@ == self.cells()[i as int]);
                if m[i][j] != 0 {
                    assert(self.occupied(i as int, j as int));
                    count += 1;
                }
                i += 1;
            }
            if count == 0 {
                width -= 1;
            } else {
                assert(self.col_used(j as int));
            }
            j += 1;
        }
        width
    }

    /// The number of rows of the matrix that hold an occupied cell: the
    /// height of the shape.
    pub fn h(&self) -> (r: usize)
        requires
            self.wf(),
        ensures
            r == self.used_rows(self.side()),
            r <= self.side(),
    {
        proof {
            self.lemma_matrix_shape();
        }
        let m = self.value();
        let n = m.len();
        let mut height = n;
        let mut i: usize = 0;
        while i < n
            invariant
                n == self.side(),
                rows_view(m@) == self.cells(),
                self.cells().len() == n,
                forall|k: int| 0 <= k < n ==> #[trigger] self.cells()[k].len() == n,
                i <= n,
                0 <= self.used_rows(i as int) <= i,
                height == n - i + self.used_rows(i as int),
            decreases n - i,
        {
            let mut count: usize = 0;
            let mut j: usize = 0;
            while j < n
                invariant
                    n == self.side(),
                    rows_view(m@) == self.cells(),
                    self.cells().len() == n,
                    forall|k: int| 0 <= k < n ==> #[trigger] self.cells()[k].len() == n,
                    i < n,
                    j <= n,
                    count <= j,
                    count == 0 <==> forall|jj: int| 0 <= jj < j ==> !self.occupied(i as int, jj),
                decreases n - j,
            {
                assert(m@[i as int]@ == self.cells()[i as int]);
                if m[i][j] != 0 {
                    assert(self.occupied(i as int, j as int));
                    count += 1;
                }
                j += 1;
            }
            if count == 0 {
                height -= 1;
            } else {
                assert(self.row_used(i as int));
            }
            i += 1;
        }
        height
    }

    /// The kind with label `index` in its spawn orientation, if `index` is a label.
    pub fn from_index(index: u8) -> (r: Option<Shape>)
        ensures
            r.is_some() <==> 1 <= index <= 7,
            r.is_some() ==> r == Some(Shape::of_label(index)),
    {
        match index {
            1 => Some(Shape::I(0)),
            2 => Some(Shape::J(0)),
            3 => Some(Shape::L(0)),
            4 => Some(Shape::O(0)),
            5 => Some(Shape::S(0)),
            6 => Some(Shape::T(0)),
            7 => Some(Shape::Z(0)),
            _ => None,
        }
    }
}

/// Four clockwise quarter turns bring every shape back to its own rotation
/// state, and so to the very same occupancy matrix.
pub proof fn lemma_full_turn(s: Shape)
    requires
        s.wf(),
    ensures
        s.turned().turned().turned().turned() == s,
        s.turned().turned().turned().turned().cells() == s.cells(),
{
}

} // verus!

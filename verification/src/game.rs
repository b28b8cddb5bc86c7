use vstd::pervasive::VecAdditionalExecFns;
use vstd::prelude::*;

verus! {

/// The two states a cell of the automaton can be in.
#[allow(non_camel_case_types)]
#[derive(Copy, Clone, Debug, PartialEq, Eq, Structural)]
pub enum State {
    DEAD,
    ALIVE,
}

/// Why an operation on a `Game` was refused.
#[derive(Copy, Clone, Debug, PartialEq, Eq, Structural)]
pub enum Error {
    /// `Game::new` was given a zero width or a zero height.
    InvalidDimensions,
    /// A coordinate lay outside `[0, width) x [0, height)`.
    OutOfBounds,
}

/// A Game of Life universe: a dense grid of cells stored row-major,
/// so the cell at `(x, y)` sits at index `x + y * width`.
#[derive(Debug)]
pub struct Game {
    pub width: usize,
    pub height: usize,
    pub grid: Vec<State>,
}

impl Game {
    /// Well-formedness: the dimensions are positive and the buffer holds
    /// exactly one cell per coordinate pair.
    pub open spec fn wf(self) -> bool {
        &&& self.width > 0
        &&& self.height > 0
        &&& self.grid@.len() == self.width * self.height
    }

    /// The grid width, as a mathematical integer.
    pub open spec fn spec_width(self) -> int {
        self.width as int
    }

    /// The grid height, as a mathematical integer.
    pub open spec fn spec_height(self) -> int {
        self.height as int
    }

    /// The cell buffer, as a sequence in row-major order.
    pub open spec fn cells(self) -> Seq<State> {
        self.grid@
    }

    /// Whether `(x, y)` lies inside the grid.
    pub open spec fn in_bounds(self, x: int, y: int) -> bool {
        0 <= x < self.spec_width() && 0 <= y < self.spec_height()
    }

    /// The state of the cell at `(x, y)`.
    pub open spec fn cell(self, x: int, y: int) -> State {
        self.cells()[x + y * self.spec_width()]
    }

    /// Constructs a grid of the given dimensions with every cell `DEAD`.
    /// Refused with `InvalidDimensions` exactly when a dimension is zero.
    pub fn new(width: usize, height: usize) -> (r: Result<Game, Error>)
        requires
            width * height <= usize::MAX,
        ensures
            match r {
                Ok(g) => {
                    &&& width > 0
                    &&& height > 0
                    &&& g.wf()
                    &&& g.spec_width() == width
                    &&& g.spec_height() == height
                    &&& forall|x: int, y: int| g.in_bounds(x, y) ==> g.cell(x, y) == State::DEAD
                },
                Err(e) => {
                    &&& e == Error::InvalidDimensions
                    &&& (width == 0 || height == 0)
                },
            },
    {
        if width == 0 || height == 0 {
            return Err(Error::InvalidDimensions);
        }
        let n = width * height;
        let mut grid: Vec<State> = Vec::new();
        let mut i: usize = 0;
        while i < n
            invariant
                i <= n,
                grid@.len() == i,
                forall|k: int| 0 <= k < i ==> grid@[k] == State::DEAD,
            decreases n - i,
        {
            grid.push(State::DEAD);
            i = i + 1;
        }
        let g = Game { width, height, grid };
        proof {
            assert forall|x: int, y: int| g.in_bounds(x, y) implies g.cell(x, y) == State::DEAD by {
                lemma_idx_in_range(width as int, height as int, x, y);
            }
        }
        Ok(g)
    }

    /// 1 if `(x, y)` lies inside the grid and holds a live cell, else 0.
    /// An out-of-bounds position contributes nothing: the grid has hard
    /// edges, not a wrap-around topology.
    pub open spec fn live_at(self, x: int, y: int) -> nat {
        if self.in_bounds(x, y) && self.cell(x, y) == State::ALIVE {
            1nat
        } else {
            0nat
        }
    }

    /// The number of live cells among the 8 positions adjacent to `(x, y)`.
    pub open spec fn spec_neighbors(self, x: int, y: int) -> nat {
        self.live_at(x - 1, y - 1) + self.live_at(x, y - 1) + self.live_at(x + 1, y - 1)
            + self.live_at(x - 1, y) + self.live_at(x + 1, y) + self.live_at(x - 1, y + 1)
            + self.live_at(x, y + 1) + self.live_at(x + 1, y + 1)
    }

    /// 1 if `(x, y)` lies inside the grid, else 0.
    pub open spec fn slot_at(self, x: int, y: int) -> nat {
        if self.in_bounds(x, y) {
            1nat
        } else {
            0nat
        }
    }

    /// How many of the 8 positions adjacent to `(x, y)` lie inside the grid.
    pub open spec fn spec_in_bounds_neighbors(self, x: int, y: int) -> nat {
        self.slot_at(x - 1, y - 1) + self.slot_at(x, y - 1) + self.slot_at(x + 1, y - 1)
            + self.slot_at(x - 1, y) + self.slot_at(x + 1, y) + self.slot_at(x - 1, y + 1)
            + self.slot_at(x, y + 1) + self.slot_at(x + 1, y + 1)
    }

    /// Conway's transition rule for one cell: a cell with fewer than 2 live
    /// neighbors dies of underpopulation, one with exactly 2 keeps its state,
    /// one with exactly 3 is alive in the next generation (survival or
    /// birth), and one with more than 3 dies of overpopulation.
    pub open spec fn next_state(cur: State, n: nat) -> State {
        if n < 2 {
            State::DEAD
        } else if n == 2 {
            cur
        } else if n == 3 {
            State::ALIVE
        } else {
            State::DEAD
        }
    }

    /// The state the cell at `(x, y)` takes in the next generation.
    pub open spec fn next_cell(self, x: int, y: int) -> State {
        Self::next_state(self.cell(x, y), self.spec_neighbors(x, y))
    }

    /// Whether the in-bounds cell at `(x, y)` is alive.
    fn is_alive(&self, x: usize, y: usize) -> (r: bool)
        requires
            self.wf(),
            self.in_bounds(x as int, y as int),
        ensures
            r == (self.cell(x as int, y as int) == State::ALIVE),
    {
        proof {
            assert(self.grid@.len() == self.grid.len());
            lemma_idx_in_range(self.spec_width(), self.spec_height(), x as int, y as int);
        }
        let idx = x + y * self.width;
        self.grid[idx] == State::ALIVE
    }

    /// Counts the live cells among the 8 neighbors of `(x, y)`; a neighbor
    /// outside the grid counts as `DEAD`. Refused with `OutOfBounds` exactly
    /// when `(x, y)` itself lies outside the grid.
    pub fn count_neighbors(&self, x: usize, y: usize) -> (r: Result<u8, Error>)
        requires
            self.wf(),
        ensures
            self.in_bounds(x as int, y as int) ==> {
                &&& r is Ok
                &&& r->Ok_0 == self.spec_neighbors(x as int, y as int)
            },
            !self.in_bounds(x as int, y as int) ==> r == Err::<u8, Error>(Error::OutOfBounds),
    {
        if x >= self.width || y >= self.height {
            return Err(Error::OutOfBounds);
        }
        let mut count: u8 = 0;
        if x >= 1 && y >= 1 && self.is_alive(x - 1, y - 1) {
            count = count + 1;
        }
        if y >= 1 && self.is_alive(x, y - 1) {
            count = count + 1;
        }
        if x + 1 < self.width && y >= 1 && self.is_alive(x + 1, y - 1) {
            count = count + 1;
        }
        if x >= 1 && self.is_alive(x - 1, y) {
            count = count + 1;
        }
        if x + 1 < self.width && self.is_alive(x + 1, y) {
            count = count + 1;
        }
        if x >= 1 && y + 1 < self.height && self.is_alive(x - 1, y + 1) {
            count = count + 1;
        }
        if y + 1 < self.height && self.is_alive(x, y + 1) {
            count = count + 1;
        }
        if x + 1 < self.width && y + 1 < self.height && self.is_alive(x + 1, y + 1) {
            count = count + 1;
        }
        Ok(count)
    }

    /// Converts a coordinate pair to its row-major buffer index.
    /// Refused with `OutOfBounds` exactly when `(x, y)` lies outside the grid.
    pub fn x_y_to_idx(&self, x: usize, y: usize) -> (r: Result<usize, Error>)
        requires
            self.wf(),
        ensures
            self.in_bounds(x as int, y as int) ==> {
                &&& r is Ok
                &&& r->Ok_0 == x + y * self.spec_width()
            },
            !self.in_bounds(x as int, y as int) ==> r == Err::<usize, Error>(Error::OutOfBounds),
    {
        if x >= self.width || y >= self.height {
            return Err(Error::OutOfBounds);
        }
        proof {
            assert(self.grid@.len() == self.grid.len());
            lemma_idx_in_range(self.spec_width(), self.spec_height(), x as int, y as int);
        }
        Ok(x + y * self.width)
    }

    /// Reads the state of the cell at `(x, y)`.
    /// Refused with `OutOfBounds` exactly when `(x, y)` lies outside the grid.
    pub fn get_state(&self, x: usize, y: usize) -> (r: Result<State, Error>)
        requires
            self.wf(),
        ensures
            self.in_bounds(x as int, y as int) ==> r == Ok::<State, Error>(
                self.cell(x as int, y as int),
            ),
            !self.in_bounds(x as int, y as int) ==> r == Err::<State, Error>(Error::OutOfBounds),
    {
        match self.x_y_to_idx(x, y) {
            Ok(idx) => {
                proof {
                    lemma_idx_in_range(self.spec_width(), self.spec_height(), x as int, y as int);
                }
                Ok(self.grid[idx])
            },
            Err(e) => Err(e),
        }
    }

    /// Overwrites the cell at `(x, y)` with `state`; every other cell and the
    /// dimensions are untouched. Refused with `OutOfBounds`, leaving the grid
    /// unchanged, exactly when `(x, y)` lies outside the grid.
    pub fn set_state(&mut self, state: State, x: usize, y: usize) -> (r: Result<(), Error>)
        requires
            old(self).wf(),
        ensures
            old(self).in_bounds(x as int, y as int) ==> {
                &&& r == Ok::<(), Error>(())
                &&& final(self).wf()
                &&& final(self).spec_width() == old(self).spec_width()
                &&& final(self).spec_height() == old(self).spec_height()
                &&& final(self).cell(x as int, y as int) == state
                &&& forall|i: int, j: int|
                    old(self).in_bounds(i, j) && (i != x || j != y) ==> final(self).cell(i, j)
                        == old(self).cell(i, j)
            },
            !old(self).in_bounds(x as int, y as int) ==> {
                &&& r == Err::<(), Error>(Error::OutOfBounds)
                &&& *final(self) == *old(self)
            },
    {
        let index = match self.x_y_to_idx(x, y) {
            Ok(idx) => idx,
            Err(e) => {
                return Err(e);
            },
        };
        proof {
            lemma_idx_in_range(self.spec_width(), self.spec_height(), x as int, y as int);
        }
        self.grid.set(index, state);
        proof {
            assert forall|i: int, j: int|
                old(self).in_bounds(i, j) && (i != x || j != y) implies self.cell(i, j)
                == old(self).cell(i, j) by {
                lemma_idx_in_range(old(self).spec_width(), old(self).spec_height(), i, j);
                lemma_idx_injective(old(self).spec_width(), i, j, x as int, y as int);
            }
        }
        Ok(())
    }

    /// Advances the grid by exactly one generation: every cell takes the
    /// state given by Conway's rule applied to the prior generation alone.
    /// The new generation is built in a separate buffer, so no lookup ever
    /// observes a partially updated grid; the dimensions are unchanged.
    #[verifier::loop_isolation(false)]
    pub fn step(&mut self)
        requires
            old(self).wf(),
        ensures
            final(self).wf(),
            final(self).spec_width() == old(self).spec_width(),
            final(self).spec_height() == old(self).spec_height(),
            forall|x: int, y: int|
                old(self).in_bounds(x, y) ==> final(self).cell(x, y) == old(self).next_cell(x, y),
    {
        let w = self.width;
        let h = self.height;
        let mut next: Vec<State> = Vec::new();
        let mut y: usize = 0;
        while y < h
            invariant
                y <= h,
                next@.len() == y * w,
                forall|i: int, j: int|
                    0 <= i < w && 0 <= j < y ==> next@[i + j * (w as int)] == self.next_cell(i, j),
            decreases h - y,
        {
            let mut x: usize = 0;
            while x < w
                invariant
                    x <= w,
                    y < h,
                    next@.len() == y * w + x,
                    forall|i: int, j: int|
                        0 <= i < w && 0 <= j < y ==> next@[i + j * (w as int)] == self.next_cell(
                            i,
                            j,
                        ),
                    forall|i: int|
                        0 <= i < x ==> next@[i + y * (w as int)] == self.next_cell(i, y as int),
                decreases w - x,
            {
                let n = self.count_neighbors(x, y).unwrap();
                let cur = self.get_state(x, y).unwrap();
                let ns = if n < 2 {
                    State::DEAD
                } else if n == 2 {
                    cur
                } else if n == 3 {
                    State::ALIVE
                } else {
                    State::DEAD
                };
                next.push(ns);
                proof {
                    assert forall|i: int, j: int| 0 <= i < w && 0 <= j < y implies next@[i + j * (
                    w as int)] == self.next_cell(i, j) by {
                        lemma_idx_in_range(w as int, y as int, i, j);
                    }
                }
                x = x + 1;
            }
            proof {
                assert((y + 1) * w == y * w + w) by (nonlinear_arith);
            }
            y = y + 1;
        }
        proof {
            assert(h * w == w * h) by (nonlinear_arith);
        }
        self.grid = next;
        proof {
            assert forall|x: int, y: int| old(self).in_bounds(x, y) implies self.cell(x, y)
                == old(self).next_cell(x, y) by {
                lemma_idx_in_range(w as int, h as int, x, y);
            }
        }
    }
}

/// Law (part of the row-major bijection): every index in `[0, w * h)` is hit
/// by some in-bounds coordinate pair, so together with the range and
/// injectivity laws the mapping `(x, y) |-> x + y * w` is a bijection from
/// `[0, w) x [0, h)` onto `[0, w * h)`.
pub proof fn lemma_idx_surjective(w: int, h: int, k: int)
    requires
        0 < w,
        0 < h,
        0 <= k < w * h,
    ensures
        exists|x: int, y: int|
            0 <= x < w && 0 <= y < h && #[trigger] (x + y * w) == k,
{
    let x = k % w;
    let y = k / w;
    assert(0 <= x < w && 0 <= y < h && x + y * w == k) by (nonlinear_arith)
        requires
            0 < w,
            0 < h,
            0 <= k < w * h,
            x == k % w,
            y == k / w,
    ;
}

/// Law (part of the row-major bijection): distinct coordinate pairs of one
/// row width map to distinct indices.
pub proof fn lemma_idx_injective(w: int, x1: int, y1: int, x2: int, y2: int)
    by (nonlinear_arith)
    requires
        0 < w,
        0 <= x1 < w,
        0 <= x2 < w,
        0 <= y1,
        0 <= y2,
    ensures
        x1 + y1 * w == x2 + y2 * w ==> (x1 == x2 && y1 == y2),
{
}

/// Law (part of the row-major bijection): every in-bounds coordinate pair
/// maps into `[0, w * h)`.
pub proof fn lemma_idx_in_range(w: int, h: int, x: int, y: int)
    by (nonlinear_arith)
    requires
        0 < w,
        0 < h,
        0 <= x < w,
        0 <= y < h,
    ensures
        0 <= x + y * w,
        x + y * w < w * h,
        x + y * w < h * w,
{
}

/// Law: the live-neighbor count of an in-bounds cell never exceeds the
/// number of in-bounds neighbors the cell actually has, which is itself at
/// most 8; positions outside the grid contribute zero.
pub proof fn lemma_neighbor_count_bounded(g: Game, x: int, y: int)
    requires
        g.wf(),
        g.in_bounds(x, y),
    ensures
        g.spec_neighbors(x, y) <= g.spec_in_bounds_neighbors(x, y),
        g.spec_in_bounds_neighbors(x, y) <= 8,
{
}

} // verus!

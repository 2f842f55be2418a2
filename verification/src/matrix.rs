//! Switch coordinates, raw frames and confirmed events.

use vstd::prelude::*;

verus! {

/// One switch of the matrix.
#[derive(Clone, Copy, Debug, PartialEq, Eq, Structural)]
pub struct Coordinate {
    pub row: u8,
    pub col: u8,
}

/// The direction of a confirmed transition.
#[derive(Clone, Copy, Debug, PartialEq, Eq, Structural)]
pub enum EventKind {
    Press,
    Release,
}

/// A confirmed transition of one switch.
#[derive(Clone, Copy, Debug, PartialEq, Eq, Structural)]
pub struct Event {
    pub coord: Coordinate,
    pub kind: EventKind,
}

/// The size of a switch matrix. Cells are numbered row by row: the cell of
/// `(row, col)` is `row * cols + col`.
#[derive(Clone, Copy, Debug, PartialEq, Eq, Structural)]
pub struct Dims {
    pub rows: u8,
    pub cols: u8,
}

impl Dims {
    /// How many switches the matrix has.
    pub open spec fn cells(self) -> nat {
        (self.rows as nat) * (self.cols as nat)
    }

    /// Whether `at` names a switch of the matrix.
    pub open spec fn contains(self, at: Coordinate) -> bool {
        at.row < self.rows && at.col < self.cols
    }

    /// The row-major number of the switch at `at`.
    pub open spec fn cell(self, at: Coordinate) -> int {
        at.row as int * self.cols as int + at.col as int
    }

    /// The switch with row-major number `cell`.
    pub open spec fn coordinate(self, cell: int) -> Coordinate {
        Coordinate { row: (cell / self.cols as int) as u8, col: (cell % self.cols as int) as u8 }
    }

    /// `cell` and `coordinate` are inverse to each other on the matrix.
    pub proof fn lemma_cell_of_coordinate(self, at: Coordinate)
        requires
            self.contains(at),
        ensures
            0 <= self.cell(at) < self.cells(),
            self.coordinate(self.cell(at)) == at,
    {
        let r = at.row as int;
        let c = at.col as int;
        let w = self.cols as int;
        assert(r * w + c < self.rows as int * w) by (nonlinear_arith)
            requires
                0 <= r < self.rows as int,
                0 <= c < w,
        ;
        assert(0 <= r * w) by (nonlinear_arith)
            requires
                0 <= r,
                0 <= w,
        ;
        vstd::arithmetic::div_mod::lemma_fundamental_div_mod_converse(r * w + c, w, r, c);
    }

    /// A cell number below `cells()` names a switch of the matrix.
    pub proof fn lemma_coordinate_of_cell(self, cell: int)
        requires
            0 <= cell < self.cells(),
        ensures
            self.contains(self.coordinate(cell)),
            self.cell(self.coordinate(cell)) == cell,
    {
        let w = self.cols as int;
        assert(w > 0) by (nonlinear_arith)
            requires
                0 <= cell < self.rows as int * w,
                0 <= self.rows as int,
        ;
        vstd::arithmetic::div_mod::lemma_fundamental_div_mod(cell, w);
        vstd::arithmetic::div_mod::lemma_div_pos_is_pos(cell, w);
        vstd::arithmetic::div_mod::lemma_mod_bound(cell, w);
        let q = cell / w;
        assert(q < self.rows as int) by (nonlinear_arith)
            requires
                cell < self.rows as int * w,
                cell == w * q + cell % w,
                0 <= cell % w,
                w > 0,
        ;
        assert(w * q == q * w) by (nonlinear_arith);
    }

    /// How many switches the matrix has.
    pub fn cell_count(self) -> (n: usize)
        ensures
            n == self.cells(),
    {
        assert(self.rows as int * self.cols as int <= 255 * 255) by (nonlinear_arith)
            requires
                self.rows as int <= 255,
                self.cols as int <= 255,
                0 <= self.rows as int,
                0 <= self.cols as int,
        ;
        self.rows as usize * self.cols as usize
    }

    /// The row-major number of the switch at `at`, or `None` where the matrix
    /// has no such switch.
    pub fn cell_of(self, at: Coordinate) -> (found: Option<usize>)
        ensures
            found.is_some() == self.contains(at),
            found.is_some() ==> found.unwrap() == self.cell(at) && found.unwrap() < self.cells(),
    {
        if at.row < self.rows && at.col < self.cols {
            proof {
                self.lemma_cell_of_coordinate(at);
            }
            assert(at.row as int * self.cols as int <= 255 * 255) by (nonlinear_arith)
                requires
                    at.row as int <= 255,
                    self.cols as int <= 255,
                    0 <= at.row as int,
                    0 <= self.cols as int,
            ;
            Some(at.row as usize * self.cols as usize + at.col as usize)
        } else {
            None
        }
    }
}

/// The electrical state of every switch at one instant: `true` is a closed
/// switch.
#[derive(Debug)]
pub struct Frame {
    dims: Dims,
    closed: Vec<bool>,
}

impl View for Frame {
    type V = Seq<bool>;

    /// The state of each switch, by cell number.
    closed spec fn view(&self) -> Seq<bool> {
        self.closed@
    }
}

impl Frame {
    /// The size of the matrix that the frame was sampled from.
    pub closed spec fn dims(&self) -> Dims {
        self.dims
    }

    /// A frame holds one sample for each switch of its matrix.
    pub closed spec fn wf(&self) -> bool {
        self.closed@.len() == self.dims.cells()
    }

    /// A frame in which every switch is open.
    pub fn new(dims: Dims) -> (frame: Frame)
        ensures
            frame.wf(),
            frame.dims() == dims,
            frame@ == Seq::new(dims.cells(), |i: int| false),
    {
        let n: usize = dims.cell_count();
        let mut closed: Vec<bool> = Vec::new();
        let mut i: usize = 0;
        while i < n
            invariant
                i <= n,
                closed@ == Seq::new(i as nat, |k: int| false),
            decreases n - i,
        {
            closed.push(false);
            i += 1;
            assert(closed@ =~= Seq::new(i as nat, |k: int| false));
        }
        Frame { dims, closed }
    }

    /// The size of the matrix that the frame was sampled from.
    pub fn dimensions(&self) -> (dims: Dims)
        ensures
            dims == self.dims(),
    {
        self.dims
    }

    /// Whether the switch at `at` is closed. A coordinate outside the matrix
    /// reads as open.
    pub fn get(&self, at: Coordinate) -> (closed: bool)
        requires
            self.wf(),
        ensures
            closed == (self.dims().contains(at) && self@[self.dims().cell(at)]),
    {
        match self.dims.cell_of(at) {
            Some(cell) => self.closed[cell],
            None => false,
        }
    }

    /// Records the state of the switch at `at`. A coordinate outside the
    /// matrix changes nothing.
    pub fn set(&mut self, at: Coordinate, closed: bool)
        requires
            old(self).wf(),
        ensures
            final(self).wf(),
            final(self).dims() == old(self).dims(),
            final(self)@ == if old(self).dims().contains(at) {
                old(self)@.update(old(self).dims().cell(at), closed)
            } else {
                old(self)@
            },
    {
        match self.dims.cell_of(at) {
            Some(cell) => {
                self.closed.set(cell, closed);
            },
            None => {},
        }
    }

    /// The sample of the switch with row-major number `cell`.
    pub(crate) fn sample(&self, cell: usize) -> (closed: bool)
        requires
            self.wf(),
            cell < self.dims().cells(),
        ensures
            closed == self@[cell as int],
    {
        self.closed[cell]
    }
}

} // verus!

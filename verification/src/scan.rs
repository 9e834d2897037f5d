//! The two orders in which a grid is searched.
//!
//! The row-major scan walks along each row in turn, so the column advances
//! fastest; the column-major scan walks down each column in turn, so the row
//! advances fastest. Either visits every place of the grid exactly once.

use crate::boxes::BoxAt;
use crate::numbering::{lemma_step_in_range, lemma_step_joins, lemma_step_splits};
use crate::stack::{Grid, Stack};
use vstd::prelude::*;

verus! {

impl Grid {
    /// The place, row first, that the row-major scan visits at step `k`.
    pub open spec fn rowwise_place(self, k: int) -> (int, int) {
        (k / self.columns as int, k % self.columns as int)
    }

    /// The step at which the row-major scan visits `row` and `column`.
    pub open spec fn rowwise_step(self, row: int, column: int) -> int {
        row * self.columns + column
    }

    /// The place, row first, that the column-major scan visits at step `k`.
    pub open spec fn colwise_place(self, k: int) -> (int, int) {
        (k % self.rows as int, k / self.rows as int)
    }

    /// The step at which the column-major scan visits `row` and `column`.
    pub open spec fn colwise_step(self, row: int, column: int) -> int {
        column * self.rows + row
    }

    /// The box at `place` with its coordinates.
    pub open spec fn found_at(self, place: (int, int)) -> BoxAt {
        BoxAt { row: place.0 as usize, column: place.1 as usize, b: self.box_at(place.0, place.1) }
    }

    /// What the row-major scan produces, first to last.
    pub open spec fn rowwise(self) -> Seq<BoxAt> {
        Seq::new(self.size(), |k: int| self.found_at(self.rowwise_place(k)))
    }

    /// What the column-major scan produces, first to last.
    pub open spec fn colwise(self) -> Seq<BoxAt> {
        Seq::new(self.size(), |k: int| self.found_at(self.colwise_place(k)))
    }

    /// Whether `place` lies in the grid.
    pub open spec fn holds(self, place: (int, int)) -> bool {
        0 <= place.0 < self.rows && 0 <= place.1 < self.columns
    }

    /// Neither side of a grid is longer than a machine word counts.
    pub proof fn lemma_sides_fit(self)
        requires
            self.wf(),
        ensures
            self.rows <= usize::MAX,
            self.columns <= usize::MAX,
    {
        assert(self.rows <= self.rows * self.columns && self.columns <= self.rows * self.columns)
            by (nonlinear_arith)
            requires
                self.rows >= 1,
                self.columns >= 1,
        ;
    }

    /// The row-major scan produces as many boxes as the grid has, and visits
    /// every place of the grid exactly once: each step is at a place of the
    /// grid that is visited at no other step, each place has its step, and
    /// each box produced is the box at the place of its step.
    pub proof fn lemma_rowwise_visits_each_place_once(self)
        requires
            self.wf(),
        ensures
            self.rowwise().len() == self.rows * self.columns,
            forall|k: int|
                0 <= k < self.size() ==> {
                    let place = #[trigger] self.rowwise_place(k);
                    self.holds(place) && self.rowwise_step(place.0, place.1) == k
                },
            forall|k: int|
                0 <= k < self.size() ==> {
                    let item = #[trigger] self.rowwise()[k];
                    let place = self.rowwise_place(k);
                    item.row == place.0 && item.column == place.1 && item.b == self.box_at(
                        place.0,
                        place.1,
                    )
                },
            forall|row: int, column: int|
                self.holds((row, column)) ==> {
                    let k = #[trigger] self.rowwise_step(row, column);
                    0 <= k < self.size() && self.rowwise_place(k) == (row, column)
                },
    {
        assert forall|k: int| 0 <= k < self.size() implies {
            let place = #[trigger] self.rowwise_place(k);
            self.holds(place) && self.rowwise_step(place.0, place.1) == k
        } by {
            lemma_step_joins(self.rows as int, self.columns as int, k);
        }
        self.lemma_sides_fit();
        assert forall|k: int| 0 <= k < self.size() implies {
            let item = #[trigger] self.rowwise()[k];
            let place = self.rowwise_place(k);
            item.row == place.0 && item.column == place.1 && item.b == self.box_at(place.0, place.1)
        } by {
            lemma_step_joins(self.rows as int, self.columns as int, k);
        }
        assert forall|row: int, column: int| self.holds((row, column)) implies {
            let k = #[trigger] self.rowwise_step(row, column);
            0 <= k < self.size() && self.rowwise_place(k) == (row, column)
        } by {
            lemma_step_in_range(self.rows as int, self.columns as int, row, column);
            lemma_step_splits(self.columns as int, row, column);
        }
    }

    /// The column-major scan produces as many boxes as the grid has, and
    /// visits every place of the grid exactly once.
    pub proof fn lemma_colwise_visits_each_place_once(self)
        requires
            self.wf(),
        ensures
            self.colwise().len() == self.rows * self.columns,
            forall|k: int|
                0 <= k < self.size() ==> {
                    let place = #[trigger] self.colwise_place(k);
                    self.holds(place) && self.colwise_step(place.0, place.1) == k
                },
            forall|k: int|
                0 <= k < self.size() ==> {
                    let item = #[trigger] self.colwise()[k];
                    let place = self.colwise_place(k);
                    item.row == place.0 && item.column == place.1 && item.b == self.box_at(
                        place.0,
                        place.1,
                    )
                },
            forall|row: int, column: int|
                self.holds((row, column)) ==> {
                    let k = #[trigger] self.colwise_step(row, column);
                    0 <= k < self.size() && self.colwise_place(k) == (row, column)
                },
    {
        assert(self.rows * self.columns == self.columns * self.rows) by (nonlinear_arith);
        assert forall|k: int| 0 <= k < self.size() implies {
            let place = #[trigger] self.colwise_place(k);
            self.holds(place) && self.colwise_step(place.0, place.1) == k
        } by {
            lemma_step_joins(self.columns as int, self.rows as int, k);
        }
        self.lemma_sides_fit();
        assert forall|k: int| 0 <= k < self.size() implies {
            let item = #[trigger] self.colwise()[k];
            let place = self.colwise_place(k);
            item.row == place.0 && item.column == place.1 && item.b == self.box_at(place.0, place.1)
        } by {
            lemma_step_joins(self.columns as int, self.rows as int, k);
        }
        assert forall|row: int, column: int| self.holds((row, column)) implies {
            let k = #[trigger] self.colwise_step(row, column);
            0 <= k < self.size() && self.colwise_place(k) == (row, column)
        } by {
            lemma_step_in_range(self.columns as int, self.rows as int, column, row);
            lemma_step_splits(self.rows as int, column, row);
        }
    }
}

/// A single pass over a stack, row by row.
pub struct RowwiseIterator<'a> {
    stack: &'a Stack,
    row: usize,
    column: usize,
}

/// A single pass over a stack, column by column.
pub struct ColumnwiseIterator<'a> {
    stack: &'a Stack,
    row: usize,
    column: usize,
}

impl Stack {
    /// A fresh pass over the boxes, row by row.
    pub fn iter_rowwise(&self) -> (iter: RowwiseIterator<'_>)
        requires
            self.wf(),
        ensures
            iter.wf(),
            iter.grid() == self@,
            iter.position() == 0,
    {
        let iter = RowwiseIterator { row: 0, column: 0, stack: self };
        assert(iter.position() == 0) by (nonlinear_arith)
            requires
                iter.position() == 0 * self@.columns + 0,
        ;
        iter
    }

    /// A fresh pass over the boxes, column by column.
    pub fn iter_colwise(&self) -> (iter: ColumnwiseIterator<'_>)
        requires
            self.wf(),
        ensures
            iter.wf(),
            iter.grid() == self@,
            iter.position() == 0,
    {
        let iter = ColumnwiseIterator { row: 0, column: 0, stack: self };
        assert(iter.position() == 0) by (nonlinear_arith)
            requires
                iter.position() == 0 * self@.rows + 0,
        ;
        iter
    }
}

impl<'a> RowwiseIterator<'a> {
    /// The grid that is scanned.
    pub closed spec fn grid(&self) -> Grid {
        self.stack@
    }

    /// How many boxes the pass has produced.
    pub closed spec fn position(&self) -> int {
        self.row * self.stack@.columns + self.column
    }

    /// The pass stands at a place of the grid, or at the start of the row
    /// after the last.
    pub closed spec fn wf(&self) -> bool {
        &&& self.stack.wf()
        &&& (self.row < self.stack@.rows && self.column < self.stack@.columns) || (self.row
            == self.stack@.rows && self.column == 0)
    }

    /// A pass has produced no more boxes than the grid has.
    pub proof fn lemma_position_bound(&self)
        requires
            self.wf(),
        ensures
            0 <= self.position() <= self.grid().size(),
    {
        let rows = self.stack@.rows as int;
        let columns = self.stack@.columns as int;
        if self.row < rows {
            lemma_step_in_range(rows, columns, self.row as int, self.column as int);
        } else {
            assert(0 <= rows * columns) by (nonlinear_arith)
                requires
                    0 <= rows,
                    0 <= columns,
            ;
        }
    }

    /// Whether the pass has boxes left to produce.
    pub fn has_next(&self) -> (more: bool)
        requires
            self.wf(),
        ensures
            more == (self.position() < self.grid().size()),
    {
        proof {
            self.lemma_position_bound();
            if self.row < self.stack@.rows {
                lemma_step_in_range(
                    self.stack@.rows as int,
                    self.stack@.columns as int,
                    self.row as int,
                    self.column as int,
                );
            }
        }
        self.row < self.stack.rows() && self.column < self.stack.columns()
    }

    /// Produces the next box of the row-major scan, or nothing once all
    /// boxes of the grid have been produced.
    pub fn next(&mut self) -> (item: Option<BoxAt>)
        requires
            old(self).wf(),
        ensures
            final(self).wf(),
            final(self).grid() == old(self).grid(),
            old(self).position() < old(self).grid().size() ==> {
                &&& item == Some(old(self).grid().rowwise()[old(self).position()])
                &&& final(self).position() == old(self).position() + 1
            },
            old(self).position() >= old(self).grid().size() ==> {
                &&& item is None
                &&& final(self).position() == old(self).position()
            },
    {
        let rows: usize = self.stack.rows();
        let columns: usize = self.stack.columns();
        proof {
            self.lemma_position_bound();
            if self.row < rows {
                lemma_step_in_range(
                    rows as int,
                    columns as int,
                    self.row as int,
                    self.column as int,
                );
                lemma_step_splits(columns as int, self.row as int, self.column as int);
            }
        }
        if self.row >= rows || self.column >= columns {
            return None;
        }
        let b = self.stack.box_at(self.row, self.column);
        let item = BoxAt { row: self.row, column: self.column, b };
        self.column = self.column + 1;
        if self.column == columns {
            self.column = 0;
            self.row = self.row + 1;
        }
        proof {
            let (row, column) = (old(self).row as int, old(self).column as int);
            let (next_row, next_column) = (self.row as int, self.column as int);
            let (before, after) = (old(self).position(), self.position());
            assert(after == before + 1) by (nonlinear_arith)
                requires
                    before == row * columns + column,
                    after == next_row * columns + next_column,
                    (next_row == row && next_column == column + 1) || (next_row == row + 1
                        && next_column == 0 && column + 1 == columns),
            ;
        }
        Some(item)
    }
}

impl<'a> ColumnwiseIterator<'a> {
    /// The grid that is scanned.
    pub closed spec fn grid(&self) -> Grid {
        self.stack@
    }

    /// How many boxes the pass has produced.
    pub closed spec fn position(&self) -> int {
        self.column * self.stack@.rows + self.row
    }

    /// The pass stands at a place of the grid, or at the top of the column
    /// after the last.
    pub closed spec fn wf(&self) -> bool {
        &&& self.stack.wf()
        &&& (self.row < self.stack@.rows && self.column < self.stack@.columns) || (self.column
            == self.stack@.columns && self.row == 0)
    }

    /// A pass has produced no more boxes than the grid has.
    pub proof fn lemma_position_bound(&self)
        requires
            self.wf(),
        ensures
            0 <= self.position() <= self.grid().size(),
    {
        let rows = self.stack@.rows as int;
        let columns = self.stack@.columns as int;
        assert(rows * columns == columns * rows) by (nonlinear_arith);
        if self.column < columns {
            lemma_step_in_range(columns, rows, self.column as int, self.row as int);
        } else {
            assert(0 <= rows * columns) by (nonlinear_arith)
                requires
                    0 <= rows,
                    0 <= columns,
            ;
        }
    }

    /// Whether the pass has boxes left to produce.
    pub fn has_next(&self) -> (more: bool)
        requires
            self.wf(),
        ensures
            more == (self.position() < self.grid().size()),
    {
        proof {
            self.lemma_position_bound();
            let rows = self.stack@.rows as int;
            let columns = self.stack@.columns as int;
            assert(rows * columns == columns * rows) by (nonlinear_arith);
            if self.column < columns {
                lemma_step_in_range(columns, rows, self.column as int, self.row as int);
            }
        }
        self.row < self.stack.rows() && self.column < self.stack.columns()
    }

    /// Produces the next box of the column-major scan, or nothing once all
    /// boxes of the grid have been produced.
    pub fn next(&mut self) -> (item: Option<BoxAt>)
        requires
            old(self).wf(),
        ensures
            final(self).wf(),
            final(self).grid() == old(self).grid(),
            old(self).position() < old(self).grid().size() ==> {
                &&& item == Some(old(self).grid().colwise()[old(self).position()])
                &&& final(self).position() == old(self).position() + 1
            },
            old(self).position() >= old(self).grid().size() ==> {
                &&& item is None
                &&& final(self).position() == old(self).position()
            },
    {
        let rows: usize = self.stack.rows();
        let columns: usize = self.stack.columns();
        proof {
            self.lemma_position_bound();
            assert(rows * columns == columns * rows) by (nonlinear_arith);
            if self.column < columns {
                lemma_step_in_range(
                    columns as int,
                    rows as int,
                    self.column as int,
                    self.row as int,
                );
                lemma_step_splits(rows as int, self.column as int, self.row as int);
            }
        }
        if self.row >= rows || self.column >= columns {
            return None;
        }
        let b = self.stack.box_at(self.row, self.column);
        let item = BoxAt { row: self.row, column: self.column, b };
        self.row = self.row + 1;
        if self.row == rows {
            self.row = 0;
            self.column = self.column + 1;
        }
        proof {
            let (row, column) = (old(self).row as int, old(self).column as int);
            let (next_row, next_column) = (self.row as int, self.column as int);
            let (before, after) = (old(self).position(), self.position());
            assert(after == before + 1) by (nonlinear_arith)
                requires
                    before == column * rows + row,
                    after == next_column * rows + next_row,
                    (next_column == column && next_row == row + 1) || (next_column == column + 1
                        && next_row == 0 && row + 1 == rows),
            ;
        }
        Some(item)
    }
}

} // verus!

//! One contest between the two search orders on one grid.
//!
//! Each searcher opens boxes in its own order until it opens a coin. The one
//! that needs fewer steps wins; a searcher that never opens a coin needs more
//! steps than any that does.

use crate::boxes::{lemma_count_bounds, uniform, Box, BoxAt};
use crate::numbering::lemma_step_in_range;
use crate::stack::{Grid, Stack};
use vstd::arithmetic::div_mod::{lemma_basic_div, lemma_small_mod};
use vstd::prelude::*;

verus! {

/// How a trial ended.
#[derive(Debug, Copy, Clone, PartialEq, Eq, Structural)]
pub enum Outcome {
    /// The row-major search opened a coin first.
    RowWins,
    /// The column-major search opened a coin first.
    ColumnWins,
    /// Both needed the same number of steps, or neither opened a coin.
    Tie,
}

/// Whether step `i` of `scan` opens a coin and no earlier step does.
pub open spec fn is_first_coin(scan: Seq<BoxAt>, i: int) -> bool {
    &&& 0 <= i < scan.len()
    &&& scan[i].b is Coin
    &&& forall|j: int| 0 <= j < i ==> (#[trigger] scan[j]).b is Empty
}

/// The step at which `scan` opens its first coin, if it opens one.
pub open spec fn first_coin(scan: Seq<BoxAt>) -> Option<int> {
    if exists|i: int| is_first_coin(scan, i) {
        Some(choose|i: int| is_first_coin(scan, i))
    } else {
        None
    }
}

/// The step that an executable search reports, as a number without bound.
pub open spec fn step_of(found: Option<usize>) -> Option<int> {
    match found {
        Some(step) => Some(step as int),
        None => None,
    }
}

/// The outcome for the steps at which the two searches open their first
/// coin: the smaller step wins, and no step at all loses to any step.
pub open spec fn decide(row_first: Option<int>, column_first: Option<int>) -> Outcome {
    match (row_first, column_first) {
        (Some(row_step), Some(column_step)) => if row_step < column_step {
            Outcome::RowWins
        } else if column_step < row_step {
            Outcome::ColumnWins
        } else {
            Outcome::Tie
        },
        (Some(_), None) => Outcome::RowWins,
        (None, Some(_)) => Outcome::ColumnWins,
        (None, None) => Outcome::Tie,
    }
}

/// A scan has at most one first coin.
pub proof fn lemma_first_coin_found(scan: Seq<BoxAt>, i: int)
    requires
        is_first_coin(scan, i),
    ensures
        first_coin(scan) == Some(i),
{
    let other = choose|i: int| is_first_coin(scan, i);
    if other < i {
        assert(scan[other].b is Empty);
    } else if i < other {
        assert(scan[i].b is Empty);
    }
}

/// A scan that opens only empty boxes has no first coin.
pub proof fn lemma_first_coin_missing(scan: Seq<BoxAt>)
    requires
        forall|j: int| 0 <= j < scan.len() ==> (#[trigger] scan[j]).b is Empty,
    ensures
        first_coin(scan) is None,
{
    assert forall|i: int| !is_first_coin(scan, i) by {
        if 0 <= i < scan.len() {
            assert(scan[i].b is Empty);
        }
    }
}

impl Grid {
    /// How the contest on this grid ends.
    pub open spec fn outcome(self) -> Outcome {
        decide(first_coin(self.rowwise()), first_coin(self.colwise()))
    }

    /// Either scan opens, at each step, a box of the grid.
    pub proof fn lemma_scans_open_cells(self)
        requires
            self.wf(),
        ensures
            forall|k: int|
                0 <= k < self.size() ==> {
                    let place = self.rowwise_place(k);
                    &&& 0 <= place.0 * self.columns + place.1 < self.cells.len()
                    &&& (#[trigger] self.rowwise()[k]).b == self.cells[place.0 * self.columns
                        + place.1]
                },
            forall|k: int|
                0 <= k < self.size() ==> {
                    let place = self.colwise_place(k);
                    &&& 0 <= place.0 * self.columns + place.1 < self.cells.len()
                    &&& (#[trigger] self.colwise()[k]).b == self.cells[place.0 * self.columns
                        + place.1]
                },
    {
        self.lemma_rowwise_visits_each_place_once();
        self.lemma_colwise_visits_each_place_once();
        assert forall|k: int| 0 <= k < self.size() implies {
            let place = self.rowwise_place(k);
            &&& 0 <= place.0 * self.columns + place.1 < self.cells.len()
            &&& (#[trigger] self.rowwise()[k]).b == self.cells[place.0 * self.columns + place.1]
        } by {
            let place = self.rowwise_place(k);
            lemma_step_in_range(self.rows as int, self.columns as int, place.0, place.1);
        }
        assert forall|k: int| 0 <= k < self.size() implies {
            let place = self.colwise_place(k);
            &&& 0 <= place.0 * self.columns + place.1 < self.cells.len()
            &&& (#[trigger] self.colwise()[k]).b == self.cells[place.0 * self.columns + place.1]
        } by {
            let place = self.colwise_place(k);
            lemma_step_in_range(self.rows as int, self.columns as int, place.0, place.1);
        }
    }

    /// On a grid without coins neither search opens one, and the trial is a
    /// tie.
    pub proof fn lemma_no_coins_tie(self)
        requires
            self.wf(),
            self.coins() == 0,
        ensures
            first_coin(self.rowwise()) is None,
            first_coin(self.colwise()) is None,
            self.outcome() == Outcome::Tie,
    {
        lemma_count_bounds(self.cells);
        self.lemma_scans_open_cells();
        assert forall|j: int| 0 <= j < self.rowwise().len() implies (#[trigger] self.rowwise()[
            j
        ]).b is Empty by {
            let place = self.rowwise_place(j);
            assert(self.cells[place.0 * self.columns + place.1] == uniform(
                self.cells.len(),
                Box::Empty,
            )[place.0 * self.columns + place.1]);
        }
        assert forall|j: int| 0 <= j < self.colwise().len() implies (#[trigger] self.colwise()[
            j
        ]).b is Empty by {
            let place = self.colwise_place(j);
            assert(self.cells[place.0 * self.columns + place.1] == uniform(
                self.cells.len(),
                Box::Empty,
            )[place.0 * self.columns + place.1]);
        }
        lemma_first_coin_missing(self.rowwise());
        lemma_first_coin_missing(self.colwise());
    }

    /// On a grid full of coins both searches open one at their first step,
    /// and the trial is a tie.
    pub proof fn lemma_all_coins_tie(self)
        requires
            self.wf(),
            self.coins() == self.size(),
        ensures
            first_coin(self.rowwise()) == Some(0int),
            first_coin(self.colwise()) == Some(0int),
            self.outcome() == Outcome::Tie,
    {
        lemma_count_bounds(self.cells);
        self.lemma_scans_open_cells();
        assert(self.size() >= 1) by (nonlinear_arith)
            requires
                self.rows >= 1,
                self.columns >= 1,
                self.size() == self.rows * self.columns,
        ;
        let row_place = self.rowwise_place(0);
        assert(self.cells[row_place.0 * self.columns + row_place.1] == uniform(
            self.cells.len(),
            Box::Coin,
        )[row_place.0 * self.columns + row_place.1]);
        assert(self.rowwise()[0].b is Coin);
        let column_place = self.colwise_place(0);
        assert(self.cells[column_place.0 * self.columns + column_place.1] == uniform(
            self.cells.len(),
            Box::Coin,
        )[column_place.0 * self.columns + column_place.1]);
        assert(self.colwise()[0].b is Coin);
        lemma_first_coin_found(self.rowwise(), 0);
        lemma_first_coin_found(self.colwise(), 0);
    }

    /// On a grid of one row or of one column the two scans are the same
    /// sequence, and the trial is a tie.
    pub proof fn lemma_single_line_tie(self)
        requires
            self.wf(),
            self.rows == 1 || self.columns == 1,
        ensures
            self.rowwise() == self.colwise(),
            self.outcome() == Outcome::Tie,
    {
        assert forall|k: int| 0 <= k < self.size() implies self.rowwise_place(k)
            == self.colwise_place(k) by {
            let (rows, columns) = (self.rows as int, self.columns as int);
            assert(self.size() == rows * columns);
            if rows == 1 {
                assert(rows * columns == columns);
                lemma_basic_div(k, columns);
                lemma_small_mod(k as nat, columns as nat);
                assert(k / rows == k / 1 && k % rows == k % 1);
            } else {
                assert(rows * columns == rows) by (nonlinear_arith)
                    requires
                        columns == 1,
                ;
                lemma_basic_div(k, rows);
                lemma_small_mod(k as nat, rows as nat);
                assert(k / columns == k / 1 && k % columns == k % 1);
            }
        }
        assert(self.rowwise() =~= self.colwise());
    }
}

impl Outcome {
    /// Decides a trial from the steps at which the two searches found their
    /// first coin.
    pub fn decide(row_first: Option<usize>, column_first: Option<usize>) -> (outcome: Outcome)
        ensures
            outcome == decide(step_of(row_first), step_of(column_first)),
    {
        match (row_first, column_first) {
            (Some(row_step), Some(column_step)) => {
                if row_step < column_step {
                    Outcome::RowWins
                } else if column_step < row_step {
                    Outcome::ColumnWins
                } else {
                    Outcome::Tie
                }
            },
            (Some(_), None) => Outcome::RowWins,
            (None, Some(_)) => Outcome::ColumnWins,
            (None, None) => Outcome::Tie,
        }
    }
}

impl Stack {
    /// The step at which the row-major search opens its first coin.
    pub fn first_coin_rowwise(&self) -> (found: Option<usize>)
        requires
            self.wf(),
        ensures
            step_of(found) == first_coin(self@.rowwise()),
    {
        let mut iter = self.iter_rowwise();
        let mut step: usize = 0;
        loop
            invariant
                self.wf(),
                iter.wf(),
                iter.grid() == self@,
                iter.position() == step,
                step <= self@.size(),
                forall|j: int| 0 <= j < step ==> (#[trigger] self@.rowwise()[j]).b is Empty,
            decreases self@.size() - step,
        {
            match iter.next() {
                None => {
                    proof {
                        lemma_first_coin_missing(self@.rowwise());
                    }
                    return None;
                },
                Some(item) => {
                    if item.is_coin() {
                        proof {
                            lemma_first_coin_found(self@.rowwise(), step as int);
                        }
                        return Some(step);
                    }
                    step = step + 1;
                },
            }
        }
    }

    /// The step at which the column-major search opens its first coin.
    pub fn first_coin_colwise(&self) -> (found: Option<usize>)
        requires
            self.wf(),
        ensures
            step_of(found) == first_coin(self@.colwise()),
    {
        let mut iter = self.iter_colwise();
        let mut step: usize = 0;
        loop
            invariant
                self.wf(),
                iter.wf(),
                iter.grid() == self@,
                iter.position() == step,
                step <= self@.size(),
                forall|j: int| 0 <= j < step ==> (#[trigger] self@.colwise()[j]).b is Empty,
            decreases self@.size() - step,
        {
            match iter.next() {
                None => {
                    proof {
                        lemma_first_coin_missing(self@.colwise());
                    }
                    return None;
                },
                Some(item) => {
                    if item.is_coin() {
                        proof {
                            lemma_first_coin_found(self@.colwise(), step as int);
                        }
                        return Some(step);
                    }
                    step = step + 1;
                },
            }
        }
    }

    /// Runs both searches over the grid and names the winner.
    pub fn run_trial(&self) -> (outcome: Outcome)
        requires
            self.wf(),
        ensures
            outcome == self@.outcome(),
    {
        let row_first = self.first_coin_rowwise();
        let column_first = self.first_coin_colwise();
        Outcome::decide(row_first, column_first)
    }
}

} // verus!

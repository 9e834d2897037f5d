//! Many trials on grids of one shape, and their tally.

use crate::source::DrawSource;
use crate::stack::{lemma_placement_counts, placement, Grid, Stack, StackError};
use crate::trial::Outcome;
use vstd::prelude::*;

verus! {

/// The parameters of an experiment: how many trials, on grids of which shape
/// and with how many coins.
#[derive(Debug, Copy, Clone, PartialEq, Eq, Structural)]
pub struct Experiment {
    pub trials: usize,
    pub rows: usize,
    pub columns: usize,
    pub coins: usize,
}

/// How often each search order won, and how often neither did.
#[derive(Debug, Copy, Clone, PartialEq, Eq, Structural)]
pub struct Tally {
    pub row_wins: usize,
    pub column_wins: usize,
    pub ties: usize,
}

/// One if `outcome` is `counted`, else nothing.
pub open spec fn credit(outcome: Outcome, counted: Outcome) -> nat {
    if outcome == counted {
        1
    } else {
        0
    }
}

/// The wins of the row-major and of the column-major search over `trials`
/// grids generated one after the other from `draws`, with the draws that are
/// left over; nothing where the draws run out before the last grid is made.
pub open spec fn replay(rows: nat, columns: nat, coins: nat, trials: nat, draws: Seq<usize>)
    -> Option<(nat, nat, Seq<usize>)>
    decreases trials,
{
    if trials == 0 {
        Some((0, 0, draws))
    } else {
        match placement(rows * columns, coins, draws) {
            None => None,
            Some((cells, used)) => {
                let outcome = (Grid { rows, columns, cells }).outcome();
                match replay(rows, columns, coins, (trials - 1) as nat, draws.skip(used)) {
                    None => None,
                    Some((row_wins, column_wins, rest)) => Some(
                        (
                            row_wins + credit(outcome, Outcome::RowWins),
                            column_wins + credit(outcome, Outcome::ColumnWins),
                            rest,
                        ),
                    ),
                }
            },
        }
    }
}

/// The wins counted so far added to those of the trials still to come.
pub open spec fn carried(row_wins: nat, column_wins: nat, rest: Option<(nat, nat, Seq<usize>)>)
    -> Option<(nat, nat, Seq<usize>)> {
    match rest {
        None => None,
        Some((more_row_wins, more_column_wins, left)) => Some(
            (row_wins + more_row_wins, column_wins + more_column_wins, left),
        ),
    }
}

/// Neither search wins more often than there are trials, both taken
/// together.
pub proof fn lemma_replay_bounded(
    rows: nat,
    columns: nat,
    coins: nat,
    trials: nat,
    draws: Seq<usize>,
)
    ensures
        replay(rows, columns, coins, trials, draws) matches Some((row_wins, column_wins, _))
            ==> row_wins + column_wins <= trials,
    decreases trials,
{
    if trials > 0 {
        if let Some((_, used)) = placement(rows * columns, coins, draws) {
            lemma_replay_bounded(rows, columns, coins, (trials - 1) as nat, draws.skip(used));
        }
    }
}

/// On grids without coins, on grids full of coins and on grids of a single
/// line, neither search wins a trial, however many trials are run.
pub proof fn lemma_replay_only_ties(
    rows: nat,
    columns: nat,
    coins: nat,
    trials: nat,
    draws: Seq<usize>,
)
    requires
        rows >= 1,
        columns >= 1,
        rows * columns <= usize::MAX,
        coins <= rows * columns,
        coins == 0 || coins == rows * columns || rows == 1 || columns == 1,
    ensures
        replay(rows, columns, coins, trials, draws) matches Some((row_wins, column_wins, _))
            ==> row_wins == 0 && column_wins == 0,
    decreases trials,
{
    if trials > 0 {
        if let Some((cells, used)) = placement(rows * columns, coins, draws) {
            lemma_placement_counts(rows * columns, coins, draws);
            let grid = Grid { rows, columns, cells };
            if coins == 0 {
                grid.lemma_no_coins_tie();
            } else if coins == rows * columns {
                grid.lemma_all_coins_tie();
            } else {
                grid.lemma_single_line_tie();
            }
            lemma_replay_only_ties(rows, columns, coins, (trials - 1) as nat, draws.skip(used));
        }
    }
}

impl Default for Experiment {
    /// A hundred thousand trials on two rows of eight boxes with two coins.
    fn default() -> (experiment: Self)
        ensures
            experiment == (Experiment { trials: 100_000, rows: 2, columns: 8, coins: 2 }),
    {
        Experiment::new(100_000, 2, 8, 2)
    }
}

impl Tally {
    /// The number of trials counted.
    pub open spec fn total(&self) -> int {
        self.row_wins + self.column_wins + self.ties
    }
}

impl Experiment {
    /// An experiment of `trials` trials on grids of `rows` by `columns` boxes
    /// with `coins` coins.
    pub fn new(trials: usize, rows: usize, columns: usize, coins: usize) -> (experiment: Self)
        ensures
            experiment == (Experiment { trials, rows, columns, coins }),
    {
        Experiment { trials, rows, columns, coins }
    }

    /// The grid has at least one row and one column, and no more boxes than
    /// a machine word counts.
    pub open spec fn valid(&self) -> bool {
        &&& self.rows >= 1
        &&& self.columns >= 1
        &&& self.rows * self.columns <= usize::MAX
    }

    /// Every trial of the experiment is bound to end in a tie: the grid is
    /// empty, or full, or a single line.
    pub open spec fn always_ties(&self) -> bool {
        ||| self.coins == 0
        ||| self.coins == self.rows * self.columns
        ||| self.rows == 1
        ||| self.columns == 1
    }

    /// Whether the experiment can be run.
    pub fn is_valid(&self) -> (valid: bool)
        ensures
            valid == self.valid(),
    {
        self.rows >= 1 && self.columns >= 1 && self.rows.checked_mul(self.columns).is_some()
    }

    /// Runs the trials on grids generated from `source` and tallies the
    /// outcomes.
    ///
    /// The counts add up to the number of trials. With a scripted source
    /// they are those of [`replay`].
    pub fn run_with(&self, source: &mut DrawSource) -> (result: Result<Tally, StackError>)
        requires
            self.valid(),
            old(source).wf(),
        ensures
            final(source).wf(),
            final(source).is_script() == old(source).is_script(),
            result == Err::<Tally, StackError>(StackError::TooManyCoins) <==> self.coins
                > self.rows * self.columns,
            result matches Ok(tally) ==> tally.total() == self.trials,
            result matches Ok(tally) ==> (self.always_ties() ==> tally.row_wins == 0
                && tally.column_wins == 0),
            self.coins == 0 || self.coins == self.rows * self.columns ==> result is Ok,
            self.coins == 0 || self.coins >= self.rows * self.columns ==> *final(source) == *old(
                source
            ),
            result == Err::<Tally, StackError>(StackError::DrawsExhausted) ==> final(source).remaining()
                == 0,
            old(source).is_script() && self.coins <= self.rows * self.columns ==> match replay(
                self.rows as nat,
                self.columns as nat,
                self.coins as nat,
                self.trials as nat,
                old(source).pending(),
            ) {
                Some((row_wins, column_wins, rest)) => {
                    &&& result matches Ok(tally)
                    &&& tally.row_wins == row_wins
                    &&& tally.column_wins == column_wins
                    &&& final(source).pending() == rest
                },
                None => result == Err::<Tally, StackError>(StackError::DrawsExhausted),
            },
    {
        let num_boxes: usize = self.rows * self.columns;
        if self.coins > num_boxes {
            return Err(StackError::TooManyCoins);
        }
        let ghost rows = self.rows as nat;
        let ghost columns = self.columns as nat;
        let ghost coins = self.coins as nat;
        let ghost script = source.pending();
        let mut row_wins: usize = 0;
        let mut column_wins: usize = 0;
        let mut done: usize = 0;
        while done < self.trials
            invariant
                self.valid(),
                self.coins <= self.rows * self.columns,
                rows == self.rows,
                columns == self.columns,
                coins == self.coins,
                script == old(source).pending(),
                source.wf(),
                source.is_script() == old(source).is_script(),
                done <= self.trials,
                row_wins + column_wins <= done,
                self.always_ties() ==> row_wins == 0 && column_wins == 0,
                self.coins == 0 || self.coins == self.rows * self.columns ==> *source == *old(
                    source
                ),
                source.is_script() ==> replay(rows, columns, coins, self.trials as nat, script)
                    == carried(
                    row_wins as nat,
                    column_wins as nat,
                    replay(rows, columns, coins, (self.trials - done) as nat, source.pending()),
                ),
            decreases self.trials - done,
        {
            let ghost pending = source.pending();
            match Stack::generate(self.rows, self.columns, self.coins, source) {
                Err(error) => {
                    return Err(error);
                },
                Ok(boxes) => {
                    let outcome = boxes.run_trial();
                    proof {
                        assert(boxes@ == (Grid { rows, columns, cells: boxes@.cells }));
                        if self.coins == 0 {
                            boxes@.lemma_no_coins_tie();
                        } else if self.coins == self.rows * self.columns {
                            boxes@.lemma_all_coins_tie();
                        } else if self.rows == 1 || self.columns == 1 {
                            boxes@.lemma_single_line_tie();
                        }
                    }
                    match outcome {
                        Outcome::RowWins => {
                            row_wins = row_wins + 1;
                        },
                        Outcome::ColumnWins => {
                            column_wins = column_wins + 1;
                        },
                        Outcome::Tie => {},
                    }
                },
            }
            done = done + 1;
        }
        Ok(Tally { row_wins, column_wins, ties: self.trials - (row_wins + column_wins) })
    }

    /// Runs the trials on randomly generated grids and tallies the outcomes.
    ///
    /// The positions of the coins come from the thread's random number
    /// generator, which is asked up to `u64::MAX` times in all.
    pub fn run(&self) -> (result: Result<Tally, StackError>)
        requires
            self.valid(),
        ensures
            result == Err::<Tally, StackError>(StackError::TooManyCoins) <==> self.coins
                > self.rows * self.columns,
            result matches Ok(tally) ==> tally.total() == self.trials,
            result matches Ok(tally) ==> (self.always_ties() ==> tally.row_wins == 0
                && tally.column_wins == 0),
            self.coins == 0 || self.coins == self.rows * self.columns ==> result is Ok,
    {
        let mut source = DrawSource::random(u64::MAX);
        self.run_with(&mut source)
    }
}

} // verus!

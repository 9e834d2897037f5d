use box_search::experiment::{Experiment, Tally};
use box_search::source::DrawSource;
use box_search::stack::{Stack, StackError};
use box_search::trial::Outcome;

#[test]
fn default_experiment_is_two_rows_of_eight() {
    let experiment = Experiment::default();
    assert_eq!(experiment, Experiment { trials: 100_000, rows: 2, columns: 8, coins: 2 });
}

#[test]
fn new_experiment_keeps_its_parameters() {
    let experiment = Experiment::new(7, 8, 2, 3);
    assert_eq!(experiment.trials, 7);
    assert_eq!(experiment.rows, 8);
    assert_eq!(experiment.columns, 2);
    assert_eq!(experiment.coins, 3);
}

#[test]
fn experiment_without_rows_or_columns_is_not_valid() {
    assert!(Experiment::new(10, 2, 8, 2).is_valid());
    assert!(Experiment::new(0, 1, 1, 5).is_valid());
    assert!(!Experiment::new(10, 0, 8, 2).is_valid());
    assert!(!Experiment::new(10, 2, 0, 2).is_valid());
    assert!(!Experiment::new(10, usize::MAX, 2, 2).is_valid());
}

#[test]
fn counts_add_up_to_the_trials() {
    let experiment = Experiment::new(100_000, 2, 8, 2);
    let tally = experiment.run().unwrap();
    assert_eq!(tally.row_wins + tally.column_wins + tally.ties, 100_000);
    let decided = (tally.row_wins + tally.column_wins) as f64;
    assert!(decided > 0.0);
    let row_share = 100.0 * tally.row_wins as f64 / decided;
    let column_share = 100.0 * tally.column_wins as f64 / decided;
    assert!((row_share + column_share - 100.0).abs() < 1e-9);
    assert!(row_share > 30.0 && row_share < 70.0);
    assert!(column_share > 30.0 && column_share < 70.0);
}

#[test]
fn counts_add_up_on_other_shapes() {
    for (rows, columns, coins) in [(8, 2, 2), (8, 8, 2), (8, 8, 4), (3, 5, 14)] {
        let tally = Experiment::new(2_000, rows, columns, coins).run().unwrap();
        assert_eq!(tally.row_wins + tally.column_wins + tally.ties, 2_000);
    }
}

#[test]
fn experiment_without_coins_only_ties() {
    let tally = Experiment::new(500, 2, 8, 0).run().unwrap();
    assert_eq!(tally, Tally { row_wins: 0, column_wins: 0, ties: 500 });
}

#[test]
fn experiment_on_full_grids_only_ties() {
    let tally = Experiment::new(500, 2, 8, 16).run().unwrap();
    assert_eq!(tally, Tally { row_wins: 0, column_wins: 0, ties: 500 });
}

#[test]
fn experiment_on_a_single_line_only_ties() {
    let tally = Experiment::new(500, 1, 8, 3).run().unwrap();
    assert_eq!(tally, Tally { row_wins: 0, column_wins: 0, ties: 500 });
    let tally = Experiment::new(500, 8, 1, 3).run().unwrap();
    assert_eq!(tally, Tally { row_wins: 0, column_wins: 0, ties: 500 });
}

#[test]
fn experiment_without_trials_counts_nothing() {
    let tally = Experiment::new(0, 2, 8, 2).run().unwrap();
    assert_eq!(tally, Tally { row_wins: 0, column_wins: 0, ties: 0 });
}

#[test]
fn experiment_with_too_many_coins_is_rejected() {
    assert_eq!(Experiment::new(10, 2, 8, 17).run().err(), Some(StackError::TooManyCoins));
    assert_eq!(Experiment::new(0, 2, 8, 17).run().err(), Some(StackError::TooManyCoins));
}

#[test]
fn scripted_experiment_gives_the_scripted_tally() {
    let experiment = Experiment::new(3, 2, 4, 1);
    let mut source = DrawSource::script(vec![1, 4, 5, 0]);
    let tally = experiment.run_with(&mut source).unwrap();
    assert_eq!(tally, Tally { row_wins: 1, column_wins: 2, ties: 0 });
    assert_eq!(source.remaining_draws(), 1);
}

#[test]
fn scripted_experiment_passes_over_repeated_draws() {
    let experiment = Experiment::new(4, 2, 4, 2);
    let draws = vec![3, 3, 6, 0, 0, 0, 5, 4, 3, 7, 7, 1];
    let mut source = DrawSource::script(draws);
    let tally = experiment.run_with(&mut source).unwrap();
    assert_eq!(tally, Tally { row_wins: 2, column_wins: 1, ties: 1 });
    assert_eq!(source.remaining_draws(), 0);
}

#[test]
fn scripted_experiment_reproduces_its_outcomes() {
    let draws = vec![3, 3, 6, 0, 0, 0, 5, 4, 3, 7, 7, 1];
    let mut outcomes = Vec::new();
    let mut source = DrawSource::script(draws.clone());
    for _ in 0..4 {
        outcomes.push(Stack::generate(2, 4, 2, &mut source).unwrap().run_trial());
    }
    assert_eq!(
        outcomes,
        vec![Outcome::RowWins, Outcome::Tie, Outcome::ColumnWins, Outcome::RowWins]
    );
    let experiment = Experiment::new(4, 2, 4, 2);
    let first = experiment.run_with(&mut DrawSource::script(draws.clone())).unwrap();
    let second = experiment.run_with(&mut DrawSource::script(draws)).unwrap();
    assert_eq!(first, second);
}

#[test]
fn scripted_experiment_that_runs_dry_fails() {
    let experiment = Experiment::new(3, 2, 4, 1);
    let mut source = DrawSource::script(vec![1, 4]);
    assert_eq!(experiment.run_with(&mut source).err(), Some(StackError::DrawsExhausted));
    assert_eq!(source.remaining_draws(), 0);
}

#[test]
fn random_experiment_that_runs_dry_fails() {
    let experiment = Experiment::new(100, 4, 4, 3);
    let mut source = DrawSource::random(20);
    assert_eq!(experiment.run_with(&mut source).err(), Some(StackError::DrawsExhausted));
    assert_eq!(source.remaining_draws(), 0);
}

use box_search::boxes::Box;
use box_search::source::DrawSource;
use box_search::stack::{Stack, StackError};

fn count_coins(stack: &Stack) -> usize {
    let mut coins = 0;
    for row in 0..stack.rows() {
        for column in 0..stack.columns() {
            if stack.box_at(row, column).is_coin() {
                coins += 1;
            }
        }
    }
    coins
}

fn coin_places(stack: &Stack) -> Vec<(usize, usize)> {
    let mut places = Vec::new();
    for row in 0..stack.rows() {
        for column in 0..stack.columns() {
            if stack.box_at(row, column).is_coin() {
                places.push((row, column));
            }
        }
    }
    places
}

#[test]
fn box_knows_whether_it_holds_a_coin() {
    assert!(Box::Coin.is_coin());
    assert!(!Box::Empty.is_coin());
}

#[test]
fn random_grid_has_the_coins_asked_for() {
    for coins in 0..=16 {
        for _ in 0..50 {
            let stack = Stack::new(2, 8, coins).unwrap();
            assert_eq!(stack.rows(), 2);
            assert_eq!(stack.columns(), 8);
            assert_eq!(count_coins(&stack), coins);
        }
    }
}

#[test]
fn random_grids_of_many_shapes_have_the_coins_asked_for() {
    for rows in 1..=6 {
        for columns in 1..=6 {
            for coins in 0..=rows * columns {
                let stack = Stack::new(rows, columns, coins).unwrap();
                assert_eq!(count_coins(&stack), coins);
            }
        }
    }
}

#[test]
fn grid_without_coins_is_all_empty() {
    let stack = Stack::new(3, 5, 0).unwrap();
    for row in 0..3 {
        for column in 0..5 {
            assert_eq!(stack.box_at(row, column), Box::Empty);
        }
    }
}

#[test]
fn full_grid_is_all_coins() {
    let stack = Stack::new(3, 5, 15).unwrap();
    for row in 0..3 {
        for column in 0..5 {
            assert_eq!(stack.box_at(row, column), Box::Coin);
        }
    }
}

#[test]
fn full_and_empty_grids_consume_no_draw() {
    let mut source = DrawSource::script(vec![1, 2, 3]);
    let empty = Stack::generate(2, 2, 0, &mut source).unwrap();
    assert_eq!(count_coins(&empty), 0);
    assert_eq!(source.remaining_draws(), 3);
    let full = Stack::generate(2, 2, 4, &mut source).unwrap();
    assert_eq!(count_coins(&full), 4);
    assert_eq!(source.remaining_draws(), 3);
}

#[test]
fn more_coins_than_boxes_are_rejected() {
    assert_eq!(Stack::new(2, 8, 17).err(), Some(StackError::TooManyCoins));
    assert_eq!(Stack::new(1, 1, 2).err(), Some(StackError::TooManyCoins));
    let mut source = DrawSource::script(vec![0, 1, 2]);
    assert_eq!(Stack::generate(1, 2, 3, &mut source).err(), Some(StackError::TooManyCoins));
    assert_eq!(source.remaining_draws(), 3);
}

#[test]
fn script_places_coins_where_it_says() {
    let mut source = DrawSource::script(vec![3, 6]);
    let stack = Stack::generate(2, 4, 2, &mut source).unwrap();
    assert_eq!(coin_places(&stack), vec![(0, 3), (1, 2)]);
    assert_eq!(source.remaining_draws(), 0);
}

#[test]
fn draw_on_a_coin_is_passed_over() {
    let mut source = DrawSource::script(vec![3, 3, 3, 6, 7]);
    let stack = Stack::generate(2, 4, 2, &mut source).unwrap();
    assert_eq!(coin_places(&stack), vec![(0, 3), (1, 2)]);
    assert_eq!(source.remaining_draws(), 1);
}

#[test]
fn scripted_value_is_reduced_to_a_position() {
    let mut source = DrawSource::script(vec![11, 8]);
    let stack = Stack::generate(2, 4, 2, &mut source).unwrap();
    assert_eq!(coin_places(&stack), vec![(0, 0), (0, 3)]);
}

#[test]
fn script_that_runs_dry_gives_no_grid() {
    let mut source = DrawSource::script(vec![5, 5, 5]);
    assert_eq!(Stack::generate(2, 4, 2, &mut source).err(), Some(StackError::DrawsExhausted));
    assert_eq!(source.remaining_draws(), 0);
    let mut none = DrawSource::script(Vec::new());
    assert_eq!(Stack::generate(2, 4, 1, &mut none).err(), Some(StackError::DrawsExhausted));
}

#[test]
fn random_source_that_runs_dry_gives_no_grid() {
    let mut source = DrawSource::random(2);
    assert_eq!(Stack::generate(4, 4, 3, &mut source).err(), Some(StackError::DrawsExhausted));
    assert_eq!(source.remaining_draws(), 0);
}

#[test]
fn same_script_gives_the_same_grid() {
    let draws = vec![9, 2, 9, 14, 2, 5, 0];
    let mut first = DrawSource::script(draws.clone());
    let mut second = DrawSource::script(draws);
    let a = Stack::generate(3, 5, 4, &mut first).unwrap();
    let b = Stack::generate(3, 5, 4, &mut second).unwrap();
    assert_eq!(coin_places(&a), coin_places(&b));
    assert_eq!(coin_places(&a), vec![(0, 2), (1, 0), (1, 4), (2, 4)]);
    assert_eq!(first.remaining_draws(), second.remaining_draws());
}

#[test]
fn random_draws_stay_below_the_bound() {
    let mut source = DrawSource::random(10_000);
    for bound in 1..=100 {
        for _ in 0..100 {
            let index = source.draw(bound).unwrap();
            assert!(index < bound);
        }
    }
    assert_eq!(source.remaining_draws(), 0);
    assert!(source.is_exhausted());
    assert_eq!(source.draw(5), None);
}

#[test]
fn random_draws_reach_every_position() {
    let mut source = DrawSource::random(10_000);
    let mut seen = vec![false; 4];
    for _ in 0..10_000 {
        seen[source.draw(4).unwrap()] = true;
    }
    assert_eq!(seen, vec![true, true, true, true]);
}

#[test]
fn script_is_replayed_in_order() {
    let mut source = DrawSource::script(vec![7, 12, 3]);
    assert!(!source.is_exhausted());
    assert_eq!(source.remaining_draws(), 3);
    assert_eq!(source.draw(10), Some(7));
    assert_eq!(source.draw(10), Some(2));
    assert_eq!(source.draw(2), Some(1));
    assert_eq!(source.draw(10), None);
    assert!(source.is_exhausted());
}

#[test]
fn grid_is_written_row_by_row() {
    let mut source = DrawSource::script(vec![2, 5]);
    let stack = Stack::generate(2, 4, 2, &mut source).unwrap();
    assert_eq!(stack.render(), "OOXO\nOXOO\n");
    assert_eq!(Stack::new(1, 1, 1).unwrap().render(), "X\n");
    assert_eq!(Stack::new(3, 2, 0).unwrap().render(), "OO\nOO\nOO\n");
}

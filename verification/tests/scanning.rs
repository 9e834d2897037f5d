use box_search::boxes::{Box, BoxAt};
use box_search::source::DrawSource;
use box_search::stack::Stack;

fn grid(rows: usize, columns: usize, coins: Vec<usize>) -> Stack {
    let count = coins.len();
    let mut source = DrawSource::script(coins);
    Stack::generate(rows, columns, count, &mut source).unwrap()
}

#[test]
fn rowwise_scan_advances_the_column_fastest() {
    let stack = grid(2, 3, vec![4]);
    let mut iter = stack.iter_rowwise();
    let mut places = Vec::new();
    while iter.has_next() {
        let item = iter.next().unwrap();
        places.push((item.row, item.column));
    }
    assert_eq!(places, vec![(0, 0), (0, 1), (0, 2), (1, 0), (1, 1), (1, 2)]);
    assert_eq!(iter.next(), None);
    assert_eq!(iter.next(), None);
}

#[test]
fn colwise_scan_advances_the_row_fastest() {
    let stack = grid(2, 3, vec![4]);
    let mut iter = stack.iter_colwise();
    let mut places = Vec::new();
    while iter.has_next() {
        let item = iter.next().unwrap();
        places.push((item.row, item.column));
    }
    assert_eq!(places, vec![(0, 0), (1, 0), (0, 1), (1, 1), (0, 2), (1, 2)]);
    assert_eq!(iter.next(), None);
    assert_eq!(iter.next(), None);
}

#[test]
fn scans_produce_the_boxes_at_their_places() {
    let stack = grid(2, 3, vec![4]);
    let mut rowwise = stack.iter_rowwise();
    let mut step = 0;
    while let Some(item) = rowwise.next() {
        assert_eq!(item.b, stack.box_at(item.row, item.column));
        assert_eq!(item.is_coin(), step == 4);
        step += 1;
    }
    assert_eq!(step, 6);
    let mut colwise = stack.iter_colwise();
    let mut step = 0;
    while let Some(item) = colwise.next() {
        assert_eq!(item.b, stack.box_at(item.row, item.column));
        assert_eq!(item.is_coin(), step == 3);
        step += 1;
    }
    assert_eq!(step, 6);
}

#[test]
fn each_scan_visits_every_place_exactly_once() {
    for rows in 1..=5 {
        for columns in 1..=5 {
            let stack = Stack::new(rows, columns, 0).unwrap();
            let mut seen = vec![0; rows * columns];
            let mut iter = stack.iter_rowwise();
            while let Some(item) = iter.next() {
                assert!(item.row < rows && item.column < columns);
                seen[item.row * columns + item.column] += 1;
            }
            assert_eq!(seen, vec![1; rows * columns]);
            let mut seen = vec![0; rows * columns];
            let mut iter = stack.iter_colwise();
            while let Some(item) = iter.next() {
                assert!(item.row < rows && item.column < columns);
                seen[item.row * columns + item.column] += 1;
            }
            assert_eq!(seen, vec![1; rows * columns]);
        }
    }
}

#[test]
fn scans_of_a_single_line_are_the_same() {
    for (rows, columns) in [(1, 6), (6, 1), (1, 1)] {
        let stack = Stack::new(rows, columns, 2 % (rows * columns)).unwrap();
        let mut rowwise = stack.iter_rowwise();
        let mut colwise = stack.iter_colwise();
        for _ in 0..rows * columns {
            assert_eq!(rowwise.next(), colwise.next());
        }
        assert!(!rowwise.has_next());
        assert!(!colwise.has_next());
    }
}

#[test]
fn fresh_scan_of_the_smallest_grid_has_one_box() {
    let stack = Stack::new(1, 1, 1).unwrap();
    let mut iter = stack.iter_rowwise();
    assert!(iter.has_next());
    assert_eq!(iter.next(), Some(BoxAt { row: 0, column: 0, b: Box::Coin }));
    assert!(!iter.has_next());
    assert_eq!(iter.next(), None);
}

//! The grid of boxes and its generator.
//!
//! Coins are placed by rejection sampling: positions are drawn one by one, a
//! draw that hits a box with a coin is passed over, and a draw that hits an
//! empty box puts a coin there, until the number of coins asked for lie in
//! the grid.

use crate::boxes::{coin_count, lemma_count_after_marking, lemma_count_bounds, uniform, Box};
use crate::numbering::{lemma_step_in_range, lemma_step_splits};
use crate::source::DrawSource;
use vstd::prelude::*;

verus! {

/// A stack of boxes, `rows` high and `columns` wide, kept row by row.
pub struct Stack {
    rows: usize,
    columns: usize,
    boxes: Vec<Box>,
}

/// What a [`Stack`] stands for: its dimensions and its boxes row by row, the
/// box in row `r` and column `c` at `r * columns + c`.
pub struct Grid {
    pub rows: nat,
    pub columns: nat,
    pub cells: Seq<Box>,
}

impl Grid {
    /// The grid has at least one row and one column, a box for each place,
    /// and no more boxes than a machine word counts.
    pub open spec fn wf(self) -> bool {
        &&& self.rows >= 1
        &&& self.columns >= 1
        &&& self.cells.len() == self.rows * self.columns
        &&& self.rows * self.columns <= usize::MAX
    }

    /// The number of boxes.
    pub open spec fn size(self) -> nat {
        self.rows * self.columns
    }

    /// The box in `row` and `column`.
    pub open spec fn box_at(self, row: int, column: int) -> Box {
        self.cells[row * self.columns + column]
    }

    /// The number of coins in the grid.
    pub open spec fn coins(self) -> nat {
        coin_count(self.cells)
    }

    /// The grid as text: a line for each row, an `X` for each box with a
    /// coin and an `O` for each empty box, and a line feed after each row.
    pub open spec fn text(self) -> Seq<char> {
        Seq::new(
            self.rows * (self.columns + 1),
            |p: int|
                {
                    let row = p / (self.columns as int + 1);
                    let column = p % (self.columns as int + 1);
                    if column == self.columns {
                        '\n'
                    } else {
                        glyph(self.box_at(row, column))
                    }
                },
        )
    }
}

/// The character that stands for a box.
pub open spec fn glyph(b: Box) -> char {
    if b is Coin {
        'X'
    } else {
        'O'
    }
}

/// The byte that stands for a box with a coin, an `X`.
pub const COIN_GLYPH: u8 = 88;

/// The byte that stands for an empty box, an `O`.
pub const EMPTY_GLYPH: u8 = 79;

/// The byte that ends a row, a line feed.
pub const ROW_END: u8 = 10;

/// Whether every one of `bytes` is an ASCII code.
pub open spec fn all_ascii(bytes: Seq<u8>) -> bool {
    forall|i: int| 0 <= i < bytes.len() ==> bytes[i] < 128
}

/// The text that the ASCII `bytes` spell.
pub open spec fn ascii_text(bytes: Seq<u8>) -> Seq<char> {
    Seq::new(bytes.len(), |i: int| bytes[i] as char)
}

/// One more byte spells one more character.
pub proof fn lemma_ascii_text_push(bytes: Seq<u8>, byte: u8)
    ensures
        ascii_text(bytes.push(byte)) == ascii_text(bytes).push(byte as char),
{
    assert(ascii_text(bytes.push(byte)) =~= ascii_text(bytes).push(byte as char));
}

/// `String::from_utf8`: the string that `bytes` encode, or nothing where
/// they are not UTF-8.
///
/// Trusted: bytes below 128 are UTF-8, each of them the encoding of the
/// character with its code, so for such bytes the string comes back and
/// reads character by character as the bytes do.
#[verifier::external_body]
fn text_of(bytes: Vec<u8>) -> (decoded: Option<String>)
    ensures
        all_ascii(bytes@) ==> decoded is Some,
        all_ascii(bytes@) ==> decoded.unwrap()@ == ascii_text(bytes@),
{
    String::from_utf8(bytes).ok()
}

/// Why no grid was generated.
#[derive(Debug, Copy, Clone, PartialEq, Eq, Structural)]
pub enum StackError {
    /// More coins were asked for than the grid has boxes.
    TooManyCoins,
    /// The source ran dry before all coins were placed.
    DrawsExhausted,
}

/// The position that the drawn `value` stands for in a grid of `size` boxes.
pub open spec fn position_of(value: usize, size: nat) -> int {
    value as int % size as int
}

/// Whether one of `draws` stands for position `i`.
pub open spec fn drawn(size: nat, draws: Seq<usize>, i: int) -> bool {
    exists|j: int| 0 <= j < draws.len() && #[trigger] position_of(draws[j], size) == i
}

/// The grid of `size` boxes with a coin at each position that one of `draws`
/// stands for, and nowhere else.
pub open spec fn marked(size: nat, draws: Seq<usize>) -> Seq<Box> {
    Seq::new(
        size,
        |i: int|
            if drawn(size, draws, i) {
                Box::Coin
            } else {
                Box::Empty
            },
    )
}

/// Whether the first `m` of `draws` are the shortest run of them that hits
/// `coins` different positions.
pub open spec fn suffices(size: nat, coins: nat, draws: Seq<usize>, m: int) -> bool {
    &&& 0 <= m <= draws.len()
    &&& coin_count(marked(size, draws.take(m))) == coins
    &&& forall|k: int| 0 <= k < m ==> coin_count(marked(size, #[trigger] draws.take(k))) < coins
}

/// How many of `draws` rejection sampling consumes to place `coins` coins,
/// if they reach that far.
pub open spec fn draws_needed(size: nat, coins: nat, draws: Seq<usize>) -> Option<int> {
    if exists|m: int| suffices(size, coins, draws, m) {
        Some(choose|m: int| suffices(size, coins, draws, m))
    } else {
        None
    }
}

/// The grid that `draws` generate and the number of draws consumed for it,
/// or nothing where the draws run out first. A grid without coins and a grid
/// full of coins consume no draw.
pub open spec fn placement(size: nat, coins: nat, draws: Seq<usize>) -> Option<(Seq<Box>, int)>
    recommends
        coins <= size,
{
    if coins == size {
        Some((uniform(size, Box::Coin), 0))
    } else if coins == 0 {
        Some((uniform(size, Box::Empty), 0))
    } else {
        match draws_needed(size, coins, draws) {
            Some(m) => Some((marked(size, draws.take(m)), m)),
            None => None,
        }
    }
}

/// No draw marks nothing.
pub proof fn lemma_marked_nothing(size: nat)
    ensures
        marked(size, Seq::empty()) == uniform(size, Box::Empty),
        coin_count(marked(size, Seq::empty())) == 0,
{
    assert(marked(size, Seq::empty()) =~= uniform(size, Box::Empty));
    lemma_count_bounds(uniform(size, Box::Empty));
}

/// One more draw puts a coin at the position it stands for.
pub proof fn lemma_marked_step(size: nat, draws: Seq<usize>, k: int)
    requires
        size > 0,
        0 <= k < draws.len(),
    ensures
        0 <= position_of(draws[k], size) < size,
        marked(size, draws.take(k + 1)) == marked(size, draws.take(k)).update(
            position_of(draws[k], size),
            Box::Coin,
        ),
{
    let before = draws.take(k);
    let after = draws.take(k + 1);
    let hit = position_of(draws[k], size);
    assert forall|i: int| 0 <= i < size implies (drawn(size, after, i) <==> drawn(size, before, i)
        || i == hit) by {
        if drawn(size, before, i) {
            let j = choose|j: int| 0 <= j < before.len() && position_of(before[j], size) == i;
            assert(position_of(after[j], size) == i);
        }
        if i == hit {
            assert(position_of(after[k], size) == i);
        }
        if drawn(size, after, i) {
            let j = choose|j: int| 0 <= j < after.len() && position_of(after[j], size) == i;
            if j < k {
                assert(position_of(before[j], size) == i);
            }
        }
    }
    assert(marked(size, after) =~= marked(size, before).update(hit, Box::Coin));
}

/// At most one run of draws suffices.
pub proof fn lemma_suffices_once(size: nat, coins: nat, draws: Seq<usize>, m: int)
    requires
        suffices(size, coins, draws, m),
    ensures
        draws_needed(size, coins, draws) == Some(m),
{
    let other = choose|m: int| suffices(size, coins, draws, m);
    if other < m {
        assert(coin_count(marked(size, draws.take(other))) < coins);
    } else if m < other {
        assert(coin_count(marked(size, draws.take(m))) < coins);
    }
}

/// A generated grid has a box for each place and exactly the coins asked
/// for, and consumes no more draws than there are.
pub proof fn lemma_placement_counts(size: nat, coins: nat, draws: Seq<usize>)
    requires
        coins <= size,
    ensures
        placement(size, coins, draws) matches Some((cells, used)) ==> {
            &&& cells.len() == size
            &&& coin_count(cells) == coins
            &&& 0 <= used <= draws.len()
        },
{
    if coins == size {
        lemma_count_bounds(uniform(size, Box::Coin));
    } else if coins == 0 {
        lemma_count_bounds(uniform(size, Box::Empty));
    } else if exists|m: int| suffices(size, coins, draws, m) {
        let m = choose|m: int| suffices(size, coins, draws, m);
        assert(suffices(size, coins, draws, m));
    }
}

impl View for Stack {
    type V = Grid;

    closed spec fn view(&self) -> Grid {
        Grid { rows: self.rows as nat, columns: self.columns as nat, cells: self.boxes@ }
    }
}

impl Stack {
    /// The stack stands for a well-formed grid.
    pub open spec fn wf(&self) -> bool {
        self@.wf()
    }

    /// The number of rows.
    pub fn rows(&self) -> (rows: usize)
        ensures
            rows == self@.rows,
    {
        self.rows
    }

    /// The number of columns.
    pub fn columns(&self) -> (columns: usize)
        ensures
            columns == self@.columns,
    {
        self.columns
    }

    /// The box in `row` and `column`.
    pub fn box_at(&self, row: usize, column: usize) -> (b: Box)
        requires
            self.wf(),
            row < self@.rows,
            column < self@.columns,
        ensures
            b == self@.box_at(row as int, column as int),
    {
        proof {
            lemma_step_in_range(self.rows as int, self.columns as int, row as int, column as int);
        }
        self.boxes[row * self.columns + column]
    }

    /// Writes the grid out as text, row by row.
    pub fn render(&self) -> (text: String)
        requires
            self.wf(),
        ensures
            text@ == self@.text(),
    {
        let ghost full = self@.text();
        let ghost rows = self.rows as int;
        let ghost width = self.columns as int + 1;
        let mut bytes: Vec<u8> = Vec::new();
        let mut row: usize = 0;
        assert(ascii_text(bytes@) =~= full.take(0 * width));
        while row < self.rows
            invariant
                self.wf(),
                full == self@.text(),
                rows == self.rows,
                width == self.columns + 1,
                full.len() == rows * width,
                row <= self.rows,
                ascii_text(bytes@) == full.take(row * width),
                all_ascii(bytes@),
            decreases self.rows - row,
        {
            let mut column: usize = 0;
            while column < self.columns
                invariant
                    self.wf(),
                    full == self@.text(),
                    rows == self.rows,
                    width == self.columns + 1,
                    full.len() == rows * width,
                    row < self.rows,
                    column <= self.columns,
                    ascii_text(bytes@) == full.take(row * width + column),
                    all_ascii(bytes@),
                decreases self.columns - column,
            {
                proof {
                    lemma_step_in_range(rows, width, row as int, column as int);
                    lemma_step_splits(width, row as int, column as int);
                }
                let byte: u8 = if self.box_at(row, column).is_coin() {
                    COIN_GLYPH
                } else {
                    EMPTY_GLYPH
                };
                proof {
                    lemma_ascii_text_push(bytes@, byte);
                    assert(full[row * width + column] == byte as char);
                }
                bytes.push(byte);
                column = column + 1;
                assert(ascii_text(bytes@) =~= full.take(row * width + column));
            }
            proof {
                lemma_step_in_range(rows, width, row as int, column as int);
                lemma_step_splits(width, row as int, column as int);
                lemma_ascii_text_push(bytes@, ROW_END);
                assert(full[row * width + column] == ROW_END as char);
            }
            bytes.push(ROW_END);
            row = row + 1;
            assert(ascii_text(bytes@) =~= full.take(row * width)) by {
                assert(row * width == (row - 1) * width + column + 1) by (nonlinear_arith)
                    requires
                        width == column + 1,
                ;
            }
        }
        assert(full.take(rows * width) =~= full);
        match text_of(bytes) {
            Some(text) => text,
            // Never taken: the bytes are ASCII.
            None => String::new(),
        }
    }

    /// Generates a grid with `num_coins` coins at positions drawn from
    /// `source`.
    ///
    /// With a scripted source the grid and the draws consumed are those of
    /// [`placement`]. With a random source the grid is whatever the draws
    /// made of it, with the right number of coins in any case.
    pub fn generate(
        rows: usize,
        columns: usize,
        num_coins: usize,
        source: &mut DrawSource,
    ) -> (made: Result<Stack, StackError>)
        requires
            rows >= 1,
            columns >= 1,
            rows * columns <= usize::MAX,
            old(source).wf(),
        ensures
            final(source).wf(),
            final(source).is_script() == old(source).is_script(),
            made == Err::<Stack, StackError>(StackError::TooManyCoins) <==> num_coins > rows
                * columns,
            made matches Ok(stack) ==> {
                &&& stack.wf()
                &&& stack@.rows == rows
                &&& stack@.columns == columns
                &&& stack@.coins() == num_coins
            },
            num_coins == 0 ==> (made matches Ok(stack) && stack@.cells == uniform(
                (rows * columns) as nat,
                Box::Empty,
            )),
            num_coins == rows * columns ==> (made matches Ok(stack) && stack@.cells == uniform(
                (rows * columns) as nat,
                Box::Coin,
            )),
            num_coins == 0 || num_coins >= rows * columns ==> *final(source) == *old(source),
            made == Err::<Stack, StackError>(StackError::DrawsExhausted) ==> final(source).remaining()
                == 0,
            made is Ok && 0 < num_coins < rows * columns ==> final(source).remaining() + num_coins
                <= old(source).remaining(),
            old(source).is_script() && num_coins <= rows * columns ==> match placement(
                (rows * columns) as nat,
                num_coins as nat,
                old(source).pending(),
            ) {
                Some((cells, used)) => {
                    &&& made matches Ok(stack)
                    &&& stack@.cells == cells
                    &&& final(source).pending() == old(source).pending().skip(used)
                },
                None => made == Err::<Stack, StackError>(StackError::DrawsExhausted),
            },
    {
        let num_boxes: usize = rows * columns;
        assert(num_boxes >= 1) by (nonlinear_arith)
            requires
                rows >= 1,
                columns >= 1,
                num_boxes == rows * columns,
        ;
        if num_coins > num_boxes {
            return Err(StackError::TooManyCoins);
        }
        if num_coins == num_boxes {
            let boxes = vec![Box::Coin; num_boxes];
            proof {
                assert(boxes@ =~= uniform(num_boxes as nat, Box::Coin));
                lemma_count_bounds(boxes@);
                assert(old(source).pending().skip(0) =~= old(source).pending());
            }
            return Ok(Stack { rows, columns, boxes });
        }
        let mut boxes = vec![Box::Empty; num_boxes];
        proof {
            assert(boxes@ =~= uniform(num_boxes as nat, Box::Empty));
            lemma_count_bounds(boxes@);
            lemma_marked_nothing(num_boxes as nat);
            assert(old(source).pending().skip(0) =~= old(source).pending());
            assert(old(source).pending().take(0) =~= Seq::<usize>::empty());
        }
        if num_coins == 0 {
            return Ok(Stack { rows, columns, boxes });
        }
        let ghost size = num_boxes as nat;
        let ghost coins = num_coins as nat;
        let ghost script = source.pending();
        let ghost mut used: int = 0;
        let mut placed: usize = 0;
        while placed < num_coins
            invariant
                source.wf(),
                source.is_script() == old(source).is_script(),
                script == old(source).pending(),
                num_boxes == rows * columns,
                size == num_boxes,
                coins == num_coins,
                0 < num_coins < num_boxes,
                boxes@.len() == num_boxes,
                placed == coin_count(boxes@),
                placed <= num_coins,
                source.remaining() + placed <= old(source).remaining(),
                source.is_script() ==> {
                    &&& 0 <= used <= script.len()
                    &&& source.pending() == script.skip(used)
                    &&& boxes@ == marked(size, script.take(used))
                    &&& forall|k: int|
                        0 <= k < used ==> coin_count(marked(size, #[trigger] script.take(k)))
                            < coins
                },
            decreases source.remaining(),
        {
            proof {
                if source.is_script() {
                    source.lemma_script_remaining();
                }
            }
            match source.draw(num_boxes) {
                None => {
                    proof {
                        if source.is_script() {
                            assert(script.take(used) =~= script);
                            assert forall|m: int| !suffices(size, coins, script, m) by {
                                if 0 <= m <= script.len() {
                                    if m < used {
                                        assert(coin_count(marked(size, script.take(m))) < coins);
                                    }
                                }
                            }
                        }
                    }
                    return Err(StackError::DrawsExhausted);
                },
                Some(index) => {
                    proof {
                        lemma_count_after_marking(boxes@, index as int);
                        if source.is_script() {
                            assert(script.skip(used)[0] == script[used]);
                            assert(script.skip(used).skip(1) =~= script.skip(used + 1));
                            lemma_marked_step(size, script, used);
                        }
                    }
                    if !boxes[index].is_coin() {
                        boxes.set(index, Box::Coin);
                        placed = placed + 1;
                    } else {
                        assert(boxes@.update(index as int, Box::Coin) =~= boxes@);
                    }
                    proof {
                        used = used + 1;
                    }
                },
            }
        }
        proof {
            if source.is_script() {
                assert(suffices(size, coins, script, used));
                lemma_suffices_once(size, coins, script, used);
            }
        }
        Ok(Stack { rows, columns, boxes })
    }

    /// Generates a grid with `num_coins` coins at random positions.
    ///
    /// The positions come from the thread's random number generator, which
    /// is asked up to `u64::MAX` times.
    pub fn new(rows: usize, columns: usize, num_coins: usize) -> (made: Result<Stack, StackError>)
        requires
            rows >= 1,
            columns >= 1,
            rows * columns <= usize::MAX,
        ensures
            made == Err::<Stack, StackError>(StackError::TooManyCoins) <==> num_coins > rows
                * columns,
            made matches Ok(stack) ==> {
                &&& stack.wf()
                &&& stack@.rows == rows
                &&& stack@.columns == columns
                &&& stack@.coins() == num_coins
            },
            num_coins == 0 ==> (made matches Ok(stack) && stack@.cells == uniform(
                (rows * columns) as nat,
                Box::Empty,
            )),
            num_coins == rows * columns ==> (made matches Ok(stack) && stack@.cells == uniform(
                (rows * columns) as nat,
                Box::Coin,
            )),
    {
        let mut source = DrawSource::random(u64::MAX);
        Stack::generate(rows, columns, num_coins, &mut source)
    }
}

} // verus!

//! Boxes, and the number of coins in a sequence of them.

use vstd::prelude::*;

verus! {

/// A box: empty, or holding a coin.
#[derive(Debug, Copy, Clone, PartialEq, Eq, Structural)]
pub enum Box {
    Empty,
    Coin,
}

impl Box {
    /// Whether the box holds a coin.
    pub fn is_coin(&self) -> (coin: bool)
        ensures
            coin == (*self is Coin),
    {
        *self == Box::Coin
    }
}

/// A box together with the place it was found at.
#[derive(Debug, Copy, Clone, PartialEq, Eq, Structural)]
pub struct BoxAt {
    pub row: usize,
    pub column: usize,
    pub b: Box,
}

impl BoxAt {
    /// Whether the box holds a coin.
    pub fn is_coin(&self) -> (coin: bool)
        ensures
            coin == (self.b is Coin),
    {
        self.b.is_coin()
    }
}

/// The number of coins among `cells`.
pub open spec fn coin_count(cells: Seq<Box>) -> nat
    decreases cells.len(),
{
    if cells.len() == 0 {
        0
    } else {
        coin_count(cells.drop_last()) + if cells.last() is Coin {
            1nat
        } else {
            0nat
        }
    }
}

/// `len` boxes that all hold `b`.
pub open spec fn uniform(len: nat, b: Box) -> Seq<Box> {
    Seq::new(len, |i: int| b)
}

/// A sequence holds no more coins than boxes; it holds none exactly when
/// every box is empty, and as many as boxes exactly when none is.
pub proof fn lemma_count_bounds(cells: Seq<Box>)
    ensures
        coin_count(cells) <= cells.len(),
        coin_count(cells) == 0 <==> cells == uniform(cells.len(), Box::Empty),
        coin_count(cells) == cells.len() <==> cells == uniform(cells.len(), Box::Coin),
    decreases cells.len(),
{
    if cells.len() == 0 {
        assert(cells =~= uniform(0, Box::Empty));
        assert(cells =~= uniform(0, Box::Coin));
    } else {
        let front = cells.drop_last();
        lemma_count_bounds(front);
        assert forall|i: int| 0 <= i < front.len() implies cells[i] == #[trigger] front[i] by {}
        if coin_count(cells) == 0 {
            assert forall|i: int| 0 <= i < cells.len() implies cells[i] == Box::Empty by {
                if i < front.len() {
                    assert(front[i] == uniform(front.len(), Box::Empty)[i]);
                }
            }
            assert(cells =~= uniform(cells.len(), Box::Empty));
        }
        if cells == uniform(cells.len(), Box::Empty) {
            assert(front =~= uniform(front.len(), Box::Empty));
        }
        if coin_count(cells) == cells.len() {
            assert forall|i: int| 0 <= i < cells.len() implies cells[i] == Box::Coin by {
                if i < front.len() {
                    assert(front[i] == uniform(front.len(), Box::Coin)[i]);
                }
            }
            assert(cells =~= uniform(cells.len(), Box::Coin));
        }
        if cells == uniform(cells.len(), Box::Coin) {
            assert(front =~= uniform(front.len(), Box::Coin));
        }
    }
}

/// Putting a coin into box `i` adds one to the count if the box was empty,
/// and nothing if it held a coin already.
pub proof fn lemma_count_after_marking(cells: Seq<Box>, i: int)
    requires
        0 <= i < cells.len(),
    ensures
        coin_count(cells.update(i, Box::Coin)) == coin_count(cells) + if cells[i] is Coin {
            0nat
        } else {
            1nat
        },
    decreases cells.len(),
{
    let marked = cells.update(i, Box::Coin);
    if i == cells.len() - 1 {
        assert(marked.drop_last() =~= cells.drop_last());
    } else {
        assert(marked.drop_last() =~= cells.drop_last().update(i, Box::Coin));
        lemma_count_after_marking(cells.drop_last(), i);
    }
}

} // verus!

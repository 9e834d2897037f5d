//! Sources of candidate positions.
//!
//! The grid generator asks a [`DrawSource`] for one position at a time. A
//! random source answers from the thread's random number generator; a
//! scripted source replays a list of values, which makes a generated grid a
//! function of that list.

use rand::Rng;
use vstd::prelude::*;

verus! {

/// A supply of draws that runs dry after finitely many.
pub struct DrawSource {
    scripted: bool,
    script: Vec<usize>,
    next: usize,
    budget: u64,
}

/// One draw of `rand::thread_rng().gen_range(0..bound)`.
///
/// Trusted: the result lies in `0..bound`. `gen_range` panics on an empty
/// range, which `bound > 0` rules out; `thread_rng` panics where the
/// operating system cannot seed the generator, which no argument decides.
/// Nothing is claimed of which index comes back, and two calls may differ.
#[verifier::external_body]
fn random_index(bound: usize) -> (index: usize)
    requires
        bound > 0,
    ensures
        index < bound,
{
    rand::thread_rng().gen_range(0..bound)
}

impl DrawSource {
    /// The script does not point past its end.
    pub closed spec fn wf(&self) -> bool {
        self.next <= self.script.len()
    }

    /// Whether the draws are replayed from a script.
    pub closed spec fn is_script(&self) -> bool {
        self.scripted
    }

    /// The values of a scripted source that have not been drawn yet, in the
    /// order in which they will be.
    pub closed spec fn pending(&self) -> Seq<usize> {
        if self.scripted {
            self.script@.subrange(self.next as int, self.script.len() as int)
        } else {
            Seq::empty()
        }
    }

    /// How many more draws the source will answer.
    pub closed spec fn remaining(&self) -> nat {
        if self.scripted {
            (self.script.len() - self.next) as nat
        } else {
            self.budget as nat
        }
    }

    /// A scripted source answers once for each pending value.
    pub proof fn lemma_script_remaining(&self)
        requires
            self.wf(),
            self.is_script(),
        ensures
            self.remaining() == self.pending().len(),
    {
    }

    /// A source that answers up to `limit` draws from the thread's random
    /// number generator.
    pub fn random(limit: u64) -> (source: Self)
        ensures
            source.wf(),
            !source.is_script(),
            source.remaining() == limit,
    {
        DrawSource { scripted: false, script: Vec::new(), next: 0, budget: limit }
    }

    /// A source that replays `values`, first to last.
    pub fn script(values: Vec<usize>) -> (source: Self)
        ensures
            source.wf(),
            source.is_script(),
            source.pending() == values@,
            source.remaining() == values@.len(),
    {
        let source = DrawSource { scripted: true, script: values, next: 0, budget: 0 };
        assert(source.pending() =~= values@);
        source
    }

    /// How many more draws the source will answer.
    pub fn remaining_draws(&self) -> (left: u64)
        requires
            self.wf(),
        ensures
            left == self.remaining(),
    {
        if self.scripted {
            (self.script.len() - self.next) as u64
        } else {
            self.budget
        }
    }

    /// Whether the source has run dry.
    pub fn is_exhausted(&self) -> (dry: bool)
        requires
            self.wf(),
        ensures
            dry == (self.remaining() == 0),
    {
        if self.scripted {
            self.next >= self.script.len()
        } else {
            self.budget == 0
        }
    }

    /// Draws a position in `0..bound`, or nothing once the source is dry.
    ///
    /// A scripted source hands out its next pending value reduced modulo
    /// `bound`; a random source hands out some index below `bound`.
    pub fn draw(&mut self, bound: usize) -> (drawn: Option<usize>)
        requires
            old(self).wf(),
            bound > 0,
        ensures
            final(self).wf(),
            final(self).is_script() == old(self).is_script(),
            drawn is None <==> old(self).remaining() == 0,
            drawn is None ==> *final(self) == *old(self),
            drawn matches Some(index) ==> {
                &&& index < bound
                &&& final(self).remaining() == old(self).remaining() - 1
                &&& old(self).is_script() ==> {
                    &&& index == old(self).pending()[0] % bound
                    &&& final(self).pending() == old(self).pending().skip(1)
                }
            },
    {
        if self.scripted {
            if self.next >= self.script.len() {
                return None;
            }
            let value: usize = self.script[self.next];
            self.next = self.next + 1;
            proof {
                assert(old(self).pending()[0] == value);
                assert(self.pending() =~= old(self).pending().skip(1));
            }
            Some(value % bound)
        } else {
            if self.budget == 0 {
                return None;
            }
            self.budget = self.budget - 1;
            Some(random_index(bound))
        }
    }
}

} // verus!

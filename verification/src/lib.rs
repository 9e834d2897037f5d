//! Monte Carlo comparison of two search orders over a grid of boxes.
//!
//! A grid of `rows × columns` boxes holds a fixed number of coins at random
//! places. One searcher opens the boxes row by row, the other column by
//! column; whoever opens a coin first wins the trial. The modules, leaves
//! first:
//!
//! * [`boxes`]: the state of a box and the count of coins in a sequence,
//! * [`numbering`]: how the places of a grid are numbered line by line,
//! * [`source`]: where candidate positions for coins are drawn from,
//! * [`stack`]: the grid and its generator,
//! * [`scan`]: the two traversal orders,
//! * [`trial`]: one search contest on one grid,
//! * [`experiment`]: many trials and their tally.

pub mod boxes;
pub mod numbering;
pub mod source;
pub mod stack;
pub mod scan;
pub mod trial;
pub mod experiment;

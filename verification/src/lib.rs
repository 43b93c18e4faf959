//! A bounded worker-pool dispatch engine for matrix multiplication and a
//! counter store for instrumentation.
//!
//! `matrix::multiply` makes one task for every cell of the product, deals
//! the tasks out to a fixed number of workers, lets every worker reduce its
//! tasks and gathers the replies into the output buffer, each into the slot
//! it names. `pool` does the same work over real channels, for workers that
//! run on threads of their own. `metrics` is a store of named counters, and
//! `producer` holds what a producer of the demonstration decides by chance.
//!
//! The arithmetic is that of the element type: the integers, taken modulo
//! the width of the type.

pub mod collector;
pub mod dispatch;
pub mod error;
pub mod matrix;
pub mod metrics;
pub mod numeric;
pub mod pool;
pub mod producer;
pub mod vector;

pub use crate::collector::Collector;
pub use crate::dispatch::{route, task, MsgInput, MsgOutput};
pub use crate::error::Error;
pub use crate::matrix::{multiply, multiply_with, Grid, Matrix, NUM_THREADS};
pub use crate::metrics::Metrics;
pub use crate::numeric::Numeric;
pub use crate::pool::{gather, multiply_on, send_tasks, Msg, Pool};
pub use crate::vector::{dot_product, Vector};

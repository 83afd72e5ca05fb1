//! Two lazy, pull-based sequence adapters with machine-checked contracts.
//!
//! * [`AdjacentMerge`] projects the elements of a source to values and folds
//!   every maximal run of neighbouring values that a merge function joins
//!   into one output. Only neighbours are compared.
//! * [`CountedCycle`] replays a source without end and pairs every element
//!   with the number of passes completed before it.
//!
//! Both draw their elements from a [`Source`], a finite sequence that is
//! consumed one pull at a time; [`SliceSource`] is the source over a borrowed
//! slice. The extension traits [`AdjacentMergeIterator`] and
//! [`CycledIterator`] give every source the methods `adjacent_merge` and
//! `cycle_counted`.
//!
//! The modules come in threes: the adapter, the mathematical model its
//! contracts are stated over, and the laws proved of that model.
//!
//! | adapter          | model         | laws         |
//! |------------------|---------------|--------------|
//! | `adjacent_merge` | `merge_model` | `merge_laws` |
//! | `counted_cycle`  | `cycle_model` | `cycle_laws` |
pub mod source;
pub mod merge_model;
pub mod merge_laws;
pub mod adjacent_merge;
pub mod cycle_model;
pub mod cycle_laws;
pub mod counted_cycle;

pub use adjacent_merge::{AdjacentMerge, AdjacentMergeIterator};
pub use counted_cycle::{CountedCycle, CycledIterator};
pub use source::{Replay, SliceSource, Source};

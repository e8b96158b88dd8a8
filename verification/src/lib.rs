//! An educational single-threaded async runtime: the scheduling decisions of
//! its executor, its one-shot channel and a demonstration future, each stated
//! as a state machine over plain values and proved against its contract.
pub mod executor;
pub mod future;
pub mod oneshot;
pub mod poll;
pub mod run;

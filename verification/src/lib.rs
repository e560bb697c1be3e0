//! Core of an event-time stream-processing runtime: the event and watermark
//! model, reorder buffers, windowed aggregation, and time-bounded joins.
//!
//! Every operator is written as an explicit state machine: a state type plus
//! step functions from state and incoming event to the new state and the
//! events to emit. A driver owns the channels and the task loop; the logic
//! that decides what each operator emits lives here, with contracts.

pub mod agg;
pub mod cache;
pub mod data;
pub mod e1;
pub mod e3;
pub mod encode;
pub mod event;
pub mod format;
pub mod join;
pub mod keys;
pub mod merge;
pub mod q1;
pub mod q2;
pub mod q3;
pub mod q4;
pub mod q5;
pub mod q6;
pub mod q7;
pub mod result;
pub mod sorted;
pub mod source;
pub mod stateless;
pub mod swap;
pub mod time;
pub mod tumbling_join;
pub mod window;
pub mod window_op;

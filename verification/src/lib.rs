//! Detection of real-time typing mistakes.
//!
//! The crate watches a stream of key-down events, keeps a bounded sliding
//! window of the most recent keys, classifies backspaces as corrections of
//! earlier input, and decides when the recent mistake rate has crossed a
//! configurable threshold so that a caller can raise an alert.
//!
//! The operating-system hook that produces the events, the channel plumbing
//! between threads, and the rendering of alerts are the caller's concern;
//! this crate holds the state and the decision rules.

pub mod digits;
pub mod keyhook;
pub mod monitor;
pub mod setting;

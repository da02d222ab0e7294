//! A personal coding-time tracker: a session state machine over a small
//! persisted timer record, together with the exact textual codec for that
//! record and the duration formatting used in its messages.

pub mod clock;
pub mod digits;
pub mod duration;
pub mod json;
pub mod machine;
pub mod message;
pub mod state;

pub use state::TimerData;

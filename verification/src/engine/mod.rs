//! The baseline completion engine.

pub mod baseline;
pub mod personalization;
pub mod protocol;
pub mod session;
pub mod util;

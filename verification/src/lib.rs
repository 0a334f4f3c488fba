//! Ghost-text completion for an input method: a baseline completion engine
//! driven by ASCII word prefixes, and a prediction router with heuristic and
//! model-backed engines, a result cache and a line-framed protocol.

pub mod confidence;
pub mod engine;
pub mod text;
pub mod daemon;

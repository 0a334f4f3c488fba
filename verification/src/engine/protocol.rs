//! The messages between a client and the baseline engine.

use crate::confidence::Confidence;
use vstd::prelude::*;

verus! {

/// What a client says of itself.
#[derive(Debug)]
pub struct ClientInfo {
    pub app: Option<String>,
    pub pid: Option<u32>,
}

/// What a client sends.
#[derive(Debug)]
pub enum ClientMessage {
    /// Asks for a completion at `cursor`, a position in UTF-16 code units
    /// of `context`.
    Suggest {
        request_id: String,
        context: String,
        cursor: usize,
        language_hint: String,
        max_len: usize,
        client: Option<ClientInfo>,
    },
    /// Withdraws the request of this id, if it has not come yet.
    Cancel { request_id: String },
}

/// What the engine sends.
#[derive(Debug)]
pub enum EngineMessage {
    Suggestion {
        request_id: String,
        suggestion: String,
        confidence: Confidence,
        replace_range: [usize; 2],
    },
}

/// The view of an [`EngineMessage`].
pub struct EngineMessageView {
    pub request_id: Seq<char>,
    pub suggestion: Seq<char>,
    pub confidence: Confidence,
    pub range_start: usize,
    pub range_end: usize,
}

impl View for EngineMessage {
    type V = EngineMessageView;

    open spec fn view(&self) -> EngineMessageView {
        match self {
            EngineMessage::Suggestion { request_id, suggestion, confidence, replace_range } => {
                EngineMessageView {
                    request_id: request_id@,
                    suggestion: suggestion@,
                    confidence: *confidence,
                    range_start: replace_range@[0],
                    range_end: replace_range@[1],
                }
            },
        }
    }
}

} // verus!

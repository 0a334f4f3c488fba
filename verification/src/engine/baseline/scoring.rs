//! Confidence of a completion and the conditions that a suggestion has to meet.

use crate::confidence::Confidence;
use vstd::prelude::*;

verus! {

/// The conditions under which a completion is proposed: at least two
/// characters were typed, something is left to propose, and the confidence
/// is one half or more.
pub open spec fn passes_gate(prefix_len: nat, suggestion_len: nat, confidence: Confidence) -> bool {
    prefix_len >= 2 && suggestion_len >= 1 && confidence.at_least(1, 2)
}

/// The confidence that a frequency earns: `1 - 1 / (freq + 1)`. It grows
/// with the frequency and stays below one.
pub fn confidence_from_freq(freq: u32) -> (c: Confidence)
    ensures
        c == crate::confidence::base_confidence(freq),
        c.wf(),
        c.den <= crate::confidence::MAX_BASE_DEN,
{
    Confidence { num: freq as u64, den: freq as u64 + 1 }
}

/// Whether a completion may be proposed.
pub fn gate_suggestion(prefix_len: usize, suggestion_len: usize, confidence: Confidence) -> (b:
    bool)
    ensures
        b == passes_gate(prefix_len as nat, suggestion_len as nat, confidence),
{
    if prefix_len < 2 {
        return false;
    }
    if suggestion_len == 0 {
        return false;
    }
    if !confidence.is_at_least_half() {
        return false;
    }
    true
}

} // verus!

//! Confidence values as exact fractions.

use vstd::prelude::*;

verus! {

/// A confidence `num / den`. Values made by this crate are well formed: the
/// denominator is positive and the fraction lies in `[0, 1]`.
#[derive(Clone, Copy, Debug, PartialEq, Eq, Structural)]
pub struct Confidence {
    pub num: u64,
    pub den: u64,
}

/// The largest denominator that a frequency-based confidence can have.
pub const MAX_BASE_DEN: u64 = 0x1_0000_0000;

impl Confidence {
    /// A positive denominator and a value between zero and one.
    pub open spec fn wf(self) -> bool {
        0 < self.den && self.num <= self.den
    }

    /// Whether the value is at least `p / q`.
    pub open spec fn at_least(self, p: nat, q: nat) -> bool {
        self.num * q >= p * self.den
    }

    /// The confidence of a reply that proposes nothing: zero.
    pub fn zero() -> (c: Confidence)
        ensures
            c == (Confidence { num: 0, den: 1 }),
            c.wf(),
    {
        Confidence { num: 0, den: 1 }
    }

    /// The confidence `n / 100`.
    pub(crate) fn percent(n: u8) -> (c: Confidence)
        requires
            n <= 100,
        ensures
            c == (Confidence { num: n as u64, den: 100 }),
            c.wf(),
    {
        Confidence { num: n as u64, den: 100 }
    }

    /// Whether the value is at least one half.
    pub fn is_at_least_half(&self) -> (b: bool)
        ensures
            b == self.at_least(1, 2),
    {
        let twice: u128 = 2 * (self.num as u128);
        twice >= self.den as u128
    }
}

/// The confidence that a word of frequency `freq` earns by itself:
/// `1 - 1 / (freq + 1)`, that is `freq / (freq + 1)`.
pub open spec fn base_confidence(freq: u32) -> Confidence {
    Confidence { num: freq as u64, den: (freq + 1) as u64 }
}

/// The largest confidence that a completion can have: `99 / 100`.
pub open spec fn confidence_cap() -> Confidence {
    Confidence { num: 99, den: 100 }
}

/// `base + token_len / 50`, capped at `99 / 100`. Each character of the typed
/// token adds two hundredths.
pub open spec fn boosted_confidence(base: Confidence, token_len: nat) -> Confidence {
    if 100 * (50 * base.num + token_len * base.den) >= 99 * (50 * base.den) {
        confidence_cap()
    } else {
        Confidence {
            num: (50 * base.num + token_len * base.den) as u64,
            den: (50 * base.den) as u64,
        }
    }
}

/// The confidence of a completion of frequency `freq` for a token of
/// `token_len` characters.
pub open spec fn completion_confidence(freq: u32, token_len: nat) -> Confidence {
    boosted_confidence(base_confidence(freq), token_len)
}

/// The confidence of a completion of frequency `freq` for a token of
/// `token_len` characters.
pub fn confidence_of_completion(freq: u32, token_len: usize) -> (c: Confidence)
    ensures
        c == completion_confidence(freq, token_len as nat),
        c.wf(),
{
    with_length_bonus(Confidence { num: freq as u64, den: freq as u64 + 1 }, token_len)
}

/// Adds the bonus for the length of the typed token and applies the cap.
pub(crate) fn with_length_bonus(base: Confidence, token_len: usize) -> (c: Confidence)
    requires
        base.wf(),
        base.den <= MAX_BASE_DEN,
    ensures
        c == boosted_confidence(base, token_len as nat),
        c.wf(),
{
    if token_len >= 50 {
        assert(100 * (50 * base.num + token_len * base.den) >= 99 * (50 * base.den))
            by (nonlinear_arith)
            requires
                token_len >= 50,
                base.den > 0,
        ;
        return Confidence { num: 99, den: 100 };
    }
    let len: u64 = token_len as u64;
    assert(len * base.den <= 49 * 0x1_0000_0000) by (nonlinear_arith)
        requires
            len <= 49,
            base.den <= 0x1_0000_0000,
    ;
    let num: u64 = 50 * base.num + len * base.den;
    let den: u64 = 50 * base.den;
    if 100 * num >= 99 * den {
        Confidence { num: 99, den: 100 }
    } else {
        Confidence { num, den }
    }
}

/// A word that was inserted has a frequency of one or more, so its
/// completion has a confidence of one half or more: the bound on the
/// confidence never refuses a completion by itself.
pub proof fn lemma_completion_confidence(freq: u32, token_len: nat)
    requires
        freq >= 1,
    ensures
        completion_confidence(freq, token_len).wf(),
        completion_confidence(freq, token_len).at_least(1, 2),
        !completion_confidence(freq, token_len).at_least(99, 100) || completion_confidence(
            freq,
            token_len,
        ) == confidence_cap(),
{
    let base = base_confidence(freq);
    let n = 50 * base.num + token_len * base.den;
    let d = 50 * base.den;
    assert(token_len * base.den >= 0) by (nonlinear_arith)
        requires
            token_len >= 0,
            base.den >= 0,
    ;
}

} // verus!

//! The requests and responses of the prediction daemon.
//!
//! Each type has a view that holds its texts as character sequences;
//! contracts compare values by their views.

use crate::confidence::Confidence;
use vstd::prelude::*;

verus! {

/// The language of the text that is being written.
#[derive(Clone, Copy, Debug, PartialEq, Eq, Structural, Hash)]
pub enum Language {
    Zh,
    En,
}

/// Whether the text after the cursor takes part in a prediction.
#[derive(Clone, Copy, Debug, PartialEq, Eq, Structural, Hash)]
pub enum PredictMode {
    /// Continue the text before the cursor.
    Next,
    /// Fill in between the text before and the text after the cursor.
    Fim,
}

/// Where a prediction came from.
#[derive(Clone, Copy, Debug, PartialEq, Eq, Structural)]
pub enum PredictionSource {
    LocalFim,
    LocalNext,
    Cloud,
}

/// The kinds of failure that a client is told of.
#[derive(Clone, Copy, Debug, PartialEq, Eq, Structural)]
pub enum ErrorCode {
    InvalidRequest,
    Timeout,
    Internal,
}

impl Default for Language {
    /// Chinese.
    fn default() -> (l: Language)
        ensures
            l == Language::Zh,
    {
        Language::Zh
    }
}

impl Default for PredictMode {
    /// Fill in the middle.
    fn default() -> (m: PredictMode)
        ensures
            m == PredictMode::Fim,
    {
        PredictMode::Fim
    }
}

/// The number of tokens asked of an engine where a request names none: 12.
pub fn default_max_tokens() -> (n: u32)
    ensures
        n == 12,
{
    12
}

/// The latency budget of a request that names none: 90 milliseconds.
pub fn default_latency_budget_ms() -> (n: u64)
    ensures
        n == 90,
{
    90
}

/// The source tag of a local prediction made in `mode`.
pub open spec fn local_source(mode: PredictMode) -> PredictionSource {
    match mode {
        PredictMode::Fim => PredictionSource::LocalFim,
        PredictMode::Next => PredictionSource::LocalNext,
    }
}

/// The source tag of a local prediction made in `mode`.
pub fn source_of_mode(mode: PredictMode) -> (s: PredictionSource)
    ensures
        s == local_source(mode),
{
    match mode {
        PredictMode::Fim => PredictionSource::LocalFim,
        PredictMode::Next => PredictionSource::LocalNext,
    }
}

/// The texts of a sequence of strings.
pub open spec fn texts(v: Seq<String>) -> Seq<Seq<char>> {
    Seq::new(v.len(), |i: int| v[i]@)
}

/// A copy of a list of strings.
pub fn clone_strings(v: &Vec<String>) -> (r: Vec<String>)
    ensures
        texts(r@) == texts(v@),
{
    let mut r: Vec<String> = Vec::new();
    let mut i: usize = 0;
    while i < v.len()
        invariant
            i <= v@.len(),
            r@.len() == i,
            forall|k: int| 0 <= k < i ==> r@[k]@ == v@[k]@,
        decreases v@.len() - i,
    {
        r.push(v[i].clone());
        i += 1;
    }
    assert(texts(r@) =~= texts(v@));
    r
}

/// A request for a prediction at the cursor.
#[derive(Debug)]
pub struct PredictRequest {
    /// The text before the cursor.
    pub prefix: String,
    /// The text after the cursor; may be empty.
    pub suffix: String,
    pub language: Language,
    pub mode: PredictMode,
    /// The number of tokens to ask for; zero stands for the default.
    pub max_tokens: u32,
    /// The time allowed, in milliseconds; zero stands for the default.
    pub latency_budget_ms: u64,
}

/// The view of a [`PredictRequest`].
pub struct PredictRequestView {
    pub prefix: Seq<char>,
    pub suffix: Seq<char>,
    pub language: Language,
    pub mode: PredictMode,
    pub max_tokens: u32,
    pub latency_budget_ms: u64,
}

impl View for PredictRequest {
    type V = PredictRequestView;

    open spec fn view(&self) -> PredictRequestView {
        PredictRequestView {
            prefix: self.prefix@,
            suffix: self.suffix@,
            language: self.language,
            mode: self.mode,
            max_tokens: self.max_tokens,
            latency_budget_ms: self.latency_budget_ms,
        }
    }
}

impl PredictRequestView {
    /// The request with its defaults filled in: 12 tokens and 90
    /// milliseconds where it says zero.
    pub open spec fn normalized(self) -> PredictRequestView {
        PredictRequestView {
            max_tokens: if self.max_tokens == 0 {
                12
            } else {
                self.max_tokens
            },
            latency_budget_ms: if self.latency_budget_ms == 0 {
                90
            } else {
                self.latency_budget_ms
            },
            ..self
        }
    }
}

impl Clone for PredictRequest {
    fn clone(&self) -> (r: PredictRequest)
        ensures
            r@ == self@,
    {
        PredictRequest {
            prefix: self.prefix.clone(),
            suffix: self.suffix.clone(),
            language: self.language,
            mode: self.mode,
            max_tokens: self.max_tokens,
            latency_budget_ms: self.latency_budget_ms,
        }
    }
}

impl PredictRequest {
    /// Fills in the defaults: 12 tokens and 90 milliseconds where the
    /// request says zero. Nothing else changes.
    pub fn normalized(self) -> (r: PredictRequest)
        ensures
            r@ == self@.normalized(),
    {
        let mut r = self;
        if r.max_tokens == 0 {
            r.max_tokens = default_max_tokens();
        }
        if r.latency_budget_ms == 0 {
            r.latency_budget_ms = default_latency_budget_ms();
        }
        r
    }
}

/// A prediction as a client receives it.
#[derive(Debug)]
pub struct PredictResponse {
    /// The text to show after the cursor.
    pub ghost_text: String,
    /// Alternatives; the first repeats `ghost_text` where that is not empty.
    pub candidates: Vec<String>,
    pub confidence: Confidence,
    pub source: PredictionSource,
    pub elapsed_ms: u64,
}

/// The view of a [`PredictResponse`].
pub struct PredictResponseView {
    pub ghost_text: Seq<char>,
    pub candidates: Seq<Seq<char>>,
    pub confidence: Confidence,
    pub source: PredictionSource,
    pub elapsed_ms: u64,
}

impl View for PredictResponse {
    type V = PredictResponseView;

    open spec fn view(&self) -> PredictResponseView {
        PredictResponseView {
            ghost_text: self.ghost_text@,
            candidates: texts(self.candidates@),
            confidence: self.confidence,
            source: self.source,
            elapsed_ms: self.elapsed_ms,
        }
    }
}

/// The response that proposes nothing.
pub open spec fn empty_response(source: PredictionSource, elapsed_ms: u64) -> PredictResponseView {
    PredictResponseView {
        ghost_text: Seq::<char>::empty(),
        candidates: Seq::<Seq<char>>::empty(),
        confidence: Confidence { num: 0, den: 1 },
        source,
        elapsed_ms,
    }
}

impl Clone for PredictResponse {
    fn clone(&self) -> (r: PredictResponse)
        ensures
            r@ == self@,
    {
        PredictResponse {
            ghost_text: self.ghost_text.clone(),
            candidates: clone_strings(&self.candidates),
            confidence: self.confidence,
            source: self.source,
            elapsed_ms: self.elapsed_ms,
        }
    }
}

impl PredictResponse {
    /// The response that proposes nothing: no text, no candidates and
    /// confidence zero.
    pub fn empty(source: PredictionSource, elapsed_ms: u64) -> (r: PredictResponse)
        ensures
            r@ == empty_response(source, elapsed_ms),
    {
        let r = PredictResponse {
            ghost_text: String::new(),
            candidates: Vec::new(),
            confidence: Confidence::zero(),
            source,
            elapsed_ms,
        };
        assert(texts(r.candidates@) =~= Seq::<Seq<char>>::empty());
        r
    }
}

/// A failure as a client receives it.
#[derive(Debug)]
pub struct ErrorResponse {
    pub code: ErrorCode,
    pub message: String,
}

/// What a client asks for.
#[derive(Debug)]
pub enum RequestBody {
    Predict(PredictRequest),
    Ping,
}

/// A request with the id under which its response is sent.
#[derive(Debug)]
pub struct DaemonRequest {
    pub id: String,
    pub body: RequestBody,
}

/// What a client is answered.
#[derive(Debug)]
pub enum ResponseBody {
    Predict(PredictResponse),
    Pong,
    Error(ErrorResponse),
}

/// A response with the id of its request.
#[derive(Debug)]
pub struct DaemonResponse {
    pub id: String,
    pub body: ResponseBody,
}

/// The view of a [`ResponseBody`].
pub enum ResponseBodyView {
    Predict(PredictResponseView),
    Pong,
    Error { code: ErrorCode, message: Seq<char> },
}

/// The view of a [`DaemonResponse`].
pub struct DaemonResponseView {
    pub id: Seq<char>,
    pub body: ResponseBodyView,
}

impl View for ResponseBody {
    type V = ResponseBodyView;

    open spec fn view(&self) -> ResponseBodyView {
        match self {
            ResponseBody::Predict(p) => ResponseBodyView::Predict(p@),
            ResponseBody::Pong => ResponseBodyView::Pong,
            ResponseBody::Error(e) => ResponseBodyView::Error {
                code: e.code,
                message: e.message@,
            },
        }
    }
}

impl View for DaemonResponse {
    type V = DaemonResponseView;

    open spec fn view(&self) -> DaemonResponseView {
        DaemonResponseView { id: self.id@, body: self.body@ }
    }
}

} // verus!

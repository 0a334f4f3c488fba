//! Prediction engines and the router that chooses among them.

pub mod cache;
pub mod heuristic;
pub mod llamacpp;
pub mod ollama;

use crate::confidence::Confidence;
use crate::daemon::config::{DefaultMode, ModelBackend, ModelConfig, PredictConfig};
use crate::daemon::protocol::{
    clone_strings, empty_response, local_source, source_of_mode, texts, PredictMode,
    PredictRequest, PredictRequestView, PredictResponse, PredictResponseView, PredictionSource,
};
use crate::text::{blank, is_blank};
use cache::{cache_wf, inserted, lemma_inserted, lookup, CacheKey, CacheKeyView, CacheModel, PredictCache};
use heuristic::{heuristic_draft, HeuristicPredictor};
use llamacpp::LlamaCppPredictor;
use ollama::OllamaPredictor;
use vstd::prelude::*;
use vstd::string::StringExecFns;

verus! {

/// What an engine proposes, before the router stamps the time on it.
#[derive(Debug)]
pub struct PredictionDraft {
    pub ghost_text: String,
    pub candidates: Vec<String>,
    pub confidence: Confidence,
    pub source: PredictionSource,
}

/// The view of a [`PredictionDraft`].
pub struct PredictionDraftView {
    pub ghost_text: Seq<char>,
    pub candidates: Seq<Seq<char>>,
    pub confidence: Confidence,
    pub source: PredictionSource,
}

impl View for PredictionDraft {
    type V = PredictionDraftView;

    open spec fn view(&self) -> PredictionDraftView {
        PredictionDraftView {
            ghost_text: self.ghost_text@,
            candidates: texts(self.candidates@),
            confidence: self.confidence,
            source: self.source,
        }
    }
}

impl Clone for PredictionDraft {
    fn clone(&self) -> (r: PredictionDraft)
        ensures
            r@ == self@,
    {
        PredictionDraft {
            ghost_text: self.ghost_text.clone(),
            candidates: clone_strings(&self.candidates),
            confidence: self.confidence,
            source: self.source,
        }
    }
}

/// Why an engine could not be set up or did not deliver.
#[derive(Debug)]
pub enum EngineError {
    /// The local model runner was chosen without a model file.
    MissingModelPath,
    /// The remote host was chosen without a model name.
    MissingOllamaModel,
    /// The remote host was chosen without an address.
    MissingOllamaHost,
    /// The local model runner printed nothing usable.
    EmptyLlamaPrediction,
    /// The remote host answered with nothing usable.
    EmptyOllamaPrediction,
    /// The local model runner ended with a failure status.
    CommandFailed { status: String, stderr: String },
    /// The remote host answered with a failure status.
    ApiFailed { status: String, body: String },
    /// The engine could not be reached or did not answer in time.
    Transport(String),
}

impl EngineError {
    /// The text of the error.
    pub open spec fn text(self) -> Seq<char> {
        match self {
            EngineError::MissingModelPath => "model.backend is llamacpp but model.model_path is empty"@,
            EngineError::MissingOllamaModel => "model.backend is ollama but model.ollama_model is empty"@,
            EngineError::MissingOllamaHost => "model.backend is ollama but model.ollama_host is empty"@,
            EngineError::EmptyLlamaPrediction => "llama.cpp returned empty prediction"@,
            EngineError::EmptyOllamaPrediction => "ollama returned empty prediction"@,
            EngineError::CommandFailed { status, stderr } => "llama.cpp exited with "@ + status@
                + ": "@ + stderr@,
            EngineError::ApiFailed { status, body } => "ollama API failed ("@ + status@ + "): "@
                + body@,
            EngineError::Transport(message) => message@,
        }
    }

    /// The text of the error.
    pub fn message(&self) -> (s: String)
        ensures
            s@ == self.text(),
    {
        match self {
            EngineError::MissingModelPath => {
                "model.backend is llamacpp but model.model_path is empty".to_owned()
            },
            EngineError::MissingOllamaModel => {
                "model.backend is ollama but model.ollama_model is empty".to_owned()
            },
            EngineError::MissingOllamaHost => {
                "model.backend is ollama but model.ollama_host is empty".to_owned()
            },
            EngineError::EmptyLlamaPrediction => "llama.cpp returned empty prediction".to_owned(),
            EngineError::EmptyOllamaPrediction => "ollama returned empty prediction".to_owned(),
            EngineError::CommandFailed { status, stderr } => {
                let mut s = "llama.cpp exited with ".to_owned();
                s.append(status.as_str());
                s.append(": ");
                s.append(stderr.as_str());
                s
            },
            EngineError::ApiFailed { status, body } => {
                let mut s = "ollama API failed (".to_owned();
                s.append(status.as_str());
                s.append("): ");
                s.append(body.as_str());
                s
            },
            EngineError::Transport(message) => message.clone(),
        }
    }
}

/// An engine: something that proposes a continuation for a request.
pub trait PredictorEngine {
    /// Proposes a continuation in `mode`, or says why it cannot.
    fn predict(&self, request: &PredictRequest, mode: PredictMode) -> Result<
        PredictionDraft,
        EngineError,
    >;
}

// ---------------------------------------------------------------------------
// The clock
// ---------------------------------------------------------------------------

/// `std::time::Instant`: a reading of the clock, which is carried along and
/// never looked into.
#[verifier::external_type_specification]
#[verifier::external_body]
pub struct ExInstant(std::time::Instant);

/// `Instant::now` reads the clock; nothing is known of what it returns.
pub assume_specification[ std::time::Instant::now ]() -> (t: std::time::Instant);

/// `Instant::elapsed` measures the time since the instant; nothing is known
/// of what it returns.
pub assume_specification[ std::time::Instant::elapsed ](t: &std::time::Instant) -> (d:
    std::time::Duration);

/// `Duration::as_millis` gives a duration in whole milliseconds; of a
/// duration that was measured nothing is known.
pub assume_specification[ std::time::Duration::as_millis ](d: &std::time::Duration) -> (ms: u128);

// ---------------------------------------------------------------------------
// The router
// ---------------------------------------------------------------------------

/// The engine that the router asks first.
#[derive(Debug)]
pub enum Backend {
    Heuristic,
    Llamacpp(LlamaCppPredictor),
    Ollama(OllamaPredictor),
}

impl Backend {
    /// Which kind of engine this is.
    pub open spec fn kind(self) -> ModelBackend {
        match self {
            Backend::Heuristic => ModelBackend::Heuristic,
            Backend::Llamacpp(_) => ModelBackend::Llamacpp,
            Backend::Ollama(_) => ModelBackend::Ollama,
        }
    }
}

/// The engine that a configuration leads to: the one it names, or the
/// heuristic where that one cannot be set up.
pub open spec fn effective_backend(
    backend: ModelBackend,
    model_path: Seq<char>,
    ollama_model: Seq<char>,
    ollama_host: Seq<char>,
) -> ModelBackend {
    match backend {
        ModelBackend::Heuristic => ModelBackend::Heuristic,
        ModelBackend::Llamacpp => if blank(model_path) {
            ModelBackend::Heuristic
        } else {
            ModelBackend::Llamacpp
        },
        ModelBackend::Ollama => if blank(ollama_model) || blank(ollama_host) {
            ModelBackend::Heuristic
        } else {
            ModelBackend::Ollama
        },
    }
}

/// The prediction mode that a configured default stands for.
pub open spec fn mode_of_default(mode: DefaultMode) -> PredictMode {
    match mode {
        DefaultMode::Next => PredictMode::Next,
        DefaultMode::Fim => PredictMode::Fim,
    }
}

/// The mode in which a request is served: a fill-in without text after the
/// cursor is served as a continuation, every other request in its own mode.
pub open spec fn effective_mode(mode: PredictMode, suffix: Seq<char>) -> PredictMode {
    if mode == PredictMode::Fim && blank(suffix) {
        PredictMode::Next
    } else {
        mode
    }
}

/// The key under which the prediction for a request in `mode` is cached.
pub open spec fn key_for(request: PredictRequestView, mode: PredictMode) -> CacheKeyView {
    CacheKeyView {
        prefix: request.prefix,
        suffix: request.suffix,
        language: request.language,
        mode,
        max_tokens: request.max_tokens,
    }
}

/// The response that a draft makes after `elapsed_ms` milliseconds.
pub open spec fn stamped(draft: PredictionDraftView, elapsed_ms: u64) -> PredictResponseView {
    PredictResponseView {
        ghost_text: draft.ghost_text,
        candidates: draft.candidates,
        confidence: draft.confidence,
        source: draft.source,
        elapsed_ms,
    }
}

/// The draft that a response was made of.
pub open spec fn draft_of(response: PredictResponseView) -> PredictionDraftView {
    PredictionDraftView {
        ghost_text: response.ghost_text,
        candidates: response.candidates,
        confidence: response.confidence,
        source: response.source,
    }
}

/// The view of what the first engine delivered: its draft, or nothing.
pub open spec fn outcome_view(outcome: Result<PredictionDraft, EngineError>) -> Option<
    PredictionDraftView,
> {
    match outcome {
        Ok(d) => Some(d@),
        Err(_) => None,
    }
}

/// The draft that is served: that of the first engine, or the heuristic one
/// where the first engine failed.
pub open spec fn served_draft(
    outcome: Option<PredictionDraftView>,
    request: PredictRequestView,
    mode: PredictMode,
) -> PredictionDraftView {
    match outcome {
        Some(d) => d,
        None => heuristic_draft(request, mode),
    }
}

/// What the router does with a request before any engine runs.
#[derive(Debug)]
pub enum RouteStep {
    /// The response is known: the router is switched off, nothing was
    /// written before the cursor, or the cache holds the prediction.
    Respond(PredictResponse),
    /// The first engine has to be asked, with this request and in this mode.
    Invoke { request: PredictRequest, mode: PredictMode },
}

/// The view of a [`RouteStep`].
pub enum RouteStepView {
    Respond(PredictResponseView),
    Invoke { request: PredictRequestView, mode: PredictMode },
}

impl View for RouteStep {
    type V = RouteStepView;

    open spec fn view(&self) -> RouteStepView {
        match self {
            RouteStep::Respond(r) => RouteStepView::Respond(r@),
            RouteStep::Invoke { request, mode } => RouteStepView::Invoke {
                request: request@,
                mode: *mode,
            },
        }
    }
}

/// The step that a router with the given switch and cache takes for a request.
pub open spec fn route_of(enabled: bool, cached: CacheModel, request: PredictRequestView) -> RouteStepView {
    let n = request.normalized();
    let mode = effective_mode(n.mode, n.suffix);
    if !enabled || blank(n.prefix) {
        RouteStepView::Respond(empty_response(PredictionSource::LocalNext, 0))
    } else {
        match lookup(cached, key_for(n, mode)) {
            Some(v) => RouteStepView::Respond(v),
            None => RouteStepView::Invoke { request: n, mode },
        }
    }
}

/// The router: it serves a request from the cache, or has the first engine
/// asked and falls back on the heuristic one.
pub struct PredictorRouter {
    primary: Backend,
    fallback: HeuristicPredictor,
    default_mode: PredictMode,
    enabled: bool,
    cache: PredictCache,
}

impl PredictorRouter {
    /// Whether predictions are made at all.
    pub closed spec fn enabled(self) -> bool {
        self.enabled
    }

    /// The mode that the configuration prefers.
    pub closed spec fn default_mode(self) -> PredictMode {
        self.default_mode
    }

    /// The engine that is asked first.
    pub closed spec fn primary_engine(self) -> Backend {
        self.primary
    }

    /// Which kind of engine is asked first.
    pub open spec fn primary_kind(self) -> ModelBackend {
        self.primary_engine().kind()
    }

    /// The cached predictions, oldest first.
    pub closed spec fn cached(self) -> CacheModel {
        self.cache.model()
    }

    /// The number of predictions that the cache can hold.
    pub closed spec fn cache_limit(self) -> nat {
        self.cache.limit()
    }

    /// Sets the router up. The first engine is the one that the
    /// configuration names; where that engine cannot be set up, the
    /// heuristic one takes its place. The cache starts empty.
    pub fn new(model: ModelConfig, predict: PredictConfig) -> (r: PredictorRouter)
        ensures
            r.enabled() == predict.enable,
            r.default_mode() == mode_of_default(model.mode),
            r.primary_kind() == effective_backend(
                model.backend,
                model.model_path@,
                model.ollama_model@,
                model.ollama_host@,
            ),
            r.primary_engine() matches Backend::Llamacpp(p) ==> {
                &&& p.model_path() == model.model_path@
                &&& p.cli_path() == model.llama_cli_path@
                &&& p.ctx_len() == model.ctx_len
            },
            r.primary_engine() matches Backend::Ollama(p) ==> {
                &&& p.model() == model.ollama_model@
                &&& p.base_url() == crate::text::strip_end(
                    model.ollama_host@,
                    crate::text::CharClass::Only('/'),
                )
            },
            r.cached() == Seq::<(CacheKeyView, PredictResponseView)>::empty(),
            r.cache_limit() == predict.cache_capacity,
            cache_wf(r.cached(), r.cache_limit()),
    {
        let fallback = HeuristicPredictor::new();
        let default_mode = match model.mode {
            DefaultMode::Next => PredictMode::Next,
            DefaultMode::Fim => PredictMode::Fim,
        };
        let primary = match model.backend {
            ModelBackend::Heuristic => Backend::Heuristic,
            ModelBackend::Llamacpp => match LlamaCppPredictor::new(model) {
                Ok(predictor) => Backend::Llamacpp(predictor),
                Err(_) => Backend::Heuristic,
            },
            ModelBackend::Ollama => match OllamaPredictor::new(model) {
                Ok(predictor) => Backend::Ollama(predictor),
                Err(_) => Backend::Heuristic,
            },
        };
        PredictorRouter {
            primary,
            fallback,
            default_mode,
            enabled: predict.enable,
            cache: PredictCache::new(predict.cache_capacity),
        }
    }

    /// The engine that is asked first.
    pub fn primary(&self) -> (b: &Backend)
        ensures
            *b == self.primary_engine(),
    {
        &self.primary
    }

    /// The mode in which a request is served. The configured default has no
    /// part in it: a fill-in without text after the cursor is served as a
    /// continuation whatever the default is.
    pub fn resolve_mode(&self, request: &PredictRequest) -> (mode: PredictMode)
        ensures
            mode == effective_mode(request.mode, request.suffix@),
            request.mode == PredictMode::Fim && blank(request.suffix@) ==> mode
                == PredictMode::Next,
    {
        let fill_in = match request.mode {
            PredictMode::Fim => true,
            PredictMode::Next => false,
        };
        if fill_in && is_blank(request.suffix.as_str()) {
            match self.default_mode {
                PredictMode::Fim => PredictMode::Next,
                PredictMode::Next => PredictMode::Next,
            }
        } else {
            request.mode
        }
    }

    /// Decides what to do with a request: answer at once, or ask the first
    /// engine. The router does not change.
    pub fn route(&self, request: PredictRequest) -> (step: RouteStep)
        ensures
            step@ == route_of(self.enabled(), self.cached(), request@),
            cache_wf(self.cached(), self.cache_limit()),
            !self.enabled() || blank(request.prefix@) ==> step@ == RouteStepView::Respond(
                empty_response(PredictionSource::LocalNext, 0),
            ),
    {
        proof {
            use_type_invariant(&self.cache);
            self.cache.lemma_wf();
        }
        if !self.enabled {
            return RouteStep::Respond(PredictResponse::empty(PredictionSource::LocalNext, 0));
        }
        let request = request.normalized();
        if is_blank(request.prefix.as_str()) {
            return RouteStep::Respond(PredictResponse::empty(PredictionSource::LocalNext, 0));
        }
        let mode = self.resolve_mode(&request);
        let key = CacheKey {
            prefix: request.prefix.clone(),
            suffix: request.suffix.clone(),
            language: request.language,
            mode,
            max_tokens: request.max_tokens,
        };
        match self.cache.get(&key) {
            Some(cached) => RouteStep::Respond(cached),
            None => RouteStep::Invoke { request, mode },
        }
    }

    /// Takes what the first engine delivered for a request that [`route`]
    /// handed out, makes the response and files it in the cache.
    ///
    /// Where the first engine failed, the heuristic engine is asked; it does
    /// not fail.
    ///
    /// [`route`]: PredictorRouter::route
    pub fn settle(
        &mut self,
        request: &PredictRequest,
        mode: PredictMode,
        outcome: Result<PredictionDraft, EngineError>,
        elapsed_ms: u64,
    ) -> (response: PredictResponse)
        ensures
            response@ == stamped(served_draft(outcome_view(outcome), request@, mode), elapsed_ms),
            final(self).cached() == inserted(
                old(self).cached(),
                old(self).cache_limit(),
                key_for(request@, mode),
                response@,
            ),
            final(self).cached().len() <= final(self).cache_limit(),
            cache_wf(old(self).cached(), old(self).cache_limit()),
            cache_wf(final(self).cached(), final(self).cache_limit()),
            final(self).cache_limit() == old(self).cache_limit(),
            final(self).enabled() == old(self).enabled(),
            final(self).default_mode() == old(self).default_mode(),
            final(self).primary_engine() == old(self).primary_engine(),
    {
        proof {
            use_type_invariant(&self.cache);
            self.cache.lemma_wf();
        }
        let draft = match outcome {
            Ok(value) => value,
            Err(_) => match self.fallback.predict(request, mode) {
                Ok(value) => value,
                Err(_) => PredictionDraft {
                    ghost_text: String::new(),
                    candidates: Vec::new(),
                    confidence: Confidence::zero(),
                    source: source_of_mode(mode),
                },
            },
        };
        let response = PredictResponse {
            ghost_text: draft.ghost_text,
            candidates: draft.candidates,
            confidence: draft.confidence,
            source: draft.source,
            elapsed_ms,
        };
        let key = CacheKey {
            prefix: request.prefix.clone(),
            suffix: request.suffix.clone(),
            language: request.language,
            mode,
            max_tokens: request.max_tokens,
        };
        self.cache.insert(key, response.clone());
        response
    }

    /// Serves a request from beginning to end, with `engine` standing for
    /// the model behind the router. The heuristic engine is asked in its
    /// place where it is the first engine, and after it where it fails.
    pub fn predict<E: PredictorEngine>(&mut self, engine: &E, request: PredictRequest) -> (response:
        PredictResponse)
        ensures
            final(self).enabled() == old(self).enabled(),
            final(self).cache_limit() == old(self).cache_limit(),
            cache_wf(old(self).cached(), old(self).cache_limit()),
            cache_wf(final(self).cached(), final(self).cache_limit()),
            final(self).default_mode() == old(self).default_mode(),
            final(self).primary_engine() == old(self).primary_engine(),
            match route_of(old(self).enabled(), old(self).cached(), request@) {
                RouteStepView::Respond(v) => response@ == v && final(self).cached() == old(
                    self,
                ).cached(),
                RouteStepView::Invoke { request: asked, mode } => {
                    &&& final(self).cached() == inserted(
                        old(self).cached(),
                        old(self).cache_limit(),
                        key_for(asked, mode),
                        response@,
                    )
                    &&& old(self).primary_kind() == ModelBackend::Heuristic ==> draft_of(response@)
                        == heuristic_draft(asked, mode)
                },
            },
            !old(self).enabled() || blank(request.prefix@) ==> response@ == empty_response(
                PredictionSource::LocalNext,
                0,
            ),
    {
        match self.route(request) {
            RouteStep::Respond(response) => response,
            RouteStep::Invoke { request, mode } => {
                let started = std::time::Instant::now();
                let outcome = match &self.primary {
                    Backend::Heuristic => self.fallback.predict(&request, mode),
                    _ => engine.predict(&request, mode),
                };
                let elapsed = started.elapsed();
                let elapsed_ms = #[verifier::truncate]
                (elapsed.as_millis() as u64);
                self.settle(&request, mode, outcome, elapsed_ms)
            },
        }
    }
}

/// A request that was served by an engine is served from the cache when it
/// comes again, with the very response that was filed: the same text,
/// candidates, confidence and source as the fresh one, and the time that
/// the fresh one took.
pub proof fn lemma_cache_hit_repeats(
    enabled: bool,
    cached: CacheModel,
    limit: nat,
    request: PredictRequestView,
    response: PredictResponseView,
)
    requires
        cache_wf(cached, limit),
        limit > 0,
        route_of(enabled, cached, request) is Invoke,
    ensures
        route_of(
            enabled,
            inserted(
                cached,
                limit,
                key_for(
                    route_of(enabled, cached, request)->request,
                    route_of(enabled, cached, request)->mode,
                ),
                response,
            ),
            request,
        ) == RouteStepView::Respond(response),
{
    let n = request.normalized();
    let mode = effective_mode(n.mode, n.suffix);
    lemma_inserted(cached, limit, key_for(n, mode), response);
}

} // verus!

//! The engine behind a remote model host: what is sent to the host, and
//! what is made of its answer. The exchange itself is the program's part.

use crate::confidence::Confidence;
use crate::daemon::config::ModelConfig;
use crate::daemon::predictor::{EngineError, PredictionDraft, PredictionDraftView};
use crate::daemon::protocol::{
    local_source, source_of_mode, Language, PredictMode, PredictRequest, PredictRequestView,
};
use crate::text::{
    before_first, blank, find, first_line, first_occurrence, from_chars, is_blank, leading_len,
    leading_run, lemma_first_line, lemma_first_occurrence_from, lemma_piece_has_no_occurrence,
    lemma_run_zero, lemma_strip_is_clean, lemma_strip_is_piece, lemma_strip_noop,
    lemma_strip_shortens, occurs_at, starts_with, strip, strip_chars, strip_end,
    strip_end_chars, subvec, to_chars, trim, CharClass,
};
use vstd::prelude::*;
use vstd::string::StringExecFns;

verus! {

// ---------------------------------------------------------------------------
// Cleaning the answer of the model
// ---------------------------------------------------------------------------

/// The answer without surrounding white space, backticks and double quotes.
pub open spec fn unquoted(raw: Seq<char>) -> Seq<char> {
    trim(strip(strip(trim(raw), CharClass::Only('`')), CharClass::Only('"')))
}

/// `text` without the request's prefix, where the model repeated it.
pub open spec fn without_echo(text: Seq<char>, prefix: Seq<char>) -> Seq<char> {
    if prefix.is_prefix_of(text) {
        text.skip(prefix.len() as int)
    } else {
        text
    }
}

/// `text` up to the first occurrence of the request's suffix, if the suffix
/// is not empty and occurs.
pub open spec fn cut_at_suffix(text: Seq<char>, suffix: Seq<char>) -> Seq<char> {
    if suffix.len() > 0 {
        before_first(text, suffix)
    } else {
        text
    }
}

/// What is made of unquoted text: the echo of the prefix goes, the text ends
/// before the suffix and at the end of its first line, and is trimmed.
pub open spec fn finished(text: Seq<char>, prefix: Seq<char>, suffix: Seq<char>) -> Seq<char> {
    trim(first_line(cut_at_suffix(without_echo(text, prefix), suffix)))
}

/// The text that is proposed for an answer of the model.
pub open spec fn sanitized(raw: Seq<char>, prefix: Seq<char>, suffix: Seq<char>) -> Seq<char> {
    finished(unquoted(raw), prefix, suffix)
}

/// A text that cleaning leaves alone: it neither begins nor ends with a
/// backtick or a double quote, and does not begin with a prefix that is not
/// empty.
pub open spec fn settled(text: Seq<char>, prefix: Seq<char>) -> bool {
    &&& text.len() > 0 ==> text[0] != '`' && text[0] != '"' && text.last() != '`' && text.last()
        != '"'
    &&& prefix.len() == 0 || !prefix.is_prefix_of(text)
}

/// Cleans the answer of the model for a request: trims it, takes off
/// surrounding backticks and quotes, drops an echo of the request's prefix,
/// cuts before the request's suffix and after the first line, and trims again.
pub fn sanitize_output(raw: &str, request: &PredictRequest) -> (r: String)
    ensures
        r@ == sanitized(raw@, request.prefix@, request.suffix@),
{
    let chars = to_chars(raw);
    let trimmed = strip_chars(&chars, CharClass::Whitespace);
    let bare = strip_chars(&trimmed, CharClass::Only('`'));
    let bare = strip_chars(&bare, CharClass::Only('"'));
    let mut text = strip_chars(&bare, CharClass::Whitespace);
    let prefix = to_chars(request.prefix.as_str());
    if starts_with(&text, &prefix) {
        text = subvec(&text, prefix.len(), text.len());
    }
    let suffix = to_chars(request.suffix.as_str());
    if suffix.len() > 0 {
        match find(&text, &suffix) {
            Some(position) => {
                proof {
                    lemma_first_occurrence_from(text@, suffix@, 0);
                }
                text = subvec(&text, 0, position);
            },
            None => {},
        }
    }
    let line_len = leading_len(&text, CharClass::Except('\n'));
    let line = subvec(&text, 0, line_len);
    from_chars(&strip_chars(&line, CharClass::Whitespace))
}

/// Cutting at a pattern leaves no occurrence of it, and makes nothing longer.
proof fn lemma_cut_at_suffix(text: Seq<char>, suffix: Seq<char>)
    ensures
        cut_at_suffix(text, suffix).len() <= text.len(),
        cut_at_suffix(text, suffix) == text.take(cut_at_suffix(text, suffix).len() as int),
        suffix.len() > 0 ==> forall|j: int| !occurs_at(cut_at_suffix(text, suffix), suffix, j),
{
    let cut = cut_at_suffix(text, suffix);
    lemma_first_occurrence_from(text, suffix, 0);
    assert(text.take(text.len() as int) =~= text);
    if suffix.len() > 0 {
        assert forall|j: int| !occurs_at(cut, suffix, j) by {
            if occurs_at(cut, suffix, j) {
                assert(cut.subrange(j, j + suffix.len()) =~= text.subrange(j, j + suffix.len()));
                assert(occurs_at(text, suffix, j));
            }
        }
    }
}

/// What `finished` returns is trimmed, holds no line feed and no occurrence
/// of a suffix that is not empty, and is no longer than what went in; it is
/// shorter where an echo of a prefix that is not empty was dropped.
proof fn lemma_finished(text: Seq<char>, prefix: Seq<char>, suffix: Seq<char>)
    ensures
        leading_run(finished(text, prefix, suffix), CharClass::Whitespace) == 0,
        crate::text::trailing_run(finished(text, prefix, suffix), CharClass::Whitespace) == 0,
        forall|i: int|
            0 <= i < finished(text, prefix, suffix).len() ==> #[trigger] finished(
                text,
                prefix,
                suffix,
            )[i] != '\n',
        suffix.len() > 0 ==> first_occurrence(finished(text, prefix, suffix), suffix) is None,
        finished(text, prefix, suffix).len() <= text.len(),
        prefix.len() > 0 && prefix.is_prefix_of(text) ==> finished(text, prefix, suffix).len()
            < text.len(),
{
    let x = without_echo(text, prefix);
    let w = cut_at_suffix(x, suffix);
    let z = first_line(w);
    let y = finished(text, prefix, suffix);
    let class = CharClass::Whitespace;
    lemma_cut_at_suffix(x, suffix);
    lemma_first_line(w);
    lemma_strip_is_clean(z, class);
    lemma_strip_is_piece(z, class);
    let a = leading_run(z, class) as int;
    let b = a + y.len();
    crate::text::lemma_leading_run(w, CharClass::Except('\n'));
    assert(z == w.take(z.len() as int));
    assert(y == z.subrange(a, b));
    assert(y =~= w.subrange(a, b));
    assert forall|i: int| 0 <= i < y.len() implies #[trigger] y[i] != '\n' by {
        assert(y[i] == z[a + i]);
    }
    if suffix.len() > 0 {
        lemma_piece_has_no_occurrence(w, suffix, a, b);
    }
}

/// Cleaning leaves its own result as it is exactly when that result is
/// settled: where it still begins or ends with a backtick or a quote, or
/// still begins with the prefix, a second pass takes more off.
pub proof fn lemma_sanitize_idempotent(raw: Seq<char>, prefix: Seq<char>, suffix: Seq<char>)
    ensures
        settled(sanitized(raw, prefix, suffix), prefix) <==> sanitized(
            sanitized(raw, prefix, suffix),
            prefix,
            suffix,
        ) == sanitized(raw, prefix, suffix),
{
    let y = sanitized(raw, prefix, suffix);
    let space = CharClass::Whitespace;
    let tick = CharClass::Only('`');
    let quote = CharClass::Only('"');
    lemma_finished(unquoted(raw), prefix, suffix);
    lemma_strip_noop(y, space);
    lemma_run_zero(y, tick);
    lemma_run_zero(y, quote);
    let t2 = strip(y, tick);
    let t3 = strip(t2, quote);
    let u = unquoted(y);
    assert(u == trim(t3));
    lemma_strip_is_clean(y, tick);
    lemma_strip_is_clean(t2, quote);
    lemma_strip_is_clean(t3, space);
    lemma_finished(u, prefix, suffix);
    if settled(y, prefix) {
        lemma_strip_noop(y, tick);
        lemma_strip_noop(y, quote);
        assert(u == y);
        if prefix.len() == 0 {
            assert(y.skip(0) =~= y);
        }
        assert(without_echo(y, prefix) == y);
        assert(cut_at_suffix(y, suffix) == y);
        lemma_first_line(y);
        assert(finished(y, prefix, suffix) == y);
    } else {
        if y.len() > 0 && (y[0] == '`' || y.last() == '`') {
            lemma_strip_shortens(y, tick);
        } else if y.len() > 0 && (y[0] == '"' || y.last() == '"') {
            lemma_strip_noop(y, tick);
            lemma_strip_shortens(y, quote);
        } else {
            lemma_strip_noop(y, tick);
            lemma_strip_noop(y, quote);
            assert(u == y);
        }
        assert(sanitized(y, prefix, suffix).len() < y.len());
    }
}

// ---------------------------------------------------------------------------
// The request to the host
// ---------------------------------------------------------------------------

/// The instruction that opens every conversation with the model.
pub open spec fn system_instruction() -> Seq<char> {
    "你是输入法补全模型。输出必须是纯补全文本。"@
}

/// The name of a language as the model is told it.
pub open spec fn language_name(language: Language) -> Seq<char> {
    match language {
        Language::Zh => "中文"@,
        Language::En => "English"@,
    }
}

/// The user's part of the conversation: a fill-in prompt where the mode is
/// fill-in and the suffix is not blank, a continuation prompt otherwise.
pub open spec fn chat_prompt(request: PredictRequestView, mode: PredictMode) -> Seq<char> {
    if mode == PredictMode::Fim && !blank(request.suffix) {
        "你是输入法幽灵补全引擎。仅输出需要插入中间的文本，不要解释，不要加引号。\n语言: "@
            + language_name(request.language) + "\n前文:\n"@ + request.prefix + "\n后文:\n"@
            + request.suffix + "\n中间补全:"@
    } else {
        "你是输入法幽灵补全引擎。仅输出接在末尾的连续文本，不要解释，不要加引号。\n语言: "@
            + language_name(request.language) + "\n当前文本:\n"@ + request.prefix + "\n续写:"@
    }
}

/// One turn of a conversation.
#[derive(Debug)]
pub struct OllamaMessage {
    pub role: String,
    pub content: String,
}

/// What is posted to the host, but for the sampling parameters, which the
/// program adds.
#[derive(Debug)]
pub struct OllamaChatRequest {
    /// The address to post to.
    pub endpoint: String,
    pub model: String,
    /// Always false: the answer is wanted whole.
    pub stream: bool,
    /// The system instruction and the user's prompt.
    pub messages: Vec<OllamaMessage>,
    /// The number of tokens to generate, at least one.
    pub num_predict: u32,
}

/// The engine.
#[derive(Debug)]
pub struct OllamaPredictor {
    base_url: String,
    model: String,
}

impl Clone for OllamaPredictor {
    fn clone(&self) -> (r: OllamaPredictor)
        ensures
            r.base_url() == self.base_url(),
            r.model() == self.model(),
    {
        OllamaPredictor { base_url: self.base_url.clone(), model: self.model.clone() }
    }
}

impl OllamaPredictor {
    /// The address of the host, without a trailing slash.
    pub closed spec fn base_url(self) -> Seq<char> {
        self.base_url@
    }

    /// The name of the model.
    pub closed spec fn model(self) -> Seq<char> {
        self.model@
    }

    /// Sets the engine up from the configuration. A blank model name and a
    /// blank host address are refused, in this order.
    pub fn new(config: ModelConfig) -> (r: Result<OllamaPredictor, EngineError>)
        ensures
            match r {
                Ok(p) => {
                    &&& !blank(config.ollama_model@)
                    &&& !blank(config.ollama_host@)
                    &&& p.model() == config.ollama_model@
                    &&& p.base_url() == strip_end(config.ollama_host@, CharClass::Only('/'))
                },
                Err(e) => {
                    &&& blank(config.ollama_model@) ==> e is MissingOllamaModel
                    &&& !blank(config.ollama_model@) ==> blank(config.ollama_host@)
                        && e is MissingOllamaHost
                },
            },
    {
        if is_blank(config.ollama_model.as_str()) {
            return Err(EngineError::MissingOllamaModel);
        }
        if is_blank(config.ollama_host.as_str()) {
            return Err(EngineError::MissingOllamaHost);
        }
        let host = to_chars(config.ollama_host.as_str());
        let base_url = from_chars(&strip_end_chars(&host, CharClass::Only('/')));
        Ok(OllamaPredictor { base_url, model: config.ollama_model })
    }

    /// The user's part of the conversation for a request.
    pub fn build_prompt(&self, request: &PredictRequest, mode: PredictMode) -> (s: String)
        ensures
            s@ == chat_prompt(request@, mode),
    {
        let language = match request.language {
            Language::Zh => "中文",
            Language::En => "English",
        };
        let fill_in = match mode {
            PredictMode::Fim => !is_blank(request.suffix.as_str()),
            PredictMode::Next => false,
        };
        if fill_in {
            let mut s =
                "你是输入法幽灵补全引擎。仅输出需要插入中间的文本，不要解释，不要加引号。\n语言: ".to_owned();
            s.append(language);
            s.append("\n前文:\n");
            s.append(request.prefix.as_str());
            s.append("\n后文:\n");
            s.append(request.suffix.as_str());
            s.append("\n中间补全:");
            s
        } else {
            let mut s =
                "你是输入法幽灵补全引擎。仅输出接在末尾的连续文本，不要解释，不要加引号。\n语言: ".to_owned();
            s.append(language);
            s.append("\n当前文本:\n");
            s.append(request.prefix.as_str());
            s.append("\n续写:");
            s
        }
    }

    /// What is posted to the host for a request.
    pub fn chat_request(&self, request: &PredictRequest, mode: PredictMode) -> (r:
        OllamaChatRequest)
        ensures
            r.endpoint@ == self.base_url() + "/api/chat"@,
            r.model@ == self.model(),
            !r.stream,
            r.messages@.len() == 2,
            r.messages@[0].role@ == "system"@,
            r.messages@[0].content@ == system_instruction(),
            r.messages@[1].role@ == "user"@,
            r.messages@[1].content@ == chat_prompt(request@, mode),
            r.num_predict == (if request.max_tokens < 1 {
                1
            } else {
                request.max_tokens
            }),
    {
        let mut endpoint = self.base_url.clone();
        endpoint.append("/api/chat");
        let mut messages: Vec<OllamaMessage> = Vec::new();
        messages.push(
            OllamaMessage {
                role: "system".to_owned(),
                content: "你是输入法补全模型。输出必须是纯补全文本。".to_owned(),
            },
        );
        messages.push(
            OllamaMessage { role: "user".to_owned(), content: self.build_prompt(request, mode) },
        );
        let num_predict: u32 = if request.max_tokens < 1 {
            1
        } else {
            request.max_tokens
        };
        OllamaChatRequest { endpoint, model: self.model.clone(), stream: false, messages, num_predict }
    }
}

/// The body of the host's reply, or the failure that its status reports.
pub fn accept_reply(success: bool, status: String, body: String) -> (r: Result<String, EngineError>)
    ensures
        match r {
            Ok(b) => success && b@ == body@,
            Err(e) => !success && e.text() == "ollama API failed ("@ + status@ + "): "@ + body@
                && e is ApiFailed,
        },
{
    if !success {
        return Err(EngineError::ApiFailed { status, body });
    }
    Ok(body)
}

/// The draft that an answer of the model makes for a request.
pub open spec fn reply_draft(content: Seq<char>, request: PredictRequestView, mode: PredictMode) -> PredictionDraftView {
    PredictionDraftView {
        ghost_text: sanitized(content, request.prefix, request.suffix),
        candidates: seq![sanitized(content, request.prefix, request.suffix)],
        confidence: Confidence { num: 71, den: 100 },
        source: local_source(mode),
    }
}

/// Makes a draft of the model's answer: the cleaned answer, alone among the
/// candidates, at confidence 0.71. An answer that cleans to nothing is an error.
pub fn draft_from_reply(content: &str, request: &PredictRequest, mode: PredictMode) -> (r: Result<
    PredictionDraft,
    EngineError,
>)
    ensures
        match r {
            Ok(d) => sanitized(content@, request.prefix@, request.suffix@).len() > 0 && d@
                == reply_draft(content@, request@, mode),
            Err(e) => sanitized(content@, request.prefix@, request.suffix@).len() == 0
                && e is EmptyOllamaPrediction,
        },
{
    let ghost_text = sanitize_output(content, request);
    if ghost_text.as_str().unicode_len() == 0 {
        return Err(EngineError::EmptyOllamaPrediction);
    }
    let mut candidates: Vec<String> = Vec::new();
    candidates.push(ghost_text.clone());
    let d = PredictionDraft {
        ghost_text,
        candidates,
        confidence: Confidence::percent(71),
        source: source_of_mode(mode),
    };
    assert(d@.candidates =~= reply_draft(content@, request@, mode).candidates);
    Ok(d)
}

} // verus!

//! The engine behind a local model runner: how the runner is invoked, and
//! what is made of its output. Running it is the program's part.

use crate::confidence::Confidence;
use crate::daemon::config::ModelConfig;
use crate::daemon::predictor::{EngineError, PredictionDraft, PredictionDraftView};
use crate::daemon::protocol::{
    local_source, source_of_mode, PredictMode, PredictRequest, PredictRequestView,
};
use crate::text::{
    blank, decimal, decimal_string, first_line, from_chars, is_blank, leading_len, strip_chars,
    subvec, to_chars, trim, CharClass,
};
use vstd::prelude::*;
use vstd::string::StringExecFns;

verus! {

/// The prompt for the runner: prefix and suffix between the fill-in marks,
/// or the prefix alone.
pub open spec fn runner_prompt(request: PredictRequestView, mode: PredictMode) -> Seq<char> {
    match mode {
        PredictMode::Fim => "<fim_prefix>"@ + request.prefix + "<fim_suffix>"@ + request.suffix
            + "<fim_middle>"@,
        PredictMode::Next => request.prefix,
    }
}

/// The first line of the runner's output, trimmed.
pub open spec fn output_text(raw: Seq<char>) -> Seq<char> {
    trim(first_line(raw))
}

/// The draft that the runner's output makes.
pub open spec fn output_draft(raw: Seq<char>, mode: PredictMode) -> PredictionDraftView {
    PredictionDraftView {
        ghost_text: output_text(raw),
        candidates: seq![output_text(raw)],
        confidence: Confidence { num: 66, den: 100 },
        source: local_source(mode),
    }
}

/// The engine.
#[derive(Debug)]
pub struct LlamaCppPredictor {
    model_path: String,
    cli_path: String,
    ctx_len: u32,
}

impl Clone for LlamaCppPredictor {
    fn clone(&self) -> (r: LlamaCppPredictor)
        ensures
            r.model_path() == self.model_path(),
            r.cli_path() == self.cli_path(),
            r.ctx_len() == self.ctx_len(),
    {
        LlamaCppPredictor {
            model_path: self.model_path.clone(),
            cli_path: self.cli_path.clone(),
            ctx_len: self.ctx_len,
        }
    }
}

impl LlamaCppPredictor {
    /// The model file.
    pub closed spec fn model_path(self) -> Seq<char> {
        self.model_path@
    }

    /// The runner.
    pub closed spec fn cli_path(self) -> Seq<char> {
        self.cli_path@
    }

    /// The length of the context that the runner is given.
    pub closed spec fn ctx_len(self) -> u32 {
        self.ctx_len
    }

    /// The arguments of the runner for a request.
    pub open spec fn arguments(
        self,
        request: PredictRequestView,
        mode: PredictMode,
        temperature: Seq<char>,
        top_p: Seq<char>,
    ) -> Seq<Seq<char>> {
        seq![
            "-m"@,
            self.model_path(),
            "-n"@,
            decimal(request.max_tokens as nat),
            "-c"@,
            decimal(self.ctx_len() as nat),
            "--temp"@,
            temperature,
            "--top-p"@,
            top_p,
            "-p"@,
            runner_prompt(request, mode),
            "--no-display-prompt"@,
        ]
    }

    /// Sets the engine up from the configuration. A blank model path is
    /// refused.
    pub fn new(config: ModelConfig) -> (r: Result<LlamaCppPredictor, EngineError>)
        ensures
            match r {
                Ok(p) => {
                    &&& !blank(config.model_path@)
                    &&& p.model_path() == config.model_path@
                    &&& p.cli_path() == config.llama_cli_path@
                    &&& p.ctx_len() == config.ctx_len
                },
                Err(e) => blank(config.model_path@) && e is MissingModelPath,
            },
    {
        if is_blank(config.model_path.as_str()) {
            return Err(EngineError::MissingModelPath);
        }
        Ok(
            LlamaCppPredictor {
                model_path: config.model_path,
                cli_path: config.llama_cli_path,
                ctx_len: config.ctx_len,
            },
        )
    }

    /// The program to run.
    pub fn program(&self) -> (s: String)
        ensures
            s@ == self.cli_path(),
    {
        self.cli_path.clone()
    }

    /// The prompt for a request.
    pub fn build_prompt(&self, request: &PredictRequest, mode: PredictMode) -> (s: String)
        ensures
            s@ == runner_prompt(request@, mode),
    {
        match mode {
            PredictMode::Fim => {
                let mut s = "<fim_prefix>".to_owned();
                s.append(request.prefix.as_str());
                s.append("<fim_suffix>");
                s.append(request.suffix.as_str());
                s.append("<fim_middle>");
                s
            },
            PredictMode::Next => request.prefix.clone(),
        }
    }

    /// The arguments of the runner for a request. The two sampling
    /// parameters are handed in as the text that goes on the command line.
    pub fn command_args(
        &self,
        request: &PredictRequest,
        mode: PredictMode,
        temperature: &str,
        top_p: &str,
    ) -> (args: Vec<String>)
        ensures
            crate::daemon::protocol::texts(args@) == self.arguments(
                request@,
                mode,
                temperature@,
                top_p@,
            ),
    {
        let mut args: Vec<String> = Vec::new();
        args.push("-m".to_owned());
        args.push(self.model_path.clone());
        args.push("-n".to_owned());
        args.push(decimal_string(request.max_tokens as u64));
        args.push("-c".to_owned());
        args.push(decimal_string(self.ctx_len as u64));
        args.push("--temp".to_owned());
        args.push(temperature.to_owned());
        args.push("--top-p".to_owned());
        args.push(top_p.to_owned());
        args.push("-p".to_owned());
        args.push(self.build_prompt(request, mode));
        args.push("--no-display-prompt".to_owned());
        assert(crate::daemon::protocol::texts(args@) =~= self.arguments(
            request@,
            mode,
            temperature@,
            top_p@,
        ));
        args
    }
}

/// The trimmed output of a run that succeeded, or the failure that its
/// status reports, with what the runner wrote to its error stream.
pub fn accept_output(success: bool, status: &str, stdout: &str, stderr: &str) -> (r: Result<
    String,
    EngineError,
>)
    ensures
        match r {
            Ok(out) => success && out@ == trim(stdout@),
            Err(e) => !success && e is CommandFailed && e.text() == "llama.cpp exited with "@
                + status@ + ": "@ + trim(stderr@),
        },
{
    if !success {
        let errors = from_chars(&strip_chars(&to_chars(stderr), CharClass::Whitespace));
        return Err(EngineError::CommandFailed { status: status.to_owned(), stderr: errors });
    }
    Ok(from_chars(&strip_chars(&to_chars(stdout), CharClass::Whitespace)))
}

/// Makes a draft of the runner's output: its first line, trimmed, alone
/// among the candidates, at confidence 0.66. An empty line is an error.
pub fn draft_from_output(raw: &str, mode: PredictMode) -> (r: Result<PredictionDraft, EngineError>)
    ensures
        match r {
            Ok(d) => output_text(raw@).len() > 0 && d@ == output_draft(raw@, mode),
            Err(e) => output_text(raw@).len() == 0 && e is EmptyLlamaPrediction,
        },
{
    let chars = to_chars(raw);
    let line_len = leading_len(&chars, CharClass::Except('\n'));
    let line = subvec(&chars, 0, line_len);
    let text = strip_chars(&line, CharClass::Whitespace);
    if text.len() == 0 {
        return Err(EngineError::EmptyLlamaPrediction);
    }
    let ghost_text = from_chars(&text);
    let mut candidates: Vec<String> = Vec::new();
    candidates.push(ghost_text.clone());
    let d = PredictionDraft {
        ghost_text,
        candidates,
        confidence: Confidence::percent(66),
        source: source_of_mode(mode),
    };
    assert(d@.candidates =~= output_draft(raw@, mode).candidates);
    Ok(d)
}

} // verus!

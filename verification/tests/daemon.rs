use aetherime::confidence::Confidence;
use aetherime::daemon::config::{
    DaemonConfig, DefaultMode, HotkeyConfig, ModelBackend, ModelConfig, PredictConfig,
    PrivacyConfig, ServerConfig, UiConfig,
};
use aetherime::daemon::predictor::cache::{CacheKey, PredictCache};
use aetherime::daemon::predictor::heuristic::HeuristicPredictor;
use aetherime::daemon::predictor::llamacpp::{accept_output, draft_from_output, LlamaCppPredictor};
use aetherime::daemon::predictor::ollama::{
    accept_reply, draft_from_reply, sanitize_output, OllamaPredictor,
};
use aetherime::daemon::predictor::{
    Backend, EngineError, PredictionDraft, PredictorEngine, PredictorRouter, RouteStep,
};
use aetherime::daemon::protocol::{
    DaemonRequest, ErrorCode, Language, PredictMode, PredictRequest, PredictResponse,
    PredictionSource, RequestBody, ResponseBody,
};
use aetherime::daemon::server::{
    conclude_request, effective_timeout_ms, frame_response, invalid_request, plan_line,
    plan_request, Connection, LineStep, RequestPlan,
};

fn make_request(prefix: &str, suffix: &str) -> PredictRequest {
    PredictRequest {
        prefix: prefix.to_string(),
        suffix: suffix.to_string(),
        language: Language::Zh,
        mode: PredictMode::Fim,
        max_tokens: 12,
        latency_budget_ms: 90,
    }
}

fn request(prefix: &str, suffix: &str, language: Language, mode: PredictMode) -> PredictRequest {
    PredictRequest {
        prefix: prefix.to_string(),
        suffix: suffix.to_string(),
        language,
        mode,
        max_tokens: 12,
        latency_budget_ms: 90,
    }
}

struct FailingEngine;

impl PredictorEngine for FailingEngine {
    fn predict(&self, _: &PredictRequest, _: PredictMode) -> Result<PredictionDraft, EngineError> {
        Err(EngineError::Transport("unreachable".to_string()))
    }
}

struct FixedEngine;

impl PredictorEngine for FixedEngine {
    fn predict(&self, _: &PredictRequest, mode: PredictMode) -> Result<PredictionDraft, EngineError> {
        draft_from_output("model says\nmore", mode)
    }
}

fn model_config(backend: ModelBackend) -> ModelConfig {
    ModelConfig { backend, ..ModelConfig::default() }
}

#[test]
fn trims_fim_reply() {
    let request = make_request("我今天", "很好");
    let output = sanitize_output("心情很好", &request);
    assert_eq!(output, "心情");
}

#[test]
fn removes_prefix_echo() {
    let request = make_request("你好", "");
    let output = sanitize_output("你好，今天过得怎么样", &request);
    assert_eq!(output, "，今天过得怎么样");
}

#[test]
fn predicts_zh_next_phrase() {
    let predictor = HeuristicPredictor::new();
    let request = PredictRequest {
        prefix: "你好".to_string(),
        suffix: String::new(),
        language: Language::Zh,
        mode: PredictMode::Next,
        max_tokens: 12,
        latency_budget_ms: 90,
    };

    let result = predictor.predict(&request, PredictMode::Next).unwrap();
    assert!(!result.ghost_text.is_empty());
    assert_eq!(result.source, PredictionSource::LocalNext);
}

#[test]
fn handles_ping() {
    let request = DaemonRequest { id: "1".to_string(), body: RequestBody::Ping };
    let RequestPlan::Reply(response) = plan_request(request, 100) else {
        panic!("a ping needs no prediction");
    };
    assert!(matches!(response.body, ResponseBody::Pong));
    assert_eq!(response.id, "1");
}

#[test]
fn handles_predict() {
    let mut predictor = PredictorRouter::new(ModelConfig::default(), PredictConfig::default());
    let request = DaemonRequest {
        id: "2".to_string(),
        body: RequestBody::Predict(PredictRequest {
            prefix: "你好".to_string(),
            suffix: String::new(),
            language: Language::Zh,
            mode: PredictMode::Next,
            max_tokens: 8,
            latency_budget_ms: 50,
        }),
    };

    let RequestPlan::Predict { id, request, timeout_ms } = plan_request(request, 100) else {
        panic!("a prediction was asked for");
    };
    assert_eq!(timeout_ms, 100);
    let prediction = predictor.predict(&FailingEngine, request);
    let response = conclude_request(id, Some(prediction), timeout_ms);
    assert_eq!(response.id, "2");
    match response.body {
        ResponseBody::Predict(prediction) => {
            assert!(!prediction.ghost_text.is_empty());
        }
        other => panic!("unexpected response: {other:?}"),
    }
}

#[test]
fn heuristic_continues_a_chinese_greeting() {
    let mut router = PredictorRouter::new(ModelConfig::default(), PredictConfig::default());
    let response =
        router.predict(&FailingEngine, request("你好", "", Language::Zh, PredictMode::Next));
    assert_eq!(response.ghost_text, "，很高兴见到你");
    assert_eq!(response.candidates, ["，很高兴见到你", "继续", "补充一下"]);
    assert_eq!(response.source, PredictionSource::LocalNext);
    assert_eq!(response.confidence, Confidence { num: 42, den: 100 });
}

#[test]
fn heuristic_fills_in_between_chinese_texts() {
    let mut router = PredictorRouter::new(ModelConfig::default(), PredictConfig::default());
    let response =
        router.predict(&FailingEngine, request("我", "吃饭", Language::Zh, PredictMode::Fim));
    assert_eq!(response.ghost_text, "们一起去");
    assert_eq!(response.candidates, ["们一起去"]);
    assert_eq!(response.source, PredictionSource::LocalFim);
    assert_eq!(response.confidence, Confidence { num: 38, den: 100 });
}

#[test]
fn heuristic_next_table_and_special_cases() {
    let h = HeuristicPredictor::new();
    let zh = |prefix: &str| h.predict_next(&request(prefix, "", Language::Zh, PredictMode::Next));
    assert_eq!(zh("今天").ghost_text, "天气不错");
    assert_eq!(zh("是的，我想").ghost_text, "要");
    assert_eq!(zh("我们 \n").ghost_text, "可以先");
    assert_eq!(zh("谢谢").ghost_text, "你的帮助");
    assert_eq!(zh("请问").ghost_text, "现在方便吗");
    assert_eq!(zh("我").ghost_text, "们");
    assert_eq!(zh("想").ghost_text, "要");
    assert_eq!(zh("我").candidates, ["们", "继续", "补充一下"]);
    // The special cases look at the untrimmed prefix.
    assert_eq!(zh("我 ").ghost_text, "");
    assert_eq!(zh("天").ghost_text, "");
    assert!(zh("天").candidates.is_empty());
    assert_eq!(zh("天").confidence, Confidence { num: 42, den: 100 });
    assert_eq!(zh("hello").ghost_text, "");
}

#[test]
fn heuristic_compares_english_in_lower_case() {
    let h = HeuristicPredictor::new();
    let en = |prefix: &str| h.predict_next(&request(prefix, "", Language::En, PredictMode::Next));
    assert_eq!(en("Hello").ghost_text, ", how are you");
    assert_eq!(en("well, THANK").ghost_text, " you");
    assert_eq!(en("let's").ghost_text, " start with");
    assert_eq!(en("Could").ghost_text, " you please");
    assert_eq!(en("please").ghost_text, " help me");
    assert_eq!(en("please").candidates, [" help me", " and", " with details"]);
    // The lowered text never ends with a capital letter.
    assert_eq!(en("I need").ghost_text, "");
    assert_eq!(en("hello ").ghost_text, "");
    assert_eq!(en("你好").ghost_text, "");
    let fixed = h.next_from(Language::En, "whatever", "i say hello");
    assert_eq!(fixed.ghost_text, ", how are you");
}

#[test]
fn heuristic_fim_patterns() {
    let h = HeuristicPredictor::new();
    let fim = |language, prefix: &str, suffix: &str| {
        h.predict_fim(&request(prefix, suffix, language, PredictMode::Fim))
    };
    assert_eq!(fim(Language::Zh, "今天", "很好").ghost_text, "心情");
    assert_eq!(fim(Language::Zh, "这个", "问题不大").ghost_text, "技术");
    assert_eq!(fim(Language::Zh, "那个", "问题").ghost_text, "先");
    assert_eq!(fim(Language::Zh, "那个", "问题").candidates, ["先"]);
    assert_eq!(fim(Language::En, "So WE", "Build it").ghost_text, " can");
    assert_eq!(fim(Language::En, "Please", "review").ghost_text, " quickly");
    let other = fim(Language::En, "we", "ship");
    assert_eq!(other.ghost_text, " ");
    assert!(other.candidates.is_empty());
    assert_eq!(other.confidence, Confidence { num: 38, den: 100 });
    assert_eq!(other.source, PredictionSource::LocalFim);
    let fixed = h.fim_from(Language::En, "x", "y", "we", "build");
    assert_eq!(fixed.ghost_text, " can");
}

#[test]
fn heuristic_engine_never_fails() {
    let h = HeuristicPredictor::new();
    for mode in [PredictMode::Next, PredictMode::Fim] {
        for language in [Language::Zh, Language::En] {
            for prefix in ["", " ", "你好", "hello"] {
                assert!(h.predict(&request(prefix, "", language, mode), mode).is_ok());
            }
        }
    }
}

#[test]
fn router_answers_a_blank_prefix_with_nothing() {
    let mut router = PredictorRouter::new(ModelConfig::default(), PredictConfig::default());
    for prefix in ["", "  ", "\n\t", "\u{3000}"] {
        let response =
            router.predict(&FixedEngine, request(prefix, "x", Language::Zh, PredictMode::Fim));
        assert_eq!(response.ghost_text, "");
        assert!(response.candidates.is_empty());
        assert_eq!(response.confidence, Confidence { num: 0, den: 1 });
        assert_eq!(response.source, PredictionSource::LocalNext);
        assert_eq!(response.elapsed_ms, 0);
    }
}

#[test]
fn router_that_is_switched_off_answers_with_nothing() {
    let predict = PredictConfig { enable: false, ..PredictConfig::default() };
    let mut router = PredictorRouter::new(ModelConfig::default(), predict);
    let response = router.predict(&FixedEngine, request("你好", "", Language::Zh, PredictMode::Next));
    assert_eq!(response.ghost_text, "");
    assert!(response.candidates.is_empty());
    assert_eq!(response.source, PredictionSource::LocalNext);
    assert_eq!(response.elapsed_ms, 0);
}

#[test]
fn fill_in_without_suffix_is_served_as_continuation() {
    for mode in [DefaultMode::Fim, DefaultMode::Next] {
        let model = ModelConfig { mode, ..ModelConfig::default() };
        let router = PredictorRouter::new(model, PredictConfig::default());
        for suffix in ["", "  ", "\n"] {
            let asked = request("你好", suffix, Language::Zh, PredictMode::Fim);
            assert_eq!(router.resolve_mode(&asked), PredictMode::Next);
            let RouteStep::Invoke { mode, .. } = router.route(asked) else {
                panic!("nothing is cached yet");
            };
            assert_eq!(mode, PredictMode::Next);
        }
        let asked = request("我", "吃饭", Language::Zh, PredictMode::Fim);
        assert_eq!(router.resolve_mode(&asked), PredictMode::Fim);
        let asked = request("我", "吃饭", Language::Zh, PredictMode::Next);
        assert_eq!(router.resolve_mode(&asked), PredictMode::Next);
    }
}

#[test]
fn route_fills_in_the_defaults() {
    let router = PredictorRouter::new(ModelConfig::default(), PredictConfig::default());
    let mut asked = request("你好", "", Language::Zh, PredictMode::Next);
    asked.max_tokens = 0;
    asked.latency_budget_ms = 0;
    let RouteStep::Invoke { request, .. } = router.route(asked) else {
        panic!("nothing is cached yet");
    };
    assert_eq!(request.max_tokens, 12);
    assert_eq!(request.latency_budget_ms, 90);
    let kept = make_request("a", "b");
    let mut changed = make_request("a", "b");
    changed.max_tokens = 3;
    changed.latency_budget_ms = 7;
    let changed = changed.normalized();
    assert_eq!((changed.max_tokens, changed.latency_budget_ms), (3, 7));
    let kept = kept.normalized();
    assert_eq!((kept.prefix.as_str(), kept.suffix.as_str()), ("a", "b"));
}

#[test]
fn cache_hit_repeats_the_fresh_response() {
    let mut router = PredictorRouter::new(ModelConfig::default(), PredictConfig::default());
    let asked = request("你好", "", Language::Zh, PredictMode::Next);
    let RouteStep::Invoke { request: normal, mode } = router.route(asked.clone()) else {
        panic!("nothing is cached yet");
    };
    let outcome = HeuristicPredictor::new().predict(&normal, mode);
    let fresh = router.settle(&normal, mode, outcome, 17);
    assert_eq!(fresh.elapsed_ms, 17);
    let RouteStep::Respond(hit) = router.route(asked.clone()) else {
        panic!("the prediction was cached");
    };
    assert_eq!(hit.ghost_text, fresh.ghost_text);
    assert_eq!(hit.candidates, fresh.candidates);
    assert_eq!(hit.confidence, fresh.confidence);
    assert_eq!(hit.source, fresh.source);
    assert_eq!(hit.elapsed_ms, 17);
    // A fill-in without suffix shares the entry of the continuation.
    let as_fim = request("你好", "", Language::Zh, PredictMode::Fim);
    assert!(matches!(router.route(as_fim), RouteStep::Respond(_)));
    let other_tokens = PredictRequest { max_tokens: 5, ..asked };
    assert!(matches!(router.route(other_tokens), RouteStep::Invoke { .. }));
}

#[test]
fn router_without_cache_asks_every_time() {
    let predict = PredictConfig { cache_capacity: 0, ..PredictConfig::default() };
    let mut router = PredictorRouter::new(ModelConfig::default(), predict);
    let asked = request("你好", "", Language::Zh, PredictMode::Next);
    router.predict(&FailingEngine, asked.clone());
    assert!(matches!(router.route(asked), RouteStep::Invoke { .. }));
}

#[test]
fn router_falls_back_on_the_heuristic() {
    let model = ModelConfig {
        model_path: "/models/m.gguf".to_string(),
        ..model_config(ModelBackend::Llamacpp)
    };
    let mut router = PredictorRouter::new(model, PredictConfig::default());
    assert!(matches!(router.primary(), Backend::Llamacpp(_)));
    let response =
        router.predict(&FailingEngine, request("你好", "", Language::Zh, PredictMode::Next));
    assert_eq!(response.ghost_text, "，很高兴见到你");
    assert_eq!(response.confidence, Confidence { num: 42, den: 100 });
    let response =
        router.predict(&FixedEngine, request("今天", "", Language::Zh, PredictMode::Next));
    assert_eq!(response.ghost_text, "model says");
    assert_eq!(response.candidates, ["model says"]);
    assert_eq!(response.confidence, Confidence { num: 66, den: 100 });
    assert_eq!(response.source, PredictionSource::LocalNext);
}

#[test]
fn settle_takes_the_draft_of_the_first_engine() {
    let mut router = PredictorRouter::new(ModelConfig::default(), PredictConfig::default());
    let asked = request("我", "吃饭", Language::Zh, PredictMode::Fim);
    let draft = draft_from_reply("`们`", &asked, PredictMode::Fim).unwrap();
    let response = router.settle(&asked, PredictMode::Fim, Ok(draft), 5);
    assert_eq!(response.ghost_text, "们");
    assert_eq!(response.confidence, Confidence { num: 71, den: 100 });
    assert_eq!(response.source, PredictionSource::LocalFim);
    assert_eq!(response.elapsed_ms, 5);
}

#[test]
fn router_demotes_an_engine_that_cannot_be_set_up() {
    let kinds = |model: ModelConfig| {
        let router = PredictorRouter::new(model, PredictConfig::default());
        match router.primary() {
            Backend::Heuristic => ModelBackend::Heuristic,
            Backend::Llamacpp(_) => ModelBackend::Llamacpp,
            Backend::Ollama(_) => ModelBackend::Ollama,
        }
    };
    assert_eq!(kinds(ModelConfig::default()), ModelBackend::Heuristic);
    assert_eq!(kinds(model_config(ModelBackend::Llamacpp)), ModelBackend::Heuristic);
    assert_eq!(kinds(model_config(ModelBackend::Ollama)), ModelBackend::Heuristic);
    let with_path =
        ModelConfig { model_path: "m.gguf".to_string(), ..model_config(ModelBackend::Llamacpp) };
    assert_eq!(kinds(with_path), ModelBackend::Llamacpp);
    let with_model =
        ModelConfig { ollama_model: "qwen".to_string(), ..model_config(ModelBackend::Ollama) };
    assert_eq!(kinds(with_model), ModelBackend::Ollama);
    let without_host = ModelConfig {
        ollama_model: "qwen".to_string(),
        ollama_host: " ".to_string(),
        ..model_config(ModelBackend::Ollama)
    };
    assert_eq!(kinds(without_host), ModelBackend::Heuristic);
}

fn key(prefix: &str) -> CacheKey {
    CacheKey {
        prefix: prefix.to_string(),
        suffix: String::new(),
        language: Language::Zh,
        mode: PredictMode::Next,
        max_tokens: 12,
    }
}

fn value(text: &str) -> PredictResponse {
    PredictResponse {
        ghost_text: text.to_string(),
        candidates: vec![text.to_string()],
        confidence: Confidence { num: 1, den: 2 },
        source: PredictionSource::Cloud,
        elapsed_ms: 3,
    }
}

fn cached(cache: &PredictCache, prefix: &str) -> Option<String> {
    cache.get(&key(prefix)).map(|v| v.ghost_text)
}

#[test]
fn cache_holds_no_more_than_its_capacity() {
    for capacity in 1..5usize {
        let mut cache = PredictCache::new(capacity);
        for i in 0..20 {
            let name = format!("k{}", i % 7);
            cache.insert(key(&name), value(&name));
            assert!(cache.len() <= capacity);
            assert_eq!(cached(&cache, &name), Some(name));
        }
    }
}

#[test]
fn cache_evicts_the_oldest_key() {
    let mut cache = PredictCache::new(2);
    cache.insert(key("a"), value("1"));
    cache.insert(key("b"), value("2"));
    assert_eq!(cached(&cache, "a"), Some("1".to_string()));
    cache.insert(key("c"), value("3"));
    assert_eq!(cached(&cache, "a"), None);
    assert_eq!(cached(&cache, "b"), Some("2".to_string()));
    assert_eq!(cached(&cache, "c"), Some("3".to_string()));
    assert_eq!(cache.len(), 2);
}

#[test]
fn cache_entry_survives_fewer_new_keys_than_the_capacity() {
    let mut cache = PredictCache::new(3);
    cache.insert(key("x"), value("0"));
    cache.insert(key("y"), value("0"));
    cache.insert(key("k"), value("v"));
    for _ in 0..5 {
        cache.insert(key("a"), value("1"));
        cache.insert(key("b"), value("2"));
    }
    assert_eq!(cached(&cache, "k"), Some("v".to_string()));
    cache.insert(key("c"), value("3"));
    assert_eq!(cached(&cache, "k"), None);
}

#[test]
fn cache_overwrite_keeps_the_place_in_the_queue() {
    let mut cache = PredictCache::new(2);
    cache.insert(key("a"), value("1"));
    cache.insert(key("b"), value("2"));
    cache.insert(key("a"), value("new"));
    assert_eq!(cached(&cache, "a"), Some("new".to_string()));
    assert_eq!(cache.len(), 2);
    // "a" is still the oldest key and is the one to go.
    cache.insert(key("c"), value("3"));
    assert_eq!(cached(&cache, "a"), None);
    assert_eq!(cached(&cache, "b"), Some("2".to_string()));
}

#[test]
fn cache_of_capacity_zero_stores_nothing() {
    let mut cache = PredictCache::new(0);
    cache.insert(key("a"), value("1"));
    assert_eq!(cache.len(), 0);
    assert_eq!(cached(&cache, "a"), None);
}

#[test]
fn cache_tells_keys_apart_by_every_field() {
    let mut cache = PredictCache::new(8);
    cache.insert(key("a"), value("1"));
    assert!(cache.get(&CacheKey { suffix: "s".to_string(), ..key("a") }).is_none());
    assert!(cache.get(&CacheKey { language: Language::En, ..key("a") }).is_none());
    assert!(cache.get(&CacheKey { mode: PredictMode::Fim, ..key("a") }).is_none());
    assert!(cache.get(&CacheKey { max_tokens: 1, ..key("a") }).is_none());
    assert!(key("a").same(&key("a")));
    assert!(!key("a").same(&key("b")));
    let got = cache.get(&key("a")).unwrap();
    assert_eq!(got.candidates, ["1"]);
    assert_eq!(got.source, PredictionSource::Cloud);
    assert_eq!(got.elapsed_ms, 3);
}

#[test]
fn sanitize_steps() {
    let clean = |raw: &str, prefix: &str, suffix: &str| sanitize_output(raw, &make_request(prefix, suffix));
    assert_eq!(clean("  `\"hi\"`  ", "", ""), "hi");
    assert_eq!(clean("```hi```", "", ""), "hi");
    assert_eq!(clean("\"` hi `\"", "", ""), "` hi `");
    assert_eq!(clean("first\nsecond", "", ""), "first");
    assert_eq!(clean("\nsecond", "", ""), "second");
    assert_eq!(clean("a b  \nc", "", ""), "a b");
    assert_eq!(clean("abcabc", "", "ca"), "ab");
    assert_eq!(clean("abc", "", "abc"), "");
    assert_eq!(clean("abc", "abc", ""), "");
    assert_eq!(clean("ab", "abc", ""), "ab");
    assert_eq!(clean("x abc", "abc", ""), "x abc");
    assert_eq!(clean("abc  def", "abc", "zzz"), "def");
    assert_eq!(clean("", "", ""), "");
    assert_eq!(clean("   ", "a", "b"), "");
}

#[test]
fn sanitize_is_idempotent_on_settled_output() {
    for (raw, prefix, suffix) in [
        ("心情很好", "我今天", "很好"),
        ("你好，今天过得怎么样", "你好", ""),
        ("  `answer \n more`", "question", "zz"),
        ("", "a", "b"),
    ] {
        let request = make_request(prefix, suffix);
        let once = sanitize_output(raw, &request);
        assert_eq!(sanitize_output(&once, &request), once);
    }
    // An echo that is repeated, or quotes inside backticks, take a second pass.
    let request = make_request("a", "");
    assert_eq!(sanitize_output("aab", &request), "ab");
    assert_eq!(sanitize_output("ab", &request), "b");
    let request = make_request("", "");
    assert_eq!(sanitize_output("`answer` \n more", &request), "answer`");
    assert_eq!(sanitize_output("answer`", &request), "answer");
    assert_eq!(sanitize_output("\"`hi`\"", &request), "`hi`");
    assert_eq!(sanitize_output("`hi`", &request), "hi");
}

#[test]
fn ollama_setup_and_request() {
    let config = |model: &str, host: &str| ModelConfig {
        ollama_model: model.to_string(),
        ollama_host: host.to_string(),
        ..model_config(ModelBackend::Ollama)
    };
    let error = OllamaPredictor::new(config(" ", "http://h")).unwrap_err();
    assert!(matches!(error, EngineError::MissingOllamaModel));
    assert_eq!(error.message(), "model.backend is ollama but model.ollama_model is empty");
    let error = OllamaPredictor::new(config("", "")).unwrap_err();
    assert!(matches!(error, EngineError::MissingOllamaModel));
    let error = OllamaPredictor::new(config("qwen", "\t")).unwrap_err();
    assert!(matches!(error, EngineError::MissingOllamaHost));
    assert_eq!(error.message(), "model.backend is ollama but model.ollama_host is empty");

    let engine = OllamaPredictor::new(config("qwen", "http://127.0.0.1:11434//")).unwrap();
    let mut asked = request("你好", "世界", Language::Zh, PredictMode::Fim);
    asked.max_tokens = 0;
    let body = engine.chat_request(&asked, PredictMode::Fim);
    assert_eq!(body.endpoint, "http://127.0.0.1:11434/api/chat");
    assert_eq!(body.model, "qwen");
    assert!(!body.stream);
    assert_eq!(body.num_predict, 1);
    assert_eq!(body.messages.len(), 2);
    assert_eq!(body.messages[0].role, "system");
    assert_eq!(body.messages[0].content, "你是输入法补全模型。输出必须是纯补全文本。");
    assert_eq!(body.messages[1].role, "user");
    assert_eq!(
        body.messages[1].content,
        "你是输入法幽灵补全引擎。仅输出需要插入中间的文本，不要解释，不要加引号。\n语言: 中文\n前文:\n你好\n后文:\n世界\n中间补全:"
    );
    let next = "你是输入法幽灵补全引擎。仅输出接在末尾的连续文本，不要解释，不要加引号。\n语言: English\n当前文本:\nhi\n续写:";
    let asked = request("hi", "there", Language::En, PredictMode::Next);
    assert_eq!(engine.build_prompt(&asked, PredictMode::Next), next);
    let asked = request("hi", " ", Language::En, PredictMode::Fim);
    assert_eq!(engine.build_prompt(&asked, PredictMode::Fim), next);
    assert_eq!(engine.chat_request(&asked, PredictMode::Fim).num_predict, 12);
}

#[test]
fn ollama_reply() {
    assert_eq!(accept_reply(true, "200 OK".to_string(), "{}".to_string()).unwrap(), "{}");
    let error = accept_reply(false, "500 Internal Server Error".to_string(), "boom".to_string())
        .unwrap_err();
    assert!(matches!(error, EngineError::ApiFailed { .. }));
    assert_eq!(error.message(), "ollama API failed (500 Internal Server Error): boom");

    let asked = make_request("我今天", "很好");
    let draft = draft_from_reply(" \"心情很好\" ", &asked, PredictMode::Fim).unwrap();
    assert_eq!(draft.ghost_text, "心情");
    assert_eq!(draft.candidates, ["心情"]);
    assert_eq!(draft.confidence, Confidence { num: 71, den: 100 });
    assert_eq!(draft.source, PredictionSource::LocalFim);
    let draft = draft_from_reply("x", &asked, PredictMode::Next).unwrap();
    assert_eq!(draft.source, PredictionSource::LocalNext);
    let error = draft_from_reply("很好", &asked, PredictMode::Fim).unwrap_err();
    assert!(matches!(error, EngineError::EmptyOllamaPrediction));
    assert_eq!(error.message(), "ollama returned empty prediction");
}

#[test]
fn llama_setup_and_invocation() {
    let error = LlamaCppPredictor::new(model_config(ModelBackend::Llamacpp)).unwrap_err();
    assert!(matches!(error, EngineError::MissingModelPath));
    assert_eq!(error.message(), "model.backend is llamacpp but model.model_path is empty");

    let config = ModelConfig {
        model_path: "/m/q.gguf".to_string(),
        ctx_len: 2048,
        ..model_config(ModelBackend::Llamacpp)
    };
    let engine = LlamaCppPredictor::new(config).unwrap();
    assert_eq!(engine.program(), "llama-cli");
    let asked = request("前", "后", Language::Zh, PredictMode::Fim);
    assert_eq!(
        engine.build_prompt(&asked, PredictMode::Fim),
        "<fim_prefix>前<fim_suffix>后<fim_middle>"
    );
    assert_eq!(engine.build_prompt(&asked, PredictMode::Next), "前");
    assert_eq!(
        engine.command_args(&asked, PredictMode::Next, "0.2", "0.9"),
        [
            "-m",
            "/m/q.gguf",
            "-n",
            "12",
            "-c",
            "2048",
            "--temp",
            "0.2",
            "--top-p",
            "0.9",
            "-p",
            "前",
            "--no-display-prompt"
        ]
    );
}

#[test]
fn llama_output() {
    assert_eq!(accept_output(true, "exit status: 0", " text \n", "noise").unwrap(), "text");
    let error = accept_output(false, "exit status: 1", "text", " no model\n").unwrap_err();
    assert!(matches!(error, EngineError::CommandFailed { .. }));
    assert_eq!(error.message(), "llama.cpp exited with exit status: 1: no model");

    let draft = draft_from_output("  first line \r\nsecond", PredictMode::Fim).unwrap();
    assert_eq!(draft.ghost_text, "first line");
    assert_eq!(draft.candidates, ["first line"]);
    assert_eq!(draft.confidence, Confidence { num: 66, den: 100 });
    assert_eq!(draft.source, PredictionSource::LocalFim);
    for raw in ["", "  ", "\nsecond", " \r\nsecond"] {
        let error = draft_from_output(raw, PredictMode::Next).unwrap_err();
        assert!(matches!(error, EngineError::EmptyLlamaPrediction));
        assert_eq!(error.message(), "llama.cpp returned empty prediction");
    }
    for raw in ["a\nb", "  a  ", "a\r\nb", "\u{3000}a\n"] {
        let expected = raw.lines().next().unwrap_or("").trim();
        assert_eq!(draft_from_output(raw, PredictMode::Next).unwrap().ghost_text, expected);
    }
    let error = EngineError::Transport("llama.cpp command timed out".to_string());
    assert_eq!(error.message(), "llama.cpp command timed out");
}

#[test]
fn timeouts() {
    assert_eq!(effective_timeout_ms(120, 90), 120);
    assert_eq!(effective_timeout_ms(120, 500), 500);
    assert_eq!(effective_timeout_ms(0, 0), 1);
    assert_eq!(effective_timeout_ms(0, 1), 1);
    assert_eq!(effective_timeout_ms(u64::MAX, 3), u64::MAX);
    let response = conclude_request("7".to_string(), None, 120);
    assert_eq!(response.id, "7");
    let ResponseBody::Error(error) = response.body else {
        panic!("a timeout is an error");
    };
    assert_eq!(error.code, ErrorCode::Timeout);
    assert_eq!(error.message, "prediction exceeded 120ms");
}

#[test]
fn lines_that_are_no_requests() {
    let response = invalid_request("expected value at line 1 column 1");
    assert_eq!(response.id, "");
    let ResponseBody::Error(error) = response.body else {
        panic!("an invalid line is an error");
    };
    assert_eq!(error.code, ErrorCode::InvalidRequest);
    assert_eq!(error.message, "invalid JSON payload: expected value at line 1 column 1");
    assert!(matches!(
        plan_line(Err("eof".to_string()), 100),
        RequestPlan::Reply(r) if r.id.is_empty()
    ));
    let ping = DaemonRequest { id: "9".to_string(), body: RequestBody::Ping };
    assert!(matches!(plan_line(Ok(ping), 100), RequestPlan::Reply(r) if r.id == "9"));
    let ask = DaemonRequest {
        id: "p".to_string(),
        body: RequestBody::Predict(PredictRequest { latency_budget_ms: 300, ..make_request("a", "") }),
    };
    let RequestPlan::Predict { id, request, timeout_ms } = plan_line(Ok(ask), 100) else {
        panic!("a prediction was asked for");
    };
    assert_eq!((id.as_str(), request.prefix.as_str(), timeout_ms), ("p", "a", 300));
    assert_ne!(ErrorCode::Internal, ErrorCode::Timeout);
}

#[test]
fn responses_end_with_a_line_feed() {
    assert_eq!(frame_response("{\"id\":\"1\"}"), "{\"id\":\"1\"}\n");
    assert_eq!(frame_response(""), "\n");
}

#[test]
fn configuration_defaults() {
    let config = DaemonConfig::default();
    assert_eq!(config.server.socket_path, "/tmp/aetherime.sock");
    assert_eq!(config.server.request_timeout_ms, 120);
    assert!(config.predict.enable);
    assert_eq!(config.predict.trigger_delay_ms, 35);
    assert_eq!(config.predict.max_tokens, 12);
    assert_eq!(config.predict.cache_capacity, 512);
    assert_eq!(config.model.backend, ModelBackend::Heuristic);
    assert_eq!(config.model.mode, DefaultMode::Fim);
    assert_eq!(config.model.model_path, "");
    assert_eq!(config.model.ollama_host, "http://127.0.0.1:11434");
    assert_eq!(config.model.ollama_model, "");
    assert_eq!(config.model.ctx_len, 1024);
    assert_eq!(config.model.llama_cli_path, "llama-cli");
    assert!(config.privacy.local_only);
    assert_eq!(config.privacy.cloud_endpoint, "");
    assert_eq!(config.ui.theme, "deep-ocean");
    assert_eq!(config.hotkey.accept, "Tab");
    assert_eq!(config.hotkey.toggle_predict, "Ctrl+;");
    assert_eq!(ServerConfig::default().request_timeout_ms, 120);
    assert!(PrivacyConfig::default().local_only);
    assert_eq!(UiConfig::default().theme, "deep-ocean");
    assert_eq!(HotkeyConfig::default().accept, "Tab");
    assert_eq!(Language::default(), Language::Zh);
    assert_eq!(PredictMode::default(), PredictMode::Fim);
}

#[test]
fn empty_response() {
    let response = PredictResponse::empty(PredictionSource::LocalFim, 9);
    assert_eq!(response.ghost_text, "");
    assert!(response.candidates.is_empty());
    assert_eq!(response.confidence, Confidence { num: 0, den: 1 });
    assert_eq!(response.source, PredictionSource::LocalFim);
    assert_eq!(response.elapsed_ms, 9);
}

fn clean_with_std(raw: &str, prefix: &str, suffix: &str) -> String {
    let mut text = raw.trim().to_string();
    text = text.trim_matches('`').trim_matches('"').trim().to_string();
    if text.starts_with(prefix) {
        text = text[prefix.len()..].to_string();
    }
    if !suffix.is_empty() {
        if let Some(position) = text.find(suffix) {
            text.truncate(position);
        }
    }
    if let Some(position) = text.find('\n') {
        text.truncate(position);
    }
    text.trim().to_string()
}

#[test]
fn sanitize_agrees_with_the_string_methods_of_std() {
    let alphabet = ['a', '心', '`', '"', ' ', '\n'];
    let mut inputs = vec![String::new()];
    let mut last = vec![String::new()];
    for _ in 0..5 {
        let mut next = Vec::new();
        for text in &last {
            for c in alphabet {
                let mut longer = text.clone();
                longer.push(c);
                next.push(longer);
            }
        }
        inputs.extend(next.iter().cloned());
        last = next;
    }
    for (prefix, suffix) in [("", ""), ("a", ""), ("", "a"), ("a心", "心a"), ("`", " "), ("心", "\n")] {
        let request = make_request(prefix, suffix);
        for raw in &inputs {
            let cleaned = sanitize_output(raw, &request);
            assert_eq!(cleaned, clean_with_std(raw, prefix, suffix), "{raw:?} {prefix:?} {suffix:?}");
            let settled = !(cleaned.starts_with(['`', '"']) || cleaned.ends_with(['`', '"']))
                && (prefix.is_empty() || !cleaned.starts_with(prefix));
            assert_eq!(sanitize_output(&cleaned, &request) == cleaned, settled);
        }
    }
}

#[test]
fn connection_answers_each_request_line_in_order() {
    let lines = ["", "first", "  ", "second", "\t", "\u{3000}", "third", ""];
    let mut connection = Connection::new();
    let mut wire = String::new();
    let mut answered = Vec::new();
    for line in lines {
        connection = match connection.take_line(line) {
            LineStep::Skip(connection) => {
                assert!(line.trim().is_empty());
                connection
            }
            LineStep::Answer(pending) => {
                assert!(!line.trim().is_empty());
                answered.push(line);
                let (connection, framed) = pending.respond(&format!("answer to {line}"));
                assert_eq!(framed, format!("answer to {line}\n"));
                wire.push_str(&framed);
                connection
            }
        };
    }
    assert_eq!(answered, ["first", "second", "third"]);
    assert_eq!(wire, "answer to first\nanswer to second\nanswer to third\n");
    assert_eq!(wire.lines().count(), answered.len());
}

#[test]
fn connection_without_request_lines_writes_nothing() {
    let mut connection = Connection::new();
    for line in ["", " ", "\n"] {
        connection = match connection.take_line(line) {
            LineStep::Skip(connection) => connection,
            LineStep::Answer(_) => panic!("a blank line is no request"),
        };
    }
    assert!(matches!(connection.take_line("{}"), LineStep::Answer(_)));
}

//! The configuration records of the daemon and their defaults.
//!
//! Reading a configuration file is left to the program; the numeric sampling
//! parameters of a model stay with it too.

use vstd::prelude::*;

verus! {

/// Which engine makes the predictions.
#[derive(Clone, Copy, Debug, PartialEq, Eq, Structural)]
pub enum ModelBackend {
    Heuristic,
    Llamacpp,
    Ollama,
}

/// The prediction mode that the configuration prefers.
#[derive(Clone, Copy, Debug, PartialEq, Eq, Structural)]
pub enum DefaultMode {
    Next,
    Fim,
}

/// Where the daemon listens and how long a request may take.
#[derive(Debug)]
pub struct ServerConfig {
    pub socket_path: String,
    pub request_timeout_ms: u64,
}

/// Whether and how predictions are made.
#[derive(Clone, Copy, Debug)]
pub struct PredictConfig {
    pub enable: bool,
    pub trigger_delay_ms: u64,
    pub max_tokens: u32,
    pub cache_capacity: usize,
}

/// The model behind the predictions.
#[derive(Debug)]
pub struct ModelConfig {
    pub backend: ModelBackend,
    pub mode: DefaultMode,
    pub model_path: String,
    pub ollama_host: String,
    pub ollama_model: String,
    pub ctx_len: u32,
    pub llama_cli_path: String,
}

/// What may leave the machine.
#[derive(Debug)]
pub struct PrivacyConfig {
    pub local_only: bool,
    pub cloud_endpoint: String,
}

/// The look of the front end.
#[derive(Debug)]
pub struct UiConfig {
    pub theme: String,
}

/// The keys of the front end.
#[derive(Debug)]
pub struct HotkeyConfig {
    pub accept: String,
    pub toggle_predict: String,
}

/// The whole configuration.
#[derive(Debug)]
pub struct DaemonConfig {
    pub server: ServerConfig,
    pub predict: PredictConfig,
    pub model: ModelConfig,
    pub privacy: PrivacyConfig,
    pub ui: UiConfig,
    pub hotkey: HotkeyConfig,
}

/// The socket on which the daemon listens unless told otherwise.
pub fn default_socket_path() -> (s: String)
    ensures
        s@ == "/tmp/aetherime.sock"@,
{
    "/tmp/aetherime.sock".to_owned()
}

/// The time that the server allows a request: 120 milliseconds.
pub fn default_request_timeout_ms() -> (n: u64)
    ensures
        n == 120,
{
    120
}

/// Predictions are made unless switched off.
pub fn default_predict_enabled() -> (b: bool)
    ensures
        b,
{
    true
}

/// The pause before the front end asks: 35 milliseconds.
pub fn default_trigger_delay_ms() -> (n: u64)
    ensures
        n == 35,
{
    35
}

/// The number of tokens asked of a model: 12.
pub fn default_max_tokens() -> (n: u32)
    ensures
        n == 12,
{
    12
}

/// The number of predictions that are kept: 512.
pub fn default_cache_capacity() -> (n: usize)
    ensures
        n == 512,
{
    512
}

/// The engine that needs no model.
pub fn default_backend() -> (b: ModelBackend)
    ensures
        b == ModelBackend::Heuristic,
{
    ModelBackend::Heuristic
}

/// Fill-in is preferred.
pub fn default_mode() -> (m: DefaultMode)
    ensures
        m == DefaultMode::Fim,
{
    DefaultMode::Fim
}

/// The context length given to a local model: 1024.
pub fn default_ctx_len() -> (n: u32)
    ensures
        n == 1024,
{
    1024
}

/// The address of a model host on this machine.
pub fn default_ollama_host() -> (s: String)
    ensures
        s@ == "http://127.0.0.1:11434"@,
{
    "http://127.0.0.1:11434".to_owned()
}

/// The name of the local model runner.
pub fn default_llama_cli_path() -> (s: String)
    ensures
        s@ == "llama-cli"@,
{
    "llama-cli".to_owned()
}

/// Nothing leaves the machine unless allowed.
pub fn default_local_only() -> (b: bool)
    ensures
        b,
{
    true
}

/// The theme of the front end.
pub fn default_theme() -> (s: String)
    ensures
        s@ == "deep-ocean"@,
{
    "deep-ocean".to_owned()
}

/// The key that accepts a prediction.
pub fn default_accept_hotkey() -> (s: String)
    ensures
        s@ == "Tab"@,
{
    "Tab".to_owned()
}

/// The key that switches predictions on and off.
pub fn default_toggle_predict_hotkey() -> (s: String)
    ensures
        s@ == "Ctrl+;"@,
{
    "Ctrl+;".to_owned()
}

impl Default for ServerConfig {
    fn default() -> (c: ServerConfig)
        ensures
            c.socket_path@ == "/tmp/aetherime.sock"@,
            c.request_timeout_ms == 120,
    {
        ServerConfig {
            socket_path: default_socket_path(),
            request_timeout_ms: default_request_timeout_ms(),
        }
    }
}

impl Default for PredictConfig {
    fn default() -> (c: PredictConfig)
        ensures
            c.enable,
            c.trigger_delay_ms == 35,
            c.max_tokens == 12,
            c.cache_capacity == 512,
    {
        PredictConfig {
            enable: default_predict_enabled(),
            trigger_delay_ms: default_trigger_delay_ms(),
            max_tokens: default_max_tokens(),
            cache_capacity: default_cache_capacity(),
        }
    }
}

impl Default for ModelConfig {
    fn default() -> (c: ModelConfig)
        ensures
            c.backend == ModelBackend::Heuristic,
            c.mode == DefaultMode::Fim,
            c.model_path@.len() == 0,
            c.ollama_host@ == "http://127.0.0.1:11434"@,
            c.ollama_model@.len() == 0,
            c.ctx_len == 1024,
            c.llama_cli_path@ == "llama-cli"@,
    {
        ModelConfig {
            backend: default_backend(),
            mode: default_mode(),
            model_path: String::new(),
            ollama_host: default_ollama_host(),
            ollama_model: String::new(),
            ctx_len: default_ctx_len(),
            llama_cli_path: default_llama_cli_path(),
        }
    }
}

impl Default for PrivacyConfig {
    fn default() -> (c: PrivacyConfig)
        ensures
            c.local_only,
            c.cloud_endpoint@.len() == 0,
    {
        PrivacyConfig { local_only: default_local_only(), cloud_endpoint: String::new() }
    }
}

impl Default for UiConfig {
    fn default() -> (c: UiConfig)
        ensures
            c.theme@ == "deep-ocean"@,
    {
        UiConfig { theme: default_theme() }
    }
}

impl Default for HotkeyConfig {
    fn default() -> (c: HotkeyConfig)
        ensures
            c.accept@ == "Tab"@,
            c.toggle_predict@ == "Ctrl+;"@,
    {
        HotkeyConfig { accept: default_accept_hotkey(), toggle_predict: default_toggle_predict_hotkey() }
    }
}

impl Default for DaemonConfig {
    fn default() -> (c: DaemonConfig)
        ensures
            c.server.request_timeout_ms == 120,
            c.server.socket_path@ == "/tmp/aetherime.sock"@,
            c.predict.enable,
            c.predict.max_tokens == 12,
            c.predict.cache_capacity == 512,
            c.model.backend == ModelBackend::Heuristic,
            c.model.mode == DefaultMode::Fim,
            c.privacy.local_only,
    {
        DaemonConfig {
            server: ServerConfig::default(),
            predict: PredictConfig::default(),
            model: ModelConfig::default(),
            privacy: PrivacyConfig::default(),
            ui: UiConfig::default(),
            hotkey: HotkeyConfig::default(),
        }
    }
}

} // verus!

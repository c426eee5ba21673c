//! Configuration sections that the verified components read.
use vstd::prelude::*;

verus! {

#[derive(Debug, Clone)]
pub struct SystemConfig {
    pub log_level: String,
    pub hot_reload: bool,
}

/// Which events enter the pipeline.
#[derive(Debug)]
pub struct ScopeConfig {
    /// Glob patterns matched against the process binary name; empty means all.
    pub targets: Vec<String>,
    /// Glob patterns of processes that never enter the pipeline.
    pub exclude_processes: Vec<String>,
    /// K8s namespace glob patterns to include (K8s events only); empty means all.
    pub include_namespaces: Vec<String>,
    /// K8s namespace glob patterns to exclude; they take precedence.
    pub exclude_namespaces: Vec<String>,
    /// "key=value" label selectors that must all match (K8s events only).
    pub label_selectors: Vec<String>,
}

#[derive(Debug)]
pub struct AdapterConfig {
    pub backend: AdapterBackend,
    pub tetragon: TetragonConfig,
    pub falco: FalcoConfig,
    pub auditd: AuditdConfig,
}

#[derive(Debug, Clone, Copy, PartialEq, Eq, Structural)]
pub enum AdapterBackend {
    Tetragon,
    Falco,
    Auditd,
    NativeEbpf,
}

#[derive(Debug, Clone)]
pub struct TetragonConfig {
    pub endpoint: String,
}

#[derive(Debug, Clone)]
pub struct FalcoConfig {
    pub log_path: String,
}

#[derive(Debug, Clone)]
pub struct AuditdConfig {
    pub log_path: String,
}

#[derive(Debug, Clone)]
pub struct FastPathConfig {
    pub enabled: bool,
    pub rules_path: String,
    pub default_action: DefaultAction,
}

#[derive(Debug, Clone, Copy, PartialEq, Eq, Structural)]
pub enum DefaultAction {
    Block,
    Alert,
    Log,
}

#[derive(Debug, Clone)]
pub struct EmbedderConfig {
    pub backend: EmbedderBackend,
    pub model: String,
    pub api_key_env: String,
    /// Optional custom endpoint (e.g. an Ollama server).
    pub endpoint: Option<String>,
}

#[derive(Debug, Clone, Copy, PartialEq, Eq, Structural)]
pub enum EmbedderBackend {
    Local,
    Openai,
    Voyage,
    Gemini,
}

#[derive(Debug, Clone)]
pub struct VectorDbConfig {
    pub backend: VectorDbBackend,
    pub url: String,
    pub collection: String,
}

#[derive(Debug, Clone, Copy, PartialEq, Eq, Structural)]
pub enum VectorDbBackend {
    Qdrant,
    Usearch,
}

#[derive(Debug, Clone)]
pub struct AiAdvisorConfig {
    pub enabled: bool,
    pub api_key: String,
    /// Model name sent to the chat API; empty selects the default model.
    pub model: String,
    pub trigger_threshold: u32,
    pub cooldown_seconds: u64,
    pub context_window_size: usize,
    pub window_secs: u64,
}

impl Default for AiAdvisorConfig {
    fn default() -> (r: Self)
        ensures
            !r.enabled,
            r.api_key@.len() == 0,
            r.model@.len() == 0,
            r.trigger_threshold == 3,
            r.cooldown_seconds == 300,
            r.context_window_size == 20,
            r.window_secs == 60,
    {
        AiAdvisorConfig {
            enabled: false,
            api_key: String::new(),
            model: String::new(),
            trigger_threshold: 3,
            cooldown_seconds: 300,
            context_window_size: 20,
            window_secs: 60,
        }
    }
}

#[derive(Debug, Clone)]
pub struct TuiConfig {
    pub refresh_rate_ms: u64,
    pub theme: Theme,
}

#[derive(Debug, Clone, Copy, PartialEq, Eq, Structural)]
pub enum Theme {
    Dark,
    Light,
}

} // verus!

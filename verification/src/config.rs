//! Configuration: its sections, their defaults, and the paths derived from it.

use vstd::prelude::*;

use crate::error::CortexError;
use crate::paths::{home_dir, join, join_path};

verus! {

broadcast use vstd::string::group_string_axioms;

/// The whole configuration.
#[derive(Debug, Clone)]
pub struct CortexConfig {
    pub general: GeneralConfig,
    pub storage: StorageConfig,
    pub embedding: EmbeddingConfig,
    pub chunking: ChunkingConfig,
    pub api: ApiConfig,
    pub watch: WatchConfig,
}

/// General settings.
#[derive(Debug, Clone)]
pub struct GeneralConfig {
    pub log_level: String,
}

/// Where data is kept.
#[derive(Debug, Clone)]
pub struct StorageConfig {
    /// The data directory, as path text.
    pub data_dir: String,
}

/// The embedding model.
#[derive(Debug, Clone)]
pub struct EmbeddingConfig {
    pub model: String,
    pub batch_size: usize,
}

/// Chunk sizes, in tokens.
#[derive(Debug, Clone)]
pub struct ChunkingConfig {
    pub max_tokens: usize,
    pub overlap_tokens: usize,
}

/// The HTTP API.
#[derive(Debug, Clone)]
pub struct ApiConfig {
    pub tcp_port: Option<u16>,
}

/// What is watched and indexed.
#[derive(Debug, Clone)]
pub struct WatchConfig {
    /// Watched directories, as path text.
    pub paths: Vec<String>,
    /// Extensions of indexed files, each with its leading dot.
    pub extensions: Vec<String>,
    /// Paths containing one of these are ignored.
    pub ignore_patterns: Vec<String>,
}

// --- Defaults ---

/// The views of a vector of strings.
pub open spec fn strings_view(v: Seq<String>) -> Seq<Seq<char>> {
    v.map_values(|s: String| s@)
}

/// The default log level.
pub fn default_log_level() -> (r: String)
    ensures
        r@ == "info"@,
{
    "info".to_string()
}

/// The data directory for a home directory (`.` when there is none).
pub open spec fn data_dir_in(home: Option<Seq<char>>) -> Seq<char> {
    match home {
        Some(h) => join_path(h, ".cortex"@),
        None => join_path("."@, ".cortex"@),
    }
}

/// The data directory for the given home directory.
pub fn data_dir_for(home: Option<&str>) -> (r: String)
    ensures
        r@ == data_dir_in(
            match home {
                Some(h) => Some(h@),
                None => None,
            },
        ),
{
    match home {
        Some(h) => join(h, ".cortex"),
        None => join(".", ".cortex"),
    }
}

/// The default data directory: `.cortex` in the user's home directory.
pub fn default_data_dir() -> (r: String)
    ensures
        exists|home: Option<Seq<char>>| r@ == data_dir_in(home),
{
    match home_dir() {
        Some(h) => {
            let r = data_dir_for(Some(h.as_str()));
            assert(r@ == data_dir_in(Some(h@)));
            r
        },
        None => {
            let r = data_dir_for(None);
            assert(r@ == data_dir_in(None));
            r
        },
    }
}

/// The default embedding model.
pub fn default_model() -> (r: String)
    ensures
        r@ == "all-MiniLM-L6-v2"@,
{
    "all-MiniLM-L6-v2".to_string()
}

/// The default embedding batch size.
pub fn default_batch_size() -> (r: usize)
    ensures
        r == 32,
{
    32
}

/// The default chunk budget, in tokens.
pub fn default_max_tokens() -> (r: usize)
    ensures
        r == 256,
{
    256
}

/// The default chunk overlap, in tokens.
pub fn default_overlap_tokens() -> (r: usize)
    ensures
        r == 64,
{
    64
}

/// The extensions indexed by default.
pub open spec fn default_extension_list() -> Seq<Seq<char>> {
    seq![
        ".md"@,
        ".txt"@,
        ".rs"@,
        ".py"@,
        ".js"@,
        ".ts"@,
        ".go"@,
        ".toml"@,
        ".yaml"@,
        ".yml"@,
        ".json"@,
    ]
}

/// The ignore patterns used by default.
pub open spec fn default_ignore_list() -> Seq<Seq<char>> {
    seq!["node_modules"@, ".git"@, "target"@, "__pycache__"@, ".venv"@]
}

/// Pushes the string `s` onto `v`.
fn push_str(v: &mut Vec<String>, s: &str)
    ensures
        strings_view(final(v)@) == strings_view(old(v)@).push(s@),
{
    let ghost before = v@;
    v.push(s.to_string());
    assert(strings_view(v@) =~= strings_view(before).push(s@));
}

/// The extensions indexed by default.
pub fn default_extensions() -> (r: Vec<String>)
    ensures
        strings_view(r@) == default_extension_list(),
{
    let mut v: Vec<String> = Vec::new();
    push_str(&mut v, ".md");
    push_str(&mut v, ".txt");
    push_str(&mut v, ".rs");
    push_str(&mut v, ".py");
    push_str(&mut v, ".js");
    push_str(&mut v, ".ts");
    push_str(&mut v, ".go");
    push_str(&mut v, ".toml");
    push_str(&mut v, ".yaml");
    push_str(&mut v, ".yml");
    push_str(&mut v, ".json");
    assert(strings_view(v@) =~= default_extension_list());
    v
}

/// The ignore patterns used by default.
pub fn default_ignore_patterns() -> (r: Vec<String>)
    ensures
        strings_view(r@) == default_ignore_list(),
{
    let mut v: Vec<String> = Vec::new();
    push_str(&mut v, "node_modules");
    push_str(&mut v, ".git");
    push_str(&mut v, "target");
    push_str(&mut v, "__pycache__");
    push_str(&mut v, ".venv");
    assert(strings_view(v@) =~= default_ignore_list());
    v
}

// --- Impl ---

/// The settings of `c` are the defaults, its data directory being the
/// default one for some home directory.
pub open spec fn is_default_config(c: CortexConfig) -> bool {
    &&& c.general.log_level@ == "info"@
    &&& exists|home: Option<Seq<char>>| c.storage.data_dir@ == data_dir_in(home)
    &&& c.embedding.model@ == "all-MiniLM-L6-v2"@
    &&& c.embedding.batch_size == 32
    &&& c.chunking.max_tokens == 256
    &&& c.chunking.overlap_tokens == 64
    &&& c.api.tcp_port is None
    &&& c.watch.paths@.len() == 0
    &&& strings_view(c.watch.extensions@) == default_extension_list()
    &&& strings_view(c.watch.ignore_patterns@) == default_ignore_list()
}

impl Default for GeneralConfig {
    fn default() -> (r: Self)
        ensures
            r.log_level@ == "info"@,
    {
        Self { log_level: default_log_level() }
    }
}

impl Default for StorageConfig {
    fn default() -> (r: Self)
        ensures
            exists|home: Option<Seq<char>>| r.data_dir@ == data_dir_in(home),
    {
        Self { data_dir: default_data_dir() }
    }
}

impl Default for EmbeddingConfig {
    fn default() -> (r: Self)
        ensures
            r.model@ == "all-MiniLM-L6-v2"@,
            r.batch_size == 32,
    {
        Self { model: default_model(), batch_size: default_batch_size() }
    }
}

impl Default for ChunkingConfig {
    fn default() -> (r: Self)
        ensures
            r.max_tokens == 256,
            r.overlap_tokens == 64,
    {
        Self { max_tokens: default_max_tokens(), overlap_tokens: default_overlap_tokens() }
    }
}

impl Default for ApiConfig {
    fn default() -> (r: Self)
        ensures
            r.tcp_port is None,
    {
        Self { tcp_port: None }
    }
}

impl Default for WatchConfig {
    fn default() -> (r: Self)
        ensures
            r.paths@.len() == 0,
            strings_view(r.extensions@) == default_extension_list(),
            strings_view(r.ignore_patterns@) == default_ignore_list(),
    {
        Self {
            paths: Vec::new(),
            extensions: default_extensions(),
            ignore_patterns: default_ignore_patterns(),
        }
    }
}

impl Default for CortexConfig {
    fn default() -> (r: Self)
        ensures
            is_default_config(r),
    {
        Self {
            general: GeneralConfig::default(),
            storage: StorageConfig::default(),
            embedding: EmbeddingConfig::default(),
            chunking: ChunkingConfig::default(),
            api: ApiConfig::default(),
            watch: WatchConfig::default(),
        }
    }
}

impl CortexConfig {
    /// Resolved path to the SQLite database.
    pub fn db_path(&self) -> (r: String)
        ensures
            r@ == join_path(self.storage.data_dir@, "cortex.db"@),
    {
        join(self.storage.data_dir.as_str(), "cortex.db")
    }

    /// Resolved path to the model directory.
    pub fn model_dir(&self) -> (r: String)
        ensures
            r@ == join_path(join_path(self.storage.data_dir@, "models"@), self.embedding.model@),
    {
        let models = join(self.storage.data_dir.as_str(), "models");
        join(models.as_str(), self.embedding.model.as_str())
    }

    /// Resolved path to the Unix socket.
    pub fn socket_path(&self) -> (r: String)
        ensures
            r@ == join_path(self.storage.data_dir@, "cortex.sock"@),
    {
        join(self.storage.data_dir.as_str(), "cortex.sock")
    }

    /// Resolved path to the PID file.
    pub fn pid_path(&self) -> (r: String)
        ensures
            r@ == join_path(self.storage.data_dir@, "cortex.pid"@),
    {
        join(self.storage.data_dir.as_str(), "cortex.pid")
    }

    /// Resolved path to the config file.
    pub fn config_path(&self) -> (r: String)
        ensures
            r@ == join_path(self.storage.data_dir@, "config.toml"@),
    {
        join(self.storage.data_dir.as_str(), "config.toml")
    }

    /// The file `load` reads: `config.toml` in the default data directory.
    pub fn load_path() -> (r: String)
        ensures
            exists|home: Option<Seq<char>>| r@ == join_path(data_dir_in(home), "config.toml"@),
    {
        let dir = default_data_dir();
        let r = join(dir.as_str(), "config.toml");
        let ghost d = dir@;
        assert(r@ == join_path(d, "config.toml"@));
        r
    }

    /// Load config: the configuration read from `load_path()`, or the
    /// defaults when it could not be read or parsed.
    pub fn load(loaded: Result<CortexConfig, CortexError>) -> (r: Self)
        ensures
            match loaded {
                Ok(c) => r == c,
                Err(_) => is_default_config(r),
            },
    {
        match loaded {
            Ok(c) => c,
            Err(_) => CortexConfig::default(),
        }
    }
}

} // verus!

use cortex::config::{
    data_dir_for, default_batch_size, default_extensions, default_ignore_patterns, default_log_level,
    default_max_tokens, default_model, default_overlap_tokens, ApiConfig, ChunkingConfig,
    CortexConfig, EmbeddingConfig, GeneralConfig, WatchConfig,
};
use cortex::error::CortexError;

#[test]
fn defaults() {
    assert_eq!(default_log_level(), "info");
    assert_eq!(default_model(), "all-MiniLM-L6-v2");
    assert_eq!(default_batch_size(), 32);
    assert_eq!(default_max_tokens(), 256);
    assert_eq!(default_overlap_tokens(), 64);
    assert_eq!(
        default_extensions(),
        vec![".md", ".txt", ".rs", ".py", ".js", ".ts", ".go", ".toml", ".yaml", ".yml", ".json"]
    );
    assert_eq!(default_ignore_patterns(), vec!["node_modules", ".git", "target", "__pycache__", ".venv"]);
}

#[test]
fn section_defaults() {
    assert_eq!(GeneralConfig::default().log_level, "info");
    let e = EmbeddingConfig::default();
    assert_eq!((e.model.as_str(), e.batch_size), ("all-MiniLM-L6-v2", 32));
    let c = ChunkingConfig::default();
    assert_eq!((c.max_tokens, c.overlap_tokens), (256, 64));
    assert_eq!(ApiConfig::default().tcp_port, None);
    let w = WatchConfig::default();
    assert!(w.paths.is_empty());
    assert_eq!(w.extensions.len(), 11);
}

#[test]
fn data_dir_in_home() {
    assert_eq!(data_dir_for(Some("/home/u")), "/home/u/.cortex");
    assert_eq!(data_dir_for(None), "./.cortex");
}

#[test]
fn derived_paths() {
    let mut c = CortexConfig::default();
    c.storage.data_dir = "/d".to_string();
    assert_eq!(c.db_path(), "/d/cortex.db");
    assert_eq!(c.model_dir(), "/d/models/all-MiniLM-L6-v2");
    assert_eq!(c.socket_path(), "/d/cortex.sock");
    assert_eq!(c.pid_path(), "/d/cortex.pid");
    assert_eq!(c.config_path(), "/d/config.toml");
}

#[test]
fn load_falls_back_to_defaults() {
    let c = CortexConfig::load(Err(CortexError::Config("no file".to_string())));
    assert_eq!(c.general.log_level, "info");
    assert_eq!(c.chunking.max_tokens, 256);
    let mut mine = CortexConfig::default();
    mine.chunking.max_tokens = 100;
    let c = CortexConfig::load(Ok(mine));
    assert_eq!(c.chunking.max_tokens, 100);
}

#[test]
fn load_path_is_config_toml() {
    assert!(CortexConfig::load_path().ends_with("/.cortex/config.toml"));
}

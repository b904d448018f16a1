use cortex::config::{ApiConfig, CortexConfig};
use cortex::daemon::{api_port, Daemon, DEFAULT_API_PORT};

#[test]
fn port_defaults_to_9723() {
    assert_eq!(api_port(&ApiConfig { tcp_port: None }), 9723);
    assert_eq!(DEFAULT_API_PORT, 9723);
    assert_eq!(api_port(&ApiConfig { tcp_port: Some(8080) }), 8080);
}

#[test]
fn daemon_keeps_its_config() {
    let mut c = CortexConfig::default();
    c.chunking.max_tokens = 77;
    let d = Daemon::new(c);
    assert_eq!(d.config().chunking.max_tokens, 77);
}

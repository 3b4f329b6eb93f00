use raspi_observer::config::Collector;
use raspi_observer::config::{Config, EnvSettings, Environment};

fn unset() -> EnvSettings {
    EnvSettings {
        environment: None,
        server_host: None,
        server_port: None,
        host_proc: None,
        enable_docker_metrics: None,
        enable_raspi_metrics: None,
        enable_node_metrics: None,
        metrics_interval_sec: None,
    }
}

fn some(s: &str) -> Option<String> {
    Some(s.to_string())
}

#[test]
fn empty_environment_gives_documented_defaults() {
    let c = Config::new(&unset());
    assert_eq!(c.host, "127.0.0.1");
    assert_eq!(c.port, 8080);
    assert_eq!(c.environment, Environment::Development);
    assert_eq!(c.host_proc, "/proc");
    assert!(c.enable_docker_metrics && c.enable_raspi_metrics && c.enable_node_metrics);
    assert_eq!(c.metrics_interval_sec, 15);
    let d = Config::default();
    assert_eq!(d.host, c.host);
    assert_eq!(d.port, c.port);
    assert_eq!(d.environment, c.environment);
    assert_eq!(d.host_proc, c.host_proc);
    assert_eq!(d.metrics_interval_sec, c.metrics_interval_sec);
}

#[test]
fn environment_values() {
    let mut e = unset();
    e.environment = some("development");
    assert_eq!(Config::new(&e).environment, Environment::Development);
    e.environment = some("production");
    assert_eq!(Config::new(&e).environment, Environment::Production);
    e.environment = some("staging");
    assert_eq!(Config::new(&e).environment, Environment::Production);
    e.environment = some("Development");
    assert_eq!(Config::new(&e).environment, Environment::Production);
}

#[test]
fn ports_and_intervals() {
    let mut e = unset();
    e.server_port = some("9100");
    e.metrics_interval_sec = some("30");
    e.server_host = some("0.0.0.0");
    e.host_proc = some("/host/proc");
    let c = Config::new(&e);
    assert_eq!(c.port, 9100);
    assert_eq!(c.metrics_interval_sec, 30);
    assert_eq!(c.host, "0.0.0.0");
    assert_eq!(c.host_proc, "/host/proc");
    e.server_port = some("70000");
    e.metrics_interval_sec = some("soon");
    let c = Config::new(&e);
    assert_eq!(c.port, 8080);
    assert_eq!(c.metrics_interval_sec, 15);
}

#[test]
fn collector_switches() {
    for (value, on) in [("0", false), ("false", false), ("FALSE", false), ("FaLsE", false),
                        ("1", true), ("true", true), ("no", true), ("", true), ("00", true)] {
        let mut e = unset();
        e.enable_docker_metrics = some(value);
        e.enable_raspi_metrics = some(value);
        e.enable_node_metrics = some(value);
        let c = Config::new(&e);
        assert_eq!(c.enable_docker_metrics, on, "value {:?}", value);
        assert_eq!(c.enable_raspi_metrics, on, "value {:?}", value);
        assert_eq!(c.enable_node_metrics, on, "value {:?}", value);
    }
}

#[test]
fn server_url_joins_host_and_port() {
    let c = Config::default();
    assert_eq!(c.server_url(), "http://127.0.0.1:8080");
    let mut e = unset();
    e.server_host = some("raspi.local");
    e.server_port = some("9");
    assert_eq!(Config::new(&e).server_url(), "http://raspi.local:9");
}

#[test]
fn enabled_collectors_follow_switches() {
    assert_eq!(Config::default().enabled_collectors(), vec![Collector::Docker, Collector::Raspi, Collector::Node]);
    let mut e = unset();
    e.enable_raspi_metrics = some("false");
    assert_eq!(Config::new(&e).enabled_collectors(), vec![Collector::Docker, Collector::Node]);
    e.enable_docker_metrics = some("0");
    e.enable_node_metrics = some("0");
    assert!(Config::new(&e).enabled_collectors().is_empty());
}

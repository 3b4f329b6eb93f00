use raspi_observer::handlers::{favicon, health, routes, Endpoint};
use raspi_observer::metrics::{
    docker_metric_updates, DockerContainerMetrics, DockerMetric, MetricChange,
};

fn sample(id: &str, health: Option<i64>) -> DockerContainerMetrics {
    DockerContainerMetrics {
        container_id: id.to_string(),
        container_name: format!("{}-name", id),
        image: "img".to_string(),
        state: 1,
        health_status: health,
        restart_count: 2,
        last_exit_code: 0,
        uptime_seconds: 60,
        mem_limit_bytes: 0,
        cpu_usage_nanoseconds: 1_500_000_000,
        mem_usage_bytes: 4096,
        net_receive_bytes_total: 10,
        net_transmit_bytes_total: 11,
        blkio_read_bytes_total: 12,
        blkio_write_bytes_total: 13,
    }
}

#[test]
fn updates_per_sample_in_order() {
    let u = docker_metric_updates(&vec![sample("a", Some(2)), sample("b", None)]);
    assert_eq!(u.len(), 12 + 11);
    let first: Vec<DockerMetric> = u[..12].iter().map(|x| x.metric).collect();
    assert_eq!(first, vec![
        DockerMetric::State, DockerMetric::HealthStatus, DockerMetric::LastExitCode,
        DockerMetric::UptimeSeconds, DockerMetric::MemLimitBytes, DockerMetric::MemUsageBytes,
        DockerMetric::RestartCount, DockerMetric::CpuSecondsTotal, DockerMetric::NetReceiveBytesTotal,
        DockerMetric::NetTransmitBytesTotal, DockerMetric::BlkioReadBytesTotal, DockerMetric::BlkioWriteBytesTotal,
    ]);
    assert_eq!(u[1].change, MetricChange::SetTo(2));
    assert_eq!(u[6].change, MetricChange::Add(2));
    assert_eq!(u[7].change, MetricChange::AddNanoseconds(1_500_000_000));
    assert!(u[..12].iter().all(|x| x.container_id == "a" && x.container_name == "a-name" && x.image == "img"));
    assert!(u[12..].iter().all(|x| x.container_id == "b" && x.metric != DockerMetric::HealthStatus));
    assert!(docker_metric_updates(&vec![]).is_empty());
}

#[test]
fn metric_names_and_kinds() {
    let all = DockerMetric::all();
    assert_eq!(all.len(), 12);
    assert_eq!(DockerMetric::State.name(), "docker_container_state");
    assert_eq!(DockerMetric::BlkioReadBytesTotal.labels(), vec!["container_id", "container_name", "image"]);
    assert_eq!(DockerMetric::CpuSecondsTotal.name(), "docker_container_cpu_seconds_total");
    assert!(DockerMetric::RestartCount.is_counter());
    assert!(!DockerMetric::UptimeSeconds.is_counter());
    assert_eq!(all.iter().filter(|m| m.is_counter()).count(), 6);
    assert!(all.iter().all(|m| m.name().starts_with("docker_container_") && !m.help().is_empty()));
}

#[test]
fn endpoints() {
    assert_eq!(health(), "ok");
    favicon();
    let paths: Vec<&str> = routes().iter().map(|e| e.path()).collect();
    assert_eq!(paths, vec!["/health", "/metrics", "/favicon.ico"]);
    assert_eq!(Endpoint::Metrics.path(), "/metrics");
}

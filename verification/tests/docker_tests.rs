use raspi_observer::clock::{parse_started_at_seconds, seconds_between, uptime_from};
use raspi_observer::docker::{
    collected_samples, container_identity, container_metrics, health_status_to_int,
    normalize_container_name, safe_i64_from_u64, BlkioEntry, ContainerIdentity,
    ContainerInspection, ContainerStats, ContainerSummary, HealthStatus, MemoryStatEntry,
    MemoryStats, NetworkStats,
};

fn summary(id: Option<&str>, names: Option<Vec<&str>>, image: Option<&str>) -> ContainerSummary {
    ContainerSummary {
        id: id.map(|s| s.to_string()),
        names: names.map(|v| v.into_iter().map(|s| s.to_string()).collect()),
        image: image.map(|s| s.to_string()),
    }
}

const NOW: (i64, u32) = (1_714_557_600, 0);

fn identity() -> ContainerIdentity {
    ContainerIdentity { id: "abc".to_string(), name: "web".to_string(), image: "nginx".to_string() }
}

fn inspection(running: Option<bool>) -> ContainerInspection {
    ContainerInspection {
        running,
        health_status: Some(HealthStatus::Healthy),
        restart_count: Some(-3),
        exit_code: Some(137),
        started_at: None,
        memory_limit: Some(-1),
    }
}

fn stats() -> ContainerStats {
    ContainerStats {
        cpu_total_usage: Some(2_500_000_000),
        memory: Some(MemoryStats {
            usage: Some(1000),
            stats: Some(vec![
                MemoryStatEntry { name: "cache".to_string(), value: 300 },
                MemoryStatEntry { name: "inactive_file".to_string(), value: 200 },
            ]),
        }),
        networks: Some(vec![
            NetworkStats { rx_bytes: Some(10), tx_bytes: Some(20) },
            NetworkStats { rx_bytes: None, tx_bytes: Some(u64::MAX) },
        ]),
        io_service_bytes: Some(vec![
            BlkioEntry { op: Some("Read".to_string()), value: Some(5) },
            BlkioEntry { op: Some("read".to_string()), value: Some(6) },
            BlkioEntry { op: Some("Write".to_string()), value: Some(7) },
            BlkioEntry { op: Some("write".to_string()), value: None },
            BlkioEntry { op: Some("Total".to_string()), value: Some(100) },
            BlkioEntry { op: None, value: Some(100) },
        ]),
    }
}

#[test]
fn health_codes_follow_the_readme() {
    assert_eq!(health_status_to_int(Some(HealthStatus::Healthy)), Some(1));
    assert_eq!(health_status_to_int(Some(HealthStatus::Unhealthy)), Some(0));
    assert_eq!(health_status_to_int(Some(HealthStatus::Starting)), Some(2));
    assert_eq!(health_status_to_int(Some(HealthStatus::NoCheck)), None);
    assert_eq!(health_status_to_int(Some(HealthStatus::Empty)), None);
    assert_eq!(health_status_to_int(None), None);
}

#[test]
fn container_names() {
    assert_eq!(normalize_container_name(&summary(None, Some(vec!["/web", "/other"]), None)), "web");
    assert_eq!(normalize_container_name(&summary(None, Some(vec!["//db"]), None)), "db");
    assert_eq!(normalize_container_name(&summary(None, Some(vec!["/"]), None)), "unknown");
    assert_eq!(normalize_container_name(&summary(None, Some(vec![]), None)), "unknown");
    assert_eq!(normalize_container_name(&summary(None, None, None)), "unknown");
}

#[test]
fn saturating_conversion() {
    assert_eq!(safe_i64_from_u64(42), 42);
    assert_eq!(safe_i64_from_u64(i64::MAX as u64), i64::MAX);
    assert_eq!(safe_i64_from_u64(u64::MAX), i64::MAX);
}

#[test]
fn containers_without_id_are_skipped() {
    assert!(container_identity(&summary(None, Some(vec!["/web"]), Some("nginx"))).is_none());
    assert!(container_identity(&summary(Some(""), Some(vec!["/web"]), Some("nginx"))).is_none());
    let c = container_identity(&summary(Some("abc"), Some(vec!["/web"]), None)).unwrap();
    assert_eq!((c.id.as_str(), c.name.as_str(), c.image.as_str()), ("abc", "web", ""));
}

#[test]
fn running_container_sample() {
    let m = container_metrics(identity(), &inspection(Some(true)), &Some(stats()), NOW);
    assert_eq!(m.state, 1);
    assert_eq!(m.health_status, Some(1));
    assert_eq!(m.restart_count, 0);
    assert_eq!(m.last_exit_code, 137);
    assert_eq!(m.mem_limit_bytes, 0);
    assert_eq!(m.uptime_seconds, 0);
    assert_eq!(m.cpu_usage_nanoseconds, 2_500_000_000);
    assert_eq!(m.mem_usage_bytes, 800);
    assert_eq!(m.net_receive_bytes_total, 10);
    assert_eq!(m.net_transmit_bytes_total, u64::MAX);
    assert_eq!(m.blkio_read_bytes_total, 11);
    assert_eq!(m.blkio_write_bytes_total, 7);
}

#[test]
fn stopped_container_sample_has_no_usage() {
    let mut i = inspection(Some(false));
    i.started_at = Some("2020-01-01T00:00:00Z".to_string());
    i.restart_count = Some(4);
    i.memory_limit = Some(536870912);
    let m = container_metrics(identity(), &i, &Some(stats()), NOW);
    assert_eq!(m.state, 0);
    assert_eq!(m.restart_count, 4);
    assert_eq!(m.mem_limit_bytes, 536870912);
    assert_eq!(m.uptime_seconds, 0);
    assert_eq!(m.cpu_usage_nanoseconds, 0);
    assert_eq!(m.mem_usage_bytes, 0);
    assert_eq!(m.net_receive_bytes_total, 0);
    assert_eq!(m.blkio_read_bytes_total, 0);
    let unknown = container_metrics(identity(), &inspection(None), &None, NOW);
    assert_eq!(unknown.state, 0);
}

#[test]
fn cache_falls_back_and_usage_saturates_at_zero() {
    let mut s = stats();
    s.memory = Some(MemoryStats {
        usage: Some(100),
        stats: Some(vec![MemoryStatEntry { name: "cache".to_string(), value: 300 }]),
    });
    let m = container_metrics(identity(), &inspection(Some(true)), &Some(s), NOW);
    assert_eq!(m.mem_usage_bytes, 0);
    let mut s = stats();
    s.memory = Some(MemoryStats { usage: Some(u64::MAX), stats: None });
    let m = container_metrics(identity(), &inspection(Some(true)), &Some(s), NOW);
    assert_eq!(m.mem_usage_bytes, i64::MAX);
}

#[test]
fn outcomes_split_into_samples_and_errors() {
    let outcomes: Vec<Result<Option<u32>, &str>> = vec![Ok(Some(1)), Err("boom"), Ok(None), Ok(Some(2)), Err("bang")];
    let (oks, errs) = collected_samples(outcomes);
    assert_eq!(oks, vec![1, 2]);
    assert_eq!(errs, vec!["boom", "bang"]);
}

fn instant(text: &str) -> (i64, u32) {
    let d = chrono::DateTime::parse_from_rfc3339(text).unwrap();
    (d.timestamp(), d.timestamp_subsec_nanos())
}

#[test]
fn seconds_between_agree_with_chrono() {
    let texts = [
        "2024-05-01T10:00:00Z",
        "2024-05-01T10:00:00.999999999Z",
        "2024-05-01T09:59:59.5+00:00",
        "1969-12-31T23:59:59.25Z",
        "2016-12-31T23:59:60.5Z",
        "2017-01-01T00:00:00.1Z",
        "0001-01-01T00:00:00+23:00",
        "9999-12-31T23:59:59-10:00",
    ];
    for a in texts {
        for b in texts {
            let da = chrono::DateTime::parse_from_rfc3339(a).unwrap();
            let db = chrono::DateTime::parse_from_rfc3339(b).unwrap();
            let expected = da.signed_duration_since(db).num_seconds();
            assert_eq!(seconds_between(instant(a), instant(b)), expected, "{} - {}", a, b);
        }
    }
    assert_eq!(uptime_from(instant("2024-05-01T10:00:00Z"), instant("2024-05-01T10:01:30.7Z")), 90);
    assert_eq!(uptime_from(instant("2024-05-01T10:01:30Z"), instant("2024-05-01T10:00:00Z")), 0);
}

#[test]
fn uptime_of_started_containers() {
    let now = instant("2024-05-01T10:00:00.5Z");
    assert_eq!(parse_started_at_seconds(&Some("2020-01-01T00:00:00Z".to_string()), false, now), 0);
    assert_eq!(parse_started_at_seconds(&None, true, now), 0);
    assert_eq!(parse_started_at_seconds(&Some("yesterday".to_string()), true, now), 0);
    assert_eq!(parse_started_at_seconds(&Some("2024-05-01T09:00:00Z".to_string()), true, now), 3600);
    assert_eq!(parse_started_at_seconds(&Some("2024-05-01T11:00:00+01:00".to_string()), true, now), 0);
    assert_eq!(parse_started_at_seconds(&Some("2999-01-01T00:00:00Z".to_string()), true, now), 0);
    let mut i = inspection(Some(true));
    i.started_at = Some("2024-05-01T09:59:00Z".to_string());
    assert_eq!(container_metrics(identity(), &i, &None, now).uptime_seconds, 60);
}

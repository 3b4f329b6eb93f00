use raspi_observer::node::NodeMetric;
use raspi_observer::counters::{counter_increment, CounterState};
use raspi_observer::node::{cpu_mode, load_averages, mem_info, NodeCounters};

const NET_DEV_HEADER: &str = "Inter-|   Receive                                                |  Transmit\n face |bytes    packets errs drop fifo frame compressed multicast|bytes    packets errs drop fifo colls carrier compressed\n";

fn net_dev(lo_rx: u64, eth_rx: u64, eth_tx: u64) -> String {
    format!(
        "{}    lo: {} 10 0 0 0 0 0 0 {} 10 0 0 0 0 0 0\n  eth0: {} 20 0 0 0 0 0 0 {} 30 0 0 0 0 0 0\n",
        NET_DEV_HEADER, lo_rx, lo_rx, eth_rx, eth_tx
    )
}

#[test]
fn increments_follow_the_source_and_survive_resets() {
    assert_eq!(counter_increment(150, 100), 50);
    assert_eq!(counter_increment(100, 100), 0);
    assert_eq!(counter_increment(30, 100), 30);
}

#[test]
fn counter_state_remembers_last_readings() {
    let mut s = CounterState::new();
    assert_eq!(s.get(&"a".to_string()), None);
    s.set("a".to_string(), 5);
    s.set("b".to_string(), 7);
    s.set("a".to_string(), 9);
    assert_eq!(s.get(&"a".to_string()), Some(9));
    assert_eq!(s.get(&"b".to_string()), Some(7));
    assert_eq!(s.observe("c".to_string(), 40), 0);
    assert_eq!(s.observe("c".to_string(), 45), 5);
    assert_eq!(s.observe("c".to_string(), 3), 3);
}

#[test]
fn observed_increments_add_up_to_source_growth() {
    let readings = [100u64, 120, 120, 180, 500];
    let mut s = CounterState::new();
    let total: u64 = readings.iter().map(|r| s.observe("x".to_string(), *r)).sum();
    assert_eq!(total, 500 - 100);
}

#[test]
fn load_average_fields() {
    assert_eq!(
        load_averages("0.52 0.58 0.59 1/467 12345\n"),
        Some(("0.52".to_string(), "0.58".to_string(), "0.59".to_string()))
    );
    assert_eq!(load_averages("0.52 0.58"), None);
}

#[test]
fn meminfo_entries() {
    let content = "MemTotal:        3884748 kB\nHugePages_Total:       0\nbroken\nOdd: 5 kB extra\n";
    let e = mem_info(content);
    assert_eq!(e.len(), 3);
    assert_eq!((e[0].key.as_str(), e[0].value.as_str(), e[0].in_kib), ("MemTotal", "3884748", true));
    assert_eq!((e[1].key.as_str(), e[1].value.as_str(), e[1].in_kib), ("HugePages_Total", "0", false));
    assert_eq!((e[2].key.as_str(), e[2].value.as_str(), e[2].in_kib), ("Odd", "5", false));
}

#[test]
fn net_dev_first_reading_advances_nothing_then_differences() {
    let mut n = NodeCounters::new();
    let first = n.observe_net_dev(&net_dev(1000, 5000, 700));
    assert_eq!(first.len(), 2);
    assert_eq!(first[0].device, "lo");
    assert_eq!((first[0].receive, first[0].transmit), (Some(0), Some(0)));
    assert_eq!(first[1].device, "eth0");
    assert_eq!((first[1].receive, first[1].transmit), (Some(0), Some(0)));
    let second = n.observe_net_dev(&net_dev(1100, 4000, 900));
    assert_eq!((second[0].receive, second[0].transmit), (Some(100), Some(100)));
    // eth0's receive counter went down: it was reset, the whole reading counts
    assert_eq!((second[1].receive, second[1].transmit), (Some(4000), Some(200)));
}

#[test]
fn net_dev_skips_header_short_lines_and_bad_numbers() {
    let mut n = NodeCounters::new();
    let content = format!("{}  wlan0: x 1 0 0 0 0 0 0 12 1 0 0 0 0 0 0\n short: 1 2 3\n", NET_DEV_HEADER);
    let s = n.observe_net_dev(&content);
    assert_eq!(s.len(), 1);
    assert_eq!(s[0].device, "wlan0");
    assert_eq!((s[0].receive, s[0].transmit), (None, Some(0)));
    assert!(n.observe_net_dev("only one line").is_empty());
}

#[test]
fn stat_cpu_lines_and_boot_time() {
    let mut n = NodeCounters::new();
    let content = "cpu  10 0 5 100 0 0 0 0 0 0\ncpu0 10 1 5 100 2 0 0 0 0 0\ncpu1 7 x 3\nintr 123\nbtime 1700000000\n";
    let first = n.observe_stat(content);
    assert_eq!(first.boot_times, vec!["1700000000".to_string()]);
    // cpu0 has all ten columns, cpu1 two numbers, `cpu ` is the total and skipped
    assert_eq!(first.cpu.len(), 12);
    assert!(first.cpu.iter().all(|s| s.ticks == 0));
    assert_eq!((first.cpu[0].cpu.as_str(), first.cpu[0].mode.as_str()), ("cpu0", "user"));
    assert_eq!((first.cpu[9].cpu.as_str(), first.cpu[9].mode.as_str()), ("cpu0", "guest_nice"));
    assert_eq!((first.cpu[10].cpu.as_str(), first.cpu[10].mode.as_str()), ("cpu1", "user"));
    assert_eq!((first.cpu[11].cpu.as_str(), first.cpu[11].mode.as_str()), ("cpu1", "system"));
    let second = n.observe_stat("cpu0 15 1 9 150 2 0 0 0 0 0\nbtime 1700000000\n");
    assert_eq!(second.cpu[0].ticks, 5);
    assert_eq!(second.cpu[2].ticks, 4);
    assert_eq!(second.cpu[3].ticks, 50);
    assert_eq!(second.cpu[4].ticks, 0);
}

#[test]
fn cpu_mode_names() {
    let names: Vec<&str> = (0..10).map(cpu_mode).collect();
    assert_eq!(names, vec!["user", "nice", "system", "idle", "iowait", "irq", "softirq", "steal", "guest", "guest_nice"]);
}

#[test]
fn same_net_dev_text_twice_advances_nothing() {
    let mut n = NodeCounters::new();
    let text = net_dev(1000, 5000, 700);
    n.observe_net_dev(&text);
    n.observe_net_dev(&net_dev(1300, 5200, 900));
    let again = n.observe_net_dev(&net_dev(1300, 5200, 900));
    assert!(again.iter().all(|s| s.receive == Some(0) && s.transmit == Some(0)));
}

#[test]
fn same_stat_text_twice_advances_no_cpu_time() {
    let mut n = NodeCounters::new();
    let text = "cpu  1 2 3 4 5 6 7 8 9 10\ncpu0 11 12 13 14 15 16 17 18 19 20\ncpu1 21 22 23 24 25 26 27 28 29 30\nbtime 5\n";
    n.observe_stat("cpu0 1 1 1 1 1 1 1 1 1 1\n");
    let first = n.observe_stat(text);
    assert!(first.cpu.iter().any(|s| s.ticks > 0));
    let again = n.observe_stat(text);
    assert_eq!(again.cpu.len(), 20);
    assert!(again.cpu.iter().all(|s| s.ticks == 0));
}

#[test]
fn device_counter_over_successive_readings_is_sum_of_increments() {
    // receive readings of eth0: 5000, 5600, 300 (reset), 900
    let readings = [5000u64, 5600, 300, 900];
    let mut n = NodeCounters::new();
    let mut exported = 0u64;
    for r in readings {
        for s in n.observe_net_dev(&net_dev(10, r, 1)) {
            if s.device == "eth0" {
                exported += s.receive.unwrap();
            }
        }
    }
    assert_eq!(exported, 600 + 300 + 600);
}

#[test]
fn cpu_time_over_successive_readings_is_sum_of_increments() {
    let idle = [100u64, 150, 170];
    let mut n = NodeCounters::new();
    let mut exported = 0u64;
    for v in idle {
        let text = format!("cpu0 1 2 3 {} 5 6 7 8 9 10\n", v);
        for s in n.observe_stat(&text).cpu {
            if s.cpu == "cpu0" && s.mode == "idle" {
                exported += s.ticks;
            }
        }
    }
    assert_eq!(exported, 70);
}

#[test]
fn node_metric_table() {
    assert_eq!(NodeMetric::CpuSecondsTotal.name(), "node_cpu_seconds_total");
    assert_eq!(NodeMetric::CpuSecondsTotal.labels(), vec!["cpu", "mode"]);
    assert_eq!(NodeMetric::MemoryBytes.labels(), vec!["type"]);
    assert_eq!(NodeMetric::NetworkReceiveBytesTotal.labels(), vec!["device"]);
    assert!(NodeMetric::Load1.labels().is_empty());
    assert_eq!(NodeMetric::BootTimeSeconds.help(), "Node boot time, in unixtime.");
}

#[test]
fn device_counter_counts_only_readings_where_the_device_appears() {
    let mut n = NodeCounters::new();
    let mut exported = 0u64;
    let only_lo = format!("{}    lo: 5 1 0 0 0 0 0 0 5 1 0 0 0 0 0 0\n", NET_DEV_HEADER);
    let texts = [net_dev(1, 100, 1), only_lo, net_dev(1, 180, 1), net_dev(1, 200, 1)];
    for t in texts.iter() {
        for s in n.observe_net_dev(t) {
            if s.device == "eth0" {
                exported += s.receive.unwrap();
            }
        }
    }
    assert_eq!(exported, 100);
}

#[test]
fn cpu_time_counts_only_readings_where_the_column_appears() {
    let mut n = NodeCounters::new();
    let mut exported = 0u64;
    for text in ["cpu0 10\n", "cpu1 4\n", "cpu0 x\n", "cpu0 25\ncpu0 30\n"] {
        for s in n.observe_stat(text).cpu {
            if s.cpu == "cpu0" && s.mode == "user" {
                exported += s.ticks;
            }
        }
    }
    assert_eq!(exported, 20);
}

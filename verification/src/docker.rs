//! What the Docker engine reports about a container, and the sample of
//! metrics that the exporter makes of it.
//!
//! Listing, inspecting and reading the statistics of containers is left to
//! the caller; the types here hold what the exporter reads of the engine's
//! answers.
use crate::clock::{comparable, parse_started_at_seconds, uptime_at};
use crate::metrics::DockerContainerMetrics;
use crate::text::{chars_eq, chars_of, opt_chars, slice_chars, string_from_chars};
use vstd::prelude::*;

verus! {

/// The health of a container as its health check reports it.
#[derive(Debug, Clone, Copy, PartialEq, Eq, Structural)]
pub enum HealthStatus {
    /// Reported as the empty text.
    Empty,
    /// Reported as `none`: no health check runs.
    NoCheck,
    Starting,
    Healthy,
    Unhealthy,
}

/// The value of the health metric: 1 healthy, 2 starting, 0 unhealthy, and
/// none for a container without a health check.
pub open spec fn health_code(status: Option<HealthStatus>) -> Option<i64> {
    match status {
        Some(HealthStatus::Healthy) => Some(1),
        Some(HealthStatus::Starting) => Some(2),
        Some(HealthStatus::Unhealthy) => Some(0),
        _ => None,
    }
}

/// The value of the health metric for a reported health status.
pub fn health_status_to_int(status: Option<HealthStatus>) -> (r: Option<i64>)
    ensures
        r == health_code(status),
{
    match status {
        Some(HealthStatus::Healthy) => Some(1),
        Some(HealthStatus::Starting) => Some(2),
        Some(HealthStatus::Unhealthy) => Some(0),
        _ => None,
    }
}

/// `value` as an `i64`, or the largest `i64` when it does not fit.
pub open spec fn clamp_to_i64(value: u64) -> i64 {
    if value <= i64::MAX {
        value as i64
    } else {
        i64::MAX
    }
}

/// Converts `value` to `i64`, saturating at the largest `i64`.
pub fn safe_i64_from_u64(value: u64) -> (r: i64)
    ensures
        r == clamp_to_i64(value),
{
    if value <= i64::MAX as u64 {
        value as i64
    } else {
        i64::MAX
    }
}

/// What the exporter reads of a container in the engine's container list.
#[derive(Debug, Clone)]
pub struct ContainerSummary {
    pub id: Option<String>,
    pub names: Option<Vec<String>>,
    pub image: Option<String>,
}

/// `s` without the characters `c` that start it.
pub open spec fn trim_leading(s: Seq<char>, c: char) -> Seq<char>
    decreases s.len(),
{
    if s.len() > 0 && s[0] == c {
        trim_leading(s.drop_first(), c)
    } else {
        s
    }
}

/// The name of a container with the names `names`: its first name without
/// leading `/`s, or `unknown` when there is no name or it is made of `/`s
/// alone.
pub open spec fn container_name_of(names: Option<Seq<String>>) -> Seq<char> {
    match names {
        Some(ns) => if ns.len() > 0 && trim_leading(ns[0]@, '/').len() > 0 {
            trim_leading(ns[0]@, '/')
        } else {
            "unknown"@
        },
        None => "unknown"@,
    }
}

/// Takes the leading `/`s off a container name.
fn trim_leading_slashes(s: &String) -> (r: Vec<char>)
    ensures
        r@ == trim_leading(s@, '/'),
{
    let chars = chars_of(s.as_str());
    let mut i: usize = 0;
    assert(chars@.skip(0) =~= chars@);
    while i < chars.len() && chars[i] == '/'
        invariant
            i <= chars.len(),
            trim_leading(chars@, '/') == trim_leading(chars@.skip(i as int), '/'),
        decreases chars.len() - i,
    {
        assert(chars@.skip(i as int).drop_first() =~= chars@.skip(i + 1));
        i += 1;
    }
    assert(chars@.skip(i as int) =~= chars@.subrange(i as int, chars.len() as int));
    slice_chars(&chars, i, chars.len())
}

/// The display name of a listed container.
pub fn normalize_container_name(summary: &ContainerSummary) -> (r: String)
    ensures
        r@ == container_name_of(match summary.names {
            Some(v) => Some(v@),
            None => None,
        }),
{
    match &summary.names {
        Some(names) => {
            if names.len() > 0 {
                let t = trim_leading_slashes(&names[0]);
                if t.len() > 0 {
                    return string_from_chars(&t);
                }
            }
            "unknown".to_owned()
        },
        None => "unknown".to_owned(),
    }
}

/// The labels of a container's series: its id, display name and image.
#[derive(Debug, Clone)]
pub struct ContainerIdentity {
    pub id: String,
    pub name: String,
    pub image: String,
}

/// A text, or the empty text when it is absent.
pub open spec fn text_or_empty(value: Option<Seq<char>>) -> Seq<char> {
    match value {
        Some(v) => v,
        None => seq![],
    }
}

/// The labels of a listed container, or `None` for a container without an
/// id (which is skipped).
pub fn container_identity(summary: &ContainerSummary) -> (r: Option<ContainerIdentity>)
    ensures
        r is None <==> text_or_empty(opt_chars(summary.id)).len() == 0,
        r matches Some(c) ==> {
            &&& c.id@ == text_or_empty(opt_chars(summary.id))
            &&& c.name@ == container_name_of(match summary.names {
                Some(v) => Some(v@),
                None => None,
            })
            &&& c.image@ == text_or_empty(opt_chars(summary.image))
        },
{
    let id = match &summary.id {
        Some(id) => id.clone(),
        None => String::new(),
    };
    if chars_of(id.as_str()).len() == 0 {
        return None;
    }
    let name = normalize_container_name(summary);
    let image = match &summary.image {
        Some(i) => i.clone(),
        None => String::new(),
    };
    Some(ContainerIdentity { id, name, image })
}

/// What the exporter reads of a container's inspection.
#[derive(Debug, Clone)]
pub struct ContainerInspection {
    pub running: Option<bool>,
    pub health_status: Option<HealthStatus>,
    pub restart_count: Option<i64>,
    pub exit_code: Option<i64>,
    pub started_at: Option<String>,
    pub memory_limit: Option<i64>,
}

impl ContainerInspection {
    /// Whether the container runs (unknown counts as not running); only a
    /// running container's statistics are read.
    pub fn is_running(&self) -> (b: bool)
        ensures
            b == (self.running == Some(true)),
    {
        match self.running {
            Some(r) => r,
            None => false,
        }
    }
}

/// One entry of a container's memory statistics.
#[derive(Debug, Clone)]
pub struct MemoryStatEntry {
    pub name: String,
    pub value: u64,
}

/// A container's memory statistics.
#[derive(Debug, Clone)]
pub struct MemoryStats {
    pub usage: Option<u64>,
    pub stats: Option<Vec<MemoryStatEntry>>,
}

/// The traffic of one of a container's networks.
#[derive(Debug, Clone, Copy)]
pub struct NetworkStats {
    pub rx_bytes: Option<u64>,
    pub tx_bytes: Option<u64>,
}

/// One entry of a container's block I/O byte counts.
#[derive(Debug, Clone)]
pub struct BlkioEntry {
    pub op: Option<String>,
    pub value: Option<u64>,
}

/// A container's resource usage statistics, one reading.
#[derive(Debug, Clone)]
pub struct ContainerStats {
    pub cpu_total_usage: Option<u64>,
    pub memory: Option<MemoryStats>,
    pub networks: Option<Vec<NetworkStats>>,
    pub io_service_bytes: Option<Vec<BlkioEntry>>,
}

/// A number, or 0 when it is absent.
pub open spec fn or_zero(v: Option<u64>) -> u64 {
    match v {
        Some(x) => x,
        None => 0,
    }
}

/// `x`, or the largest `u64` when it is larger.
pub open spec fn saturate(x: int) -> u64 {
    if x > u64::MAX {
        u64::MAX
    } else {
        x as u64
    }
}

/// The value of the first entry named `name`.
pub open spec fn stat_value(entries: Seq<MemoryStatEntry>, name: Seq<char>) -> Option<u64>
    decreases entries.len(),
{
    if entries.len() == 0 {
        None
    } else if entries[0].name@ == name {
        Some(entries[0].value)
    } else {
        stat_value(entries.drop_first(), name)
    }
}

/// The page cache of a container: `inactive_file`, or else `cache`, or 0.
pub open spec fn cache_bytes(stats: Option<Vec<MemoryStatEntry>>) -> u64 {
    match stats {
        Some(entries) => match stat_value(entries@, "inactive_file"@) {
            Some(v) => v,
            None => or_zero(stat_value(entries@, "cache"@)),
        },
        None => 0,
    }
}

/// The memory in use without the page cache (0 when the cache is larger),
/// as an `i64`.
pub open spec fn working_set(m: MemoryStats) -> i64 {
    let usage = or_zero(m.usage);
    let cache = cache_bytes(m.stats);
    clamp_to_i64(if usage >= cache {
        (usage - cache) as u64
    } else {
        0
    })
}

/// Bytes received over the networks, in all.
pub open spec fn rx_sum(nets: Seq<NetworkStats>) -> int
    decreases nets.len(),
{
    if nets.len() == 0 {
        0
    } else {
        rx_sum(nets.drop_last()) + or_zero(nets.last().rx_bytes)
    }
}

/// Bytes sent over the networks, in all.
pub open spec fn tx_sum(nets: Seq<NetworkStats>) -> int
    decreases nets.len(),
{
    if nets.len() == 0 {
        0
    } else {
        tx_sum(nets.drop_last()) + or_zero(nets.last().tx_bytes)
    }
}

/// Whether an entry counts reads (`Read` or `read`).
pub open spec fn is_read_op(op: Option<String>) -> bool {
    match op {
        Some(o) => o@ == "Read"@ || o@ == "read"@,
        None => false,
    }
}

/// Whether an entry counts writes (`Write` or `write`).
pub open spec fn is_write_op(op: Option<String>) -> bool {
    match op {
        Some(o) => o@ == "Write"@ || o@ == "write"@,
        None => false,
    }
}

/// Bytes read, in all, over the entries that count reads.
pub open spec fn read_sum(entries: Seq<BlkioEntry>) -> int
    decreases entries.len(),
{
    if entries.len() == 0 {
        0
    } else {
        read_sum(entries.drop_last()) + if is_read_op(entries.last().op) {
            or_zero(entries.last().value) as int
        } else {
            0
        }
    }
}

/// Bytes written, in all, over the entries that count writes.
pub open spec fn write_sum(entries: Seq<BlkioEntry>) -> int
    decreases entries.len(),
{
    if entries.len() == 0 {
        0
    } else {
        write_sum(entries.drop_last()) + if is_write_op(entries.last().op) {
            or_zero(entries.last().value) as int
        } else {
            0
        }
    }
}

fn stat_lookup(entries: &Vec<MemoryStatEntry>, name: &str) -> (r: Option<u64>)
    ensures
        r == stat_value(entries@, name@),
{
    let key = chars_of(name);
    let mut i: usize = 0;
    assert(entries@.skip(0) =~= entries@);
    while i < entries.len()
        invariant
            i <= entries.len(),
            key@ == name@,
            stat_value(entries@, name@) == stat_value(entries@.skip(i as int), name@),
        decreases entries.len() - i,
    {
        assert(entries@.skip(i as int).drop_first() =~= entries@.skip(i + 1));
        if chars_eq(&chars_of(entries[i].name.as_str()), &key) {
            return Some(entries[i].value);
        }
        i += 1;
    }
    None
}

fn memory_working_set(m: &MemoryStats) -> (r: i64)
    ensures
        r == working_set(*m),
{
    let usage = match m.usage {
        Some(u) => u,
        None => 0,
    };
    let cache = match &m.stats {
        Some(entries) => match stat_lookup(entries, "inactive_file") {
            Some(v) => v,
            None => match stat_lookup(entries, "cache") {
                Some(v) => v,
                None => 0,
            },
        },
        None => 0,
    };
    safe_i64_from_u64(usage.saturating_sub(cache))
}

fn network_totals(nets: &Vec<NetworkStats>) -> (r: (u64, u64))
    ensures
        r.0 == saturate(rx_sum(nets@)),
        r.1 == saturate(tx_sum(nets@)),
{
    let mut rx: u64 = 0;
    let mut tx: u64 = 0;
    let mut i: usize = 0;
    while i < nets.len()
        invariant
            i <= nets.len(),
            rx == saturate(rx_sum(nets@.take(i as int))),
            tx == saturate(tx_sum(nets@.take(i as int))),
            rx_sum(nets@.take(i as int)) >= 0,
            tx_sum(nets@.take(i as int)) >= 0,
        decreases nets.len() - i,
    {
        assert(nets@.take(i + 1).drop_last() =~= nets@.take(i as int));
        let n = nets[i];
        let r = match n.rx_bytes {
            Some(v) => v,
            None => 0,
        };
        let t = match n.tx_bytes {
            Some(v) => v,
            None => 0,
        };
        rx = rx.saturating_add(r);
        tx = tx.saturating_add(t);
        i += 1;
    }
    assert(nets@.take(nets.len() as int) =~= nets@);
    (rx, tx)
}

fn op_is(op: &Option<String>, a: &str, b: &str) -> (r: bool)
    ensures
        r == (match op {
            Some(o) => o@ == a@ || o@ == b@,
            None => false,
        }),
{
    match op {
        Some(o) => {
            let c = chars_of(o.as_str());
            chars_eq(&c, &chars_of(a)) || chars_eq(&c, &chars_of(b))
        },
        None => false,
    }
}

fn blkio_totals(entries: &Vec<BlkioEntry>) -> (r: (u64, u64))
    ensures
        r.0 == saturate(read_sum(entries@)),
        r.1 == saturate(write_sum(entries@)),
{
    let mut read: u64 = 0;
    let mut write: u64 = 0;
    let mut i: usize = 0;
    while i < entries.len()
        invariant
            i <= entries.len(),
            read == saturate(read_sum(entries@.take(i as int))),
            write == saturate(write_sum(entries@.take(i as int))),
            read_sum(entries@.take(i as int)) >= 0,
            write_sum(entries@.take(i as int)) >= 0,
        decreases entries.len() - i,
    {
        assert(entries@.take(i + 1).drop_last() =~= entries@.take(i as int));
        let e = &entries[i];
        let value = match e.value {
            Some(v) => v,
            None => 0,
        };
        proof {
            reveal_strlit("Read");
            reveal_strlit("read");
            reveal_strlit("Write");
            reveal_strlit("write");
            assert("Read"@.len() == 4 && "read"@.len() == 4);
            assert("Write"@.len() == 5 && "write"@.len() == 5);
        }
        assert(!(is_read_op(e.op) && is_write_op(e.op)));
        if op_is(&e.op, "Read", "read") {
            read = read.saturating_add(value);
        } else if op_is(&e.op, "Write", "write") {
            write = write.saturating_add(value);
        }
        i += 1;
    }
    assert(entries@.take(entries.len() as int) =~= entries@);
    (read, write)
}

/// The statistics that count for a container: those read, and only while it
/// runs.
pub open spec fn counted_stats(running: bool, stats: Option<ContainerStats>) -> Option<ContainerStats> {
    if running {
        stats
    } else {
        None
    }
}

/// The sample of a container with the labels `identity`, the inspection
/// `inspection` and, for a running container, the statistics `stats` (when
/// a reading came), taken at the instant `now`. Without statistics the CPU, memory usage, network and
/// block I/O figures are 0; totals that overflow stay at the largest `u64`.
pub fn container_metrics(
    identity: ContainerIdentity,
    inspection: &ContainerInspection,
    stats: &Option<ContainerStats>,
    now: (i64, u32),
) -> (m: DockerContainerMetrics)
    requires
        comparable(now),
    ensures
        m.container_id == identity.id,
        m.container_name == identity.name,
        m.image == identity.image,
        m.state == (if inspection.running == Some(true) { 1i64 } else { 0i64 }),
        m.health_status == health_code(inspection.health_status),
        m.restart_count == (match inspection.restart_count {
            Some(c) => if c > 0 { c as u64 } else { 0u64 },
            None => 0u64,
        }),
        m.last_exit_code == (match inspection.exit_code {
            Some(c) => c,
            None => 0i64,
        }),
        m.mem_limit_bytes == (match inspection.memory_limit {
            Some(l) => if l > 0 { l } else { 0i64 },
            None => 0i64,
        }),
        m.uptime_seconds == uptime_at(
            opt_chars(inspection.started_at),
            inspection.running == Some(true),
            now,
        ),
        match counted_stats(inspection.running == Some(true), *stats) {
            Some(s) => {
                &&& m.cpu_usage_nanoseconds == or_zero(s.cpu_total_usage)
                &&& m.mem_usage_bytes == (match s.memory {
                    Some(mem) => working_set(mem),
                    None => 0i64,
                })
                &&& m.net_receive_bytes_total == (match s.networks {
                    Some(n) => saturate(rx_sum(n@)),
                    None => 0u64,
                })
                &&& m.net_transmit_bytes_total == (match s.networks {
                    Some(n) => saturate(tx_sum(n@)),
                    None => 0u64,
                })
                &&& m.blkio_read_bytes_total == (match s.io_service_bytes {
                    Some(e) => saturate(read_sum(e@)),
                    None => 0u64,
                })
                &&& m.blkio_write_bytes_total == (match s.io_service_bytes {
                    Some(e) => saturate(write_sum(e@)),
                    None => 0u64,
                })
            },
            None => {
                &&& m.cpu_usage_nanoseconds == 0
                &&& m.mem_usage_bytes == 0
                &&& m.net_receive_bytes_total == 0
                &&& m.net_transmit_bytes_total == 0
                &&& m.blkio_read_bytes_total == 0
                &&& m.blkio_write_bytes_total == 0
            },
        },
{
    let running = inspection.is_running();
    let restart_count: u64 = match inspection.restart_count {
        Some(c) => if c > 0 {
            c as u64
        } else {
            0
        },
        None => 0,
    };
    let last_exit_code: i64 = match inspection.exit_code {
        Some(c) => c,
        None => 0,
    };
    let mem_limit_bytes: i64 = match inspection.memory_limit {
        Some(l) => if l > 0 {
            l
        } else {
            0
        },
        None => 0,
    };
    let uptime_seconds = parse_started_at_seconds(&inspection.started_at, running, now);
    let mut cpu: u64 = 0;
    let mut mem_usage: i64 = 0;
    let mut rx: u64 = 0;
    let mut tx: u64 = 0;
    let mut read: u64 = 0;
    let mut write: u64 = 0;
    if running {
        match stats {
            Some(s) => {
                cpu = match s.cpu_total_usage {
                    Some(c) => c,
                    None => 0,
                };
                match &s.memory {
                    Some(mem) => {
                        mem_usage = memory_working_set(mem);
                    },
                    None => {},
                }
                match &s.networks {
                    Some(n) => {
                        let (r, t) = network_totals(n);
                        rx = r;
                        tx = t;
                    },
                    None => {},
                }
                match &s.io_service_bytes {
                    Some(e) => {
                        let (r, w) = blkio_totals(e);
                        read = r;
                        write = w;
                    },
                    None => {},
                }
            },
            None => {},
        }
    }
    DockerContainerMetrics {
        container_id: identity.id,
        container_name: identity.name,
        image: identity.image,
        state: if running {
            1
        } else {
            0
        },
        health_status: health_status_to_int(inspection.health_status),
        restart_count,
        last_exit_code,
        uptime_seconds,
        mem_limit_bytes,
        cpu_usage_nanoseconds: cpu,
        mem_usage_bytes: mem_usage,
        net_receive_bytes_total: rx,
        net_transmit_bytes_total: tx,
        blkio_read_bytes_total: read,
        blkio_write_bytes_total: write,
    }
}

/// The outcomes of collecting the containers, split into the samples (in
/// order, skipping the containers without an id, which gave no sample) and
/// the errors (in order).
pub open spec fn split_outcomes<T, E>(outcomes: Seq<Result<Option<T>, E>>) -> (Seq<T>, Seq<E>)
    decreases outcomes.len(),
{
    if outcomes.len() == 0 {
        (seq![], seq![])
    } else {
        let (oks, errs) = split_outcomes(outcomes.drop_last());
        match outcomes.last() {
            Ok(Some(m)) => (oks.push(m), errs),
            Ok(None) => (oks, errs),
            Err(e) => (oks, errs.push(e)),
        }
    }
}

/// Splits the outcomes of collecting the containers into the samples and
/// the errors.
pub fn collected_samples<T, E>(outcomes: Vec<Result<Option<T>, E>>) -> (r: (Vec<T>, Vec<E>))
    ensures
        (r.0@, r.1@) == split_outcomes(outcomes@),
{
    let mut oks: Vec<T> = Vec::new();
    let mut errs: Vec<E> = Vec::new();
    let ghost all = outcomes@;
    for o in it: outcomes
        invariant
            it.seq() == all,
            (oks@, errs@) == split_outcomes(all.take(it.index())),
    {
        assert(all.take(it.index() + 1).drop_last() =~= all.take(it.index()));
        match o {
            Ok(Some(m)) => oks.push(m),
            Ok(None) => {},
            Err(e) => errs.push(e),
        }
    }
    assert(all.take(all.len() as int) =~= all);
    (oks, errs)
}

/// The bytes received and sent over the networks `a` followed by `b` are
/// those over `a` plus those over `b`; and a single network contributes its
/// own counts (0 for a count it does not report). So the totals are the sums
/// over every network, in any grouping, and the sample's totals are those
/// sums, held at the largest `u64`.
pub proof fn lemma_network_totals_are_sums(a: Seq<NetworkStats>, b: Seq<NetworkStats>, n: NetworkStats)
    ensures
        rx_sum(a + b) == rx_sum(a) + rx_sum(b),
        tx_sum(a + b) == tx_sum(a) + tx_sum(b),
        rx_sum(seq![n]) == (match n.rx_bytes {
            Some(v) => v as int,
            None => 0,
        }),
        tx_sum(seq![n]) == (match n.tx_bytes {
            Some(v) => v as int,
            None => 0,
        }),
        rx_sum(a) >= 0,
        tx_sum(a) >= 0,
        saturate(rx_sum(a + b)) == (if saturate(rx_sum(a)) + saturate(rx_sum(b)) > u64::MAX {
            u64::MAX
        } else {
            (saturate(rx_sum(a)) + saturate(rx_sum(b))) as u64
        }),
        saturate(tx_sum(a + b)) == (if saturate(tx_sum(a)) + saturate(tx_sum(b)) > u64::MAX {
            u64::MAX
        } else {
            (saturate(tx_sum(a)) + saturate(tx_sum(b))) as u64
        }),
    decreases b.len(),
{
    assert(seq![n].drop_last() =~= Seq::<NetworkStats>::empty());
    assert(seq![n].last() == n);
    assert(rx_sum(seq![n]) == rx_sum(Seq::<NetworkStats>::empty()) + or_zero(n.rx_bytes));
    assert(tx_sum(seq![n]) == tx_sum(Seq::<NetworkStats>::empty()) + or_zero(n.tx_bytes));
    lemma_network_sums_nonnegative(a);
    lemma_network_sums_nonnegative(b);
    if b.len() == 0 {
        assert(a + b =~= a);
    } else {
        lemma_network_totals_are_sums(a, b.drop_last(), n);
        assert((a + b).drop_last() =~= a + b.drop_last());
        assert((a + b).last() == b.last());
    }
}

proof fn lemma_network_sums_nonnegative(a: Seq<NetworkStats>)
    ensures
        rx_sum(a) >= 0,
        tx_sum(a) >= 0,
    decreases a.len(),
{
    if a.len() > 0 {
        lemma_network_sums_nonnegative(a.drop_last());
    }
}

proof fn lemma_blkio_sums_nonnegative(a: Seq<BlkioEntry>)
    ensures
        read_sum(a) >= 0,
        write_sum(a) >= 0,
    decreases a.len(),
{
    if a.len() > 0 {
        lemma_blkio_sums_nonnegative(a.drop_last());
    }
}

/// The bytes read and written over the block I/O entries `a` followed by
/// `b` are those over `a` plus those over `b`; and a single entry counts its
/// value (0 when it reports none) as read exactly when its operation is
/// `Read` or `read` (the cgroup v1 and v2 spellings) and as written exactly
/// when it is `Write` or `write`. So the totals are the sums over the
/// matching entries, and the sample's totals are those sums, held at the
/// largest `u64`.
pub proof fn lemma_blkio_totals_are_sums(a: Seq<BlkioEntry>, b: Seq<BlkioEntry>, e: BlkioEntry)
    ensures
        read_sum(a + b) == read_sum(a) + read_sum(b),
        write_sum(a + b) == write_sum(a) + write_sum(b),
        read_sum(seq![e]) == (match e.op {
            Some(o) => if o@ == "Read"@ || o@ == "read"@ {
                match e.value {
                    Some(v) => v as int,
                    None => 0,
                }
            } else {
                0
            },
            None => 0,
        }),
        write_sum(seq![e]) == (match e.op {
            Some(o) => if o@ == "Write"@ || o@ == "write"@ {
                match e.value {
                    Some(v) => v as int,
                    None => 0,
                }
            } else {
                0
            },
            None => 0,
        }),
        read_sum(a) >= 0,
        write_sum(a) >= 0,
        saturate(write_sum(a + b)) == (if saturate(write_sum(a)) + saturate(write_sum(b)) > u64::MAX {
            u64::MAX
        } else {
            (saturate(write_sum(a)) + saturate(write_sum(b))) as u64
        }),
        saturate(read_sum(a + b)) == (if saturate(read_sum(a)) + saturate(read_sum(b)) > u64::MAX {
            u64::MAX
        } else {
            (saturate(read_sum(a)) + saturate(read_sum(b))) as u64
        }),
    decreases b.len(),
{
    assert(seq![e].drop_last() =~= Seq::<BlkioEntry>::empty());
    assert(seq![e].last() == e);
    assert(read_sum(Seq::<BlkioEntry>::empty()) == 0);
    assert(write_sum(Seq::<BlkioEntry>::empty()) == 0);
    assert(read_sum(seq![e]) == read_sum(seq![e].drop_last()) + if is_read_op(e.op) {
        or_zero(e.value) as int
    } else {
        0
    });
    assert(write_sum(seq![e]) == write_sum(seq![e].drop_last()) + if is_write_op(e.op) {
        or_zero(e.value) as int
    } else {
        0
    });
    lemma_blkio_sums_nonnegative(a);
    lemma_blkio_sums_nonnegative(b);
    if b.len() == 0 {
        assert(a + b =~= a);
    } else {
        lemma_blkio_totals_are_sums(a, b.drop_last(), e);
        assert((a + b).drop_last() =~= a + b.drop_last());
        assert((a + b).last() == b.last());
    }
}

} // verus!

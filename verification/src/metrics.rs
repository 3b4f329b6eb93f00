//! The Docker container metrics: one sample per container, the exported
//! metric families, and the changes that a collection makes to them.
use vstd::prelude::*;

verus! {

/// What one collection found about one container. CPU time is kept in
/// nanoseconds, as the Docker engine reports it.
#[derive(Debug, Clone)]
pub struct DockerContainerMetrics {
    pub container_id: String,
    pub container_name: String,
    pub image: String,
    /// 1 while the container runs, else 0.
    pub state: i64,
    /// 1 healthy, 0 unhealthy, 2 starting; `None` without a health check.
    pub health_status: Option<i64>,
    pub restart_count: u64,
    pub last_exit_code: i64,
    /// Seconds since the container started; 0 when it is stopped.
    pub uptime_seconds: i64,
    /// Memory limit in bytes; 0 for none.
    pub mem_limit_bytes: i64,
    /// CPU time used in all, in nanoseconds.
    pub cpu_usage_nanoseconds: u64,
    /// Memory in use without the page cache, in bytes.
    pub mem_usage_bytes: i64,
    pub net_receive_bytes_total: u64,
    pub net_transmit_bytes_total: u64,
    pub blkio_read_bytes_total: u64,
    pub blkio_write_bytes_total: u64,
}

/// The metric families exported for containers, each labelled by
/// `container_id`, `container_name` and `image`.
#[derive(Debug, Clone, Copy, PartialEq, Eq, Structural)]
pub enum DockerMetric {
    State,
    HealthStatus,
    RestartCount,
    LastExitCode,
    UptimeSeconds,
    MemLimitBytes,
    CpuSecondsTotal,
    MemUsageBytes,
    NetReceiveBytesTotal,
    NetTransmitBytesTotal,
    BlkioReadBytesTotal,
    BlkioWriteBytesTotal,
}

/// Every container metric family, in the order they are registered.
pub open spec fn all_docker_metrics() -> Seq<DockerMetric> {
    seq![
        DockerMetric::State,
        DockerMetric::HealthStatus,
        DockerMetric::RestartCount,
        DockerMetric::LastExitCode,
        DockerMetric::UptimeSeconds,
        DockerMetric::MemLimitBytes,
        DockerMetric::CpuSecondsTotal,
        DockerMetric::MemUsageBytes,
        DockerMetric::NetReceiveBytesTotal,
        DockerMetric::NetTransmitBytesTotal,
        DockerMetric::BlkioReadBytesTotal,
        DockerMetric::BlkioWriteBytesTotal,
    ]
}

/// The exported name of each family.
pub open spec fn metric_name(m: DockerMetric) -> Seq<char> {
    match m {
        DockerMetric::State => "docker_container_state"@,
        DockerMetric::HealthStatus => "docker_container_health_status"@,
        DockerMetric::RestartCount => "docker_container_restart_count"@,
        DockerMetric::LastExitCode => "docker_container_last_exit_code"@,
        DockerMetric::UptimeSeconds => "docker_container_uptime_seconds"@,
        DockerMetric::MemLimitBytes => "docker_container_mem_limit_bytes"@,
        DockerMetric::CpuSecondsTotal => "docker_container_cpu_seconds_total"@,
        DockerMetric::MemUsageBytes => "docker_container_mem_usage_bytes"@,
        DockerMetric::NetReceiveBytesTotal => "docker_container_net_receive_bytes_total"@,
        DockerMetric::NetTransmitBytesTotal => "docker_container_net_transmit_bytes_total"@,
        DockerMetric::BlkioReadBytesTotal => "docker_container_blkio_read_bytes_total"@,
        DockerMetric::BlkioWriteBytesTotal => "docker_container_blkio_write_bytes_total"@,
    }
}

/// The help text of each family.
pub open spec fn metric_help(m: DockerMetric) -> Seq<char> {
    match m {
        DockerMetric::State => "Running state: 1=running, 0=stopped/exited"@,
        DockerMetric::HealthStatus => "Healthcheck: 1=healthy, 0=unhealthy, 2=starting"@,
        DockerMetric::RestartCount => "Total number of restarts"@,
        DockerMetric::LastExitCode => "Last exit code (0=clean, 137=OOM/SIGKILL)"@,
        DockerMetric::UptimeSeconds => "Seconds since container started (0=stopped)"@,
        DockerMetric::MemLimitBytes => "Configured memory limit in bytes (0=unlimited)"@,
        DockerMetric::CpuSecondsTotal => "Cumulative CPU time in seconds"@,
        DockerMetric::MemUsageBytes => "Memory working set in bytes (excl. cache)"@,
        DockerMetric::NetReceiveBytesTotal => "Cumulative network RX bytes"@,
        DockerMetric::NetTransmitBytesTotal => "Cumulative network TX bytes"@,
        DockerMetric::BlkioReadBytesTotal => "Cumulative block I/O read bytes"@,
        DockerMetric::BlkioWriteBytesTotal => "Cumulative block I/O write bytes"@,
    }
}

/// Whether a family is a counter (only ever advanced) rather than a gauge.
pub open spec fn metric_is_counter(m: DockerMetric) -> bool {
    match m {
        DockerMetric::RestartCount | DockerMetric::CpuSecondsTotal
        | DockerMetric::NetReceiveBytesTotal | DockerMetric::NetTransmitBytesTotal
        | DockerMetric::BlkioReadBytesTotal | DockerMetric::BlkioWriteBytesTotal => true,
        _ => false,
    }
}

impl DockerMetric {
    /// Every family, in the order they are registered.
    pub fn all() -> (v: Vec<DockerMetric>)
        ensures
            v@ == all_docker_metrics(),
    {
        let v = vec![
            DockerMetric::State,
            DockerMetric::HealthStatus,
            DockerMetric::RestartCount,
            DockerMetric::LastExitCode,
            DockerMetric::UptimeSeconds,
            DockerMetric::MemLimitBytes,
            DockerMetric::CpuSecondsTotal,
            DockerMetric::MemUsageBytes,
            DockerMetric::NetReceiveBytesTotal,
            DockerMetric::NetTransmitBytesTotal,
            DockerMetric::BlkioReadBytesTotal,
            DockerMetric::BlkioWriteBytesTotal,
        ];
        assert(v@ =~= all_docker_metrics());
        v
    }

    /// The exported name of the family.
    pub fn name(&self) -> (n: &'static str)
        ensures
            n@ == metric_name(*self),
            *self == DockerMetric::State ==> n@ == "docker_container_state"@,
            *self == DockerMetric::HealthStatus ==> n@ == "docker_container_health_status"@,
            *self == DockerMetric::RestartCount ==> n@ == "docker_container_restart_count"@,
            *self == DockerMetric::LastExitCode ==> n@ == "docker_container_last_exit_code"@,
            *self == DockerMetric::UptimeSeconds ==> n@ == "docker_container_uptime_seconds"@,
            *self == DockerMetric::MemLimitBytes ==> n@ == "docker_container_mem_limit_bytes"@,
            *self == DockerMetric::CpuSecondsTotal ==> n@ == "docker_container_cpu_seconds_total"@,
            *self == DockerMetric::MemUsageBytes ==> n@ == "docker_container_mem_usage_bytes"@,
            *self == DockerMetric::NetReceiveBytesTotal ==> n@ == "docker_container_net_receive_bytes_total"@,
            *self == DockerMetric::NetTransmitBytesTotal ==> n@ == "docker_container_net_transmit_bytes_total"@,
            *self == DockerMetric::BlkioReadBytesTotal ==> n@ == "docker_container_blkio_read_bytes_total"@,
            *self == DockerMetric::BlkioWriteBytesTotal ==> n@ == "docker_container_blkio_write_bytes_total"@,
    {
        match self {
            DockerMetric::State => "docker_container_state",
            DockerMetric::HealthStatus => "docker_container_health_status",
            DockerMetric::RestartCount => "docker_container_restart_count",
            DockerMetric::LastExitCode => "docker_container_last_exit_code",
            DockerMetric::UptimeSeconds => "docker_container_uptime_seconds",
            DockerMetric::MemLimitBytes => "docker_container_mem_limit_bytes",
            DockerMetric::CpuSecondsTotal => "docker_container_cpu_seconds_total",
            DockerMetric::MemUsageBytes => "docker_container_mem_usage_bytes",
            DockerMetric::NetReceiveBytesTotal => "docker_container_net_receive_bytes_total",
            DockerMetric::NetTransmitBytesTotal => "docker_container_net_transmit_bytes_total",
            DockerMetric::BlkioReadBytesTotal => "docker_container_blkio_read_bytes_total",
            DockerMetric::BlkioWriteBytesTotal => "docker_container_blkio_write_bytes_total",
        }
    }

    /// The help text of the family.
    pub fn help(&self) -> (h: &'static str)
        ensures
            h@ == metric_help(*self),
    {
        match self {
            DockerMetric::State => "Running state: 1=running, 0=stopped/exited",
            DockerMetric::HealthStatus => "Healthcheck: 1=healthy, 0=unhealthy, 2=starting",
            DockerMetric::RestartCount => "Total number of restarts",
            DockerMetric::LastExitCode => "Last exit code (0=clean, 137=OOM/SIGKILL)",
            DockerMetric::UptimeSeconds => "Seconds since container started (0=stopped)",
            DockerMetric::MemLimitBytes => "Configured memory limit in bytes (0=unlimited)",
            DockerMetric::CpuSecondsTotal => "Cumulative CPU time in seconds",
            DockerMetric::MemUsageBytes => "Memory working set in bytes (excl. cache)",
            DockerMetric::NetReceiveBytesTotal => "Cumulative network RX bytes",
            DockerMetric::NetTransmitBytesTotal => "Cumulative network TX bytes",
            DockerMetric::BlkioReadBytesTotal => "Cumulative block I/O read bytes",
            DockerMetric::BlkioWriteBytesTotal => "Cumulative block I/O write bytes",
        }
    }

    /// The label names of the family's series: `container_id`,
    /// `container_name` and `image`, as for every container family.
    pub fn labels(&self) -> (l: Vec<&'static str>)
        ensures
            l@.map_values(|x: &'static str| x@) == seq!["container_id"@, "container_name"@, "image"@],
    {
        let l = vec!["container_id", "container_name", "image"];
        assert(l@.map_values(|x: &'static str| x@) =~= seq!["container_id"@, "container_name"@, "image"@]);
        l
    }

    /// Whether the family is a counter rather than a gauge.
    pub fn is_counter(&self) -> (b: bool)
        ensures
            b == metric_is_counter(*self),
    {
        match self {
            DockerMetric::RestartCount | DockerMetric::CpuSecondsTotal
            | DockerMetric::NetReceiveBytesTotal | DockerMetric::NetTransmitBytesTotal
            | DockerMetric::BlkioReadBytesTotal | DockerMetric::BlkioWriteBytesTotal => true,
            _ => false,
        }
    }
}

/// A change to one labelled series.
#[derive(Debug, Clone, Copy, PartialEq, Eq, Structural)]
pub enum MetricChange {
    /// Set a gauge to the value.
    SetTo(i64),
    /// Advance a counter by the value.
    Add(u64),
    /// Advance a counter of seconds by the value, given in nanoseconds.
    AddNanoseconds(u64),
}

/// A change to the series of `metric` with the given labels.
#[derive(Debug, Clone)]
pub struct MetricUpdate {
    pub metric: DockerMetric,
    pub container_id: String,
    pub container_name: String,
    pub image: String,
    pub change: MetricChange,
}

impl MetricUpdate {
    pub open spec fn view(&self) -> (DockerMetric, Seq<char>, Seq<char>, Seq<char>, MetricChange) {
        (self.metric, self.container_id@, self.container_name@, self.image@, self.change)
    }
}

/// The changes a sample makes, in order: the gauges state, health (only
/// when the container reports one), last exit code, uptime, memory limit and
/// memory usage are set; the counters restarts, CPU time, bytes received and
/// sent, and bytes read and written are advanced by the sample's totals.
pub open spec fn sample_changes(m: DockerContainerMetrics) -> Seq<(DockerMetric, MetricChange)> {
    let health: Seq<(DockerMetric, MetricChange)> = match m.health_status {
        Some(h) => seq![(DockerMetric::HealthStatus, MetricChange::SetTo(h))],
        None => seq![],
    };
    seq![(DockerMetric::State, MetricChange::SetTo(m.state))] + health + seq![
        (DockerMetric::LastExitCode, MetricChange::SetTo(m.last_exit_code)),
        (DockerMetric::UptimeSeconds, MetricChange::SetTo(m.uptime_seconds)),
        (DockerMetric::MemLimitBytes, MetricChange::SetTo(m.mem_limit_bytes)),
        (DockerMetric::MemUsageBytes, MetricChange::SetTo(m.mem_usage_bytes)),
        (DockerMetric::RestartCount, MetricChange::Add(m.restart_count)),
        (DockerMetric::CpuSecondsTotal, MetricChange::AddNanoseconds(m.cpu_usage_nanoseconds)),
        (DockerMetric::NetReceiveBytesTotal, MetricChange::Add(m.net_receive_bytes_total)),
        (DockerMetric::NetTransmitBytesTotal, MetricChange::Add(m.net_transmit_bytes_total)),
        (DockerMetric::BlkioReadBytesTotal, MetricChange::Add(m.blkio_read_bytes_total)),
        (DockerMetric::BlkioWriteBytesTotal, MetricChange::Add(m.blkio_write_bytes_total)),
    ]
}

/// The updates a sample makes: its changes, each labelled with the sample's
/// container id, name and image.
pub open spec fn sample_updates(m: DockerContainerMetrics) -> Seq<(DockerMetric, Seq<char>, Seq<char>, Seq<char>, MetricChange)> {
    sample_changes(m).map_values(
        |c: (DockerMetric, MetricChange)| (c.0, m.container_id@, m.container_name@, m.image@, c.1),
    )
}

/// The updates of the samples, sample after sample.
pub open spec fn all_updates(samples: Seq<DockerContainerMetrics>) -> Seq<(DockerMetric, Seq<char>, Seq<char>, Seq<char>, MetricChange)>
    decreases samples.len(),
{
    if samples.len() == 0 {
        seq![]
    } else {
        all_updates(samples.drop_last()) + sample_updates(samples.last())
    }
}

/// A change of the kind its family takes: a gauge is set, a counter is
/// advanced, and only the CPU time counter is advanced by nanoseconds.
pub open spec fn kind_matches(metric: DockerMetric, change: MetricChange) -> bool {
    &&& metric_is_counter(metric) <==> !(change is SetTo)
    &&& change is AddNanoseconds ==> metric == DockerMetric::CpuSecondsTotal
}

proof fn lemma_updates_kind_matches(samples: Seq<DockerContainerMetrics>)
    ensures
        forall|i: int|
            0 <= i < all_updates(samples).len() ==> kind_matches(
                (#[trigger] all_updates(samples)[i]).0,
                all_updates(samples)[i].4,
            ),
    decreases samples.len(),
{
    if samples.len() > 0 {
        lemma_updates_kind_matches(samples.drop_last());
        let prev = all_updates(samples.drop_last());
        let m = samples.last();
        let cs = sample_changes(m);
        let su = sample_updates(m);
        assert forall|j: int| 0 <= j < cs.len() implies kind_matches((#[trigger] cs[j]).0, cs[j].1) by {
            match m.health_status {
                Some(h) => {},
                None => {},
            }
        }
        let all = all_updates(samples);
        assert(all == prev + su);
        assert forall|i: int| 0 <= i < all.len() implies kind_matches((#[trigger] all[i]).0, all[i].4) by {
            if i < prev.len() {
                assert(all[i] == prev[i]);
            } else {
                assert(all[i] == su[i - prev.len()]);
                assert(su[i - prev.len()].0 == cs[i - prev.len()].0);
            }
        }
    }
}

fn push_update(out: &mut Vec<MetricUpdate>, m: &DockerContainerMetrics, metric: DockerMetric, change: MetricChange)
    ensures
        final(out)@.map_values(|u: MetricUpdate| u.view()) == old(out)@.map_values(|u: MetricUpdate| u.view()).push(
            (metric, m.container_id@, m.container_name@, m.image@, change),
        ),
{
    let ghost before = out@.map_values(|u: MetricUpdate| u.view());
    let u = MetricUpdate {
        metric,
        container_id: m.container_id.clone(),
        container_name: m.container_name.clone(),
        image: m.image.clone(),
        change,
    };
    out.push(u);
    assert(out@.map_values(|u: MetricUpdate| u.view()) =~= before.push(u.view()));
}

/// The changes that a collection with the samples `samples` makes to the
/// container metrics, once all series were cleared: the updates of each
/// sample, sample after sample.
pub fn docker_metric_updates(samples: &Vec<DockerContainerMetrics>) -> (r: Vec<MetricUpdate>)
    ensures
        r@.map_values(|u: MetricUpdate| u.view()) == all_updates(samples@),
        forall|i: int| 0 <= i < r.len() ==> kind_matches((#[trigger] r@[i]).metric, r@[i].change),
{
    let mut out: Vec<MetricUpdate> = Vec::new();
    let mut i: usize = 0;
    while i < samples.len()
        invariant
            i <= samples.len(),
            out@.map_values(|u: MetricUpdate| u.view()) == all_updates(samples@.take(i as int)),
        decreases samples.len() - i,
    {
        let m = &samples[i];
        assert(samples@.take(i + 1).drop_last() =~= samples@.take(i as int));
        let ghost before = out@.map_values(|u: MetricUpdate| u.view());
        push_update(&mut out, m, DockerMetric::State, MetricChange::SetTo(m.state));
        match m.health_status {
            Some(h) => push_update(&mut out, m, DockerMetric::HealthStatus, MetricChange::SetTo(h)),
            None => {},
        }
        push_update(&mut out, m, DockerMetric::LastExitCode, MetricChange::SetTo(m.last_exit_code));
        push_update(&mut out, m, DockerMetric::UptimeSeconds, MetricChange::SetTo(m.uptime_seconds));
        push_update(&mut out, m, DockerMetric::MemLimitBytes, MetricChange::SetTo(m.mem_limit_bytes));
        push_update(&mut out, m, DockerMetric::MemUsageBytes, MetricChange::SetTo(m.mem_usage_bytes));
        push_update(&mut out, m, DockerMetric::RestartCount, MetricChange::Add(m.restart_count));
        push_update(
            &mut out,
            m,
            DockerMetric::CpuSecondsTotal,
            MetricChange::AddNanoseconds(m.cpu_usage_nanoseconds),
        );
        push_update(
            &mut out,
            m,
            DockerMetric::NetReceiveBytesTotal,
            MetricChange::Add(m.net_receive_bytes_total),
        );
        push_update(
            &mut out,
            m,
            DockerMetric::NetTransmitBytesTotal,
            MetricChange::Add(m.net_transmit_bytes_total),
        );
        push_update(
            &mut out,
            m,
            DockerMetric::BlkioReadBytesTotal,
            MetricChange::Add(m.blkio_read_bytes_total),
        );
        push_update(
            &mut out,
            m,
            DockerMetric::BlkioWriteBytesTotal,
            MetricChange::Add(m.blkio_write_bytes_total),
        );
        assert(out@.map_values(|u: MetricUpdate| u.view()) =~= before + sample_updates(*m));
        i += 1;
    }
    assert(samples@.take(samples.len() as int) =~= samples@);
    proof {
        lemma_updates_kind_matches(samples@);
        assert forall|i: int| 0 <= i < out.len() implies kind_matches((#[trigger] out@[i]).metric, out@[i].change) by {
            assert(out@.map_values(|u: MetricUpdate| u.view())[i] == out@[i].view());
        }
    }
    out
}

/// The updates of the samples `a` followed by `b` are those of `a` followed
/// by those of `b`: each sample is applied on its own, in order.
pub proof fn lemma_updates_of_concatenation(a: Seq<DockerContainerMetrics>, b: Seq<DockerContainerMetrics>)
    ensures
        all_updates(a + b) == all_updates(a) + all_updates(b),
    decreases b.len(),
{
    if b.len() == 0 {
        assert(a + b =~= a);
        assert(all_updates(a) + all_updates(b) =~= all_updates(a));
    } else {
        lemma_updates_of_concatenation(a, b.drop_last());
        assert((a + b).drop_last() =~= a + b.drop_last());
        assert((a + b).last() == b.last());
        assert(all_updates(a) + all_updates(b) =~= (all_updates(a) + all_updates(b.drop_last()))
            + sample_updates(b.last()));
    }
}

/// What one sample `m` does to the container metrics: every update carries
/// `m`'s labels, no family is updated twice, and each family gets the field
/// of `m` it is named for: the gauges state, last exit code, uptime, memory
/// limit and memory usage are set to `m`'s values, the health gauge is set
/// to `m`'s health exactly when it has one, and the counters restarts, CPU
/// time (in nanoseconds), bytes received, bytes sent, bytes read and bytes
/// written are advanced by `m`'s totals of the same names.
pub proof fn lemma_sample_updates_carry_their_fields(m: DockerContainerMetrics)
    ensures
        ({
            let u = all_updates(seq![m]);
            &&& u.len() == (if m.health_status is Some { 12int } else { 11int })
            &&& forall|i: int|
                0 <= i < u.len() ==> (#[trigger] u[i]).1 == m.container_id@ && u[i].2 == m.container_name@
                    && u[i].3 == m.image@
            &&& forall|i: int, j: int| 0 <= i < j < u.len() ==> (#[trigger] u[i]).0 != (#[trigger] u[j]).0
            &&& exists|i: int| 0 <= i < u.len() && #[trigger] u[i].0 == DockerMetric::State && u[i].4 == MetricChange::SetTo(m.state)
            &&& exists|i: int| 0 <= i < u.len() && #[trigger] u[i].0 == DockerMetric::LastExitCode && u[i].4 == MetricChange::SetTo(m.last_exit_code)
            &&& exists|i: int| 0 <= i < u.len() && #[trigger] u[i].0 == DockerMetric::UptimeSeconds && u[i].4 == MetricChange::SetTo(m.uptime_seconds)
            &&& exists|i: int| 0 <= i < u.len() && #[trigger] u[i].0 == DockerMetric::MemLimitBytes && u[i].4 == MetricChange::SetTo(m.mem_limit_bytes)
            &&& exists|i: int| 0 <= i < u.len() && #[trigger] u[i].0 == DockerMetric::MemUsageBytes && u[i].4 == MetricChange::SetTo(m.mem_usage_bytes)
            &&& exists|i: int| 0 <= i < u.len() && #[trigger] u[i].0 == DockerMetric::RestartCount && u[i].4 == MetricChange::Add(m.restart_count)
            &&& exists|i: int| 0 <= i < u.len() && #[trigger] u[i].0 == DockerMetric::CpuSecondsTotal && u[i].4 == MetricChange::AddNanoseconds(m.cpu_usage_nanoseconds)
            &&& exists|i: int| 0 <= i < u.len() && #[trigger] u[i].0 == DockerMetric::NetReceiveBytesTotal && u[i].4 == MetricChange::Add(m.net_receive_bytes_total)
            &&& exists|i: int| 0 <= i < u.len() && #[trigger] u[i].0 == DockerMetric::NetTransmitBytesTotal && u[i].4 == MetricChange::Add(m.net_transmit_bytes_total)
            &&& exists|i: int| 0 <= i < u.len() && #[trigger] u[i].0 == DockerMetric::BlkioReadBytesTotal && u[i].4 == MetricChange::Add(m.blkio_read_bytes_total)
            &&& exists|i: int| 0 <= i < u.len() && #[trigger] u[i].0 == DockerMetric::BlkioWriteBytesTotal && u[i].4 == MetricChange::Add(m.blkio_write_bytes_total)
            &&& (exists|i: int| 0 <= i < u.len() && #[trigger] u[i].0 == DockerMetric::HealthStatus) <==> m.health_status is Some
            &&& m.health_status matches Some(h) ==> exists|i: int| 0 <= i < u.len() && #[trigger] u[i].0 == DockerMetric::HealthStatus && u[i].4 == MetricChange::SetTo(h)
        }),
{
    let u = all_updates(seq![m]);
    assert(seq![m].drop_last() =~= Seq::<DockerContainerMetrics>::empty());
    assert(seq![m].last() == m);
    assert(u == all_updates(seq![m].drop_last()) + sample_updates(seq![m].last()));
    assert(all_updates(seq![m].drop_last()).len() == 0);
    assert(u =~= sample_updates(m));
    let id = m.container_id@;
    let nm = m.container_name@;
    let im = m.image@;
    let tail = seq![
        (DockerMetric::LastExitCode, id, nm, im, MetricChange::SetTo(m.last_exit_code)),
        (DockerMetric::UptimeSeconds, id, nm, im, MetricChange::SetTo(m.uptime_seconds)),
        (DockerMetric::MemLimitBytes, id, nm, im, MetricChange::SetTo(m.mem_limit_bytes)),
        (DockerMetric::MemUsageBytes, id, nm, im, MetricChange::SetTo(m.mem_usage_bytes)),
        (DockerMetric::RestartCount, id, nm, im, MetricChange::Add(m.restart_count)),
        (DockerMetric::CpuSecondsTotal, id, nm, im, MetricChange::AddNanoseconds(m.cpu_usage_nanoseconds)),
        (DockerMetric::NetReceiveBytesTotal, id, nm, im, MetricChange::Add(m.net_receive_bytes_total)),
        (DockerMetric::NetTransmitBytesTotal, id, nm, im, MetricChange::Add(m.net_transmit_bytes_total)),
        (DockerMetric::BlkioReadBytesTotal, id, nm, im, MetricChange::Add(m.blkio_read_bytes_total)),
        (DockerMetric::BlkioWriteBytesTotal, id, nm, im, MetricChange::Add(m.blkio_write_bytes_total)),
    ];
    let head = seq![(DockerMetric::State, id, nm, im, MetricChange::SetTo(m.state))];
    match m.health_status {
        Some(h) => {
            let full = head + seq![(DockerMetric::HealthStatus, id, nm, im, MetricChange::SetTo(h))] + tail;
            assert(u =~= full);
            assert(u[0].0 == DockerMetric::State);
            assert(u[1].0 == DockerMetric::HealthStatus);
            assert(u[2].0 == DockerMetric::LastExitCode);
            assert(u[3].0 == DockerMetric::UptimeSeconds);
            assert(u[4].0 == DockerMetric::MemLimitBytes);
            assert(u[5].0 == DockerMetric::MemUsageBytes);
            assert(u[6].0 == DockerMetric::RestartCount);
            assert(u[7].0 == DockerMetric::CpuSecondsTotal);
            assert(u[8].0 == DockerMetric::NetReceiveBytesTotal);
            assert(u[9].0 == DockerMetric::NetTransmitBytesTotal);
            assert(u[10].0 == DockerMetric::BlkioReadBytesTotal);
            assert(u[11].0 == DockerMetric::BlkioWriteBytesTotal);
        },
        None => {
            let full = head + tail;
            assert(u =~= full);
            assert(u[0].0 == DockerMetric::State);
            assert(u[1].0 == DockerMetric::LastExitCode);
            assert(u[2].0 == DockerMetric::UptimeSeconds);
            assert(u[3].0 == DockerMetric::MemLimitBytes);
            assert(u[4].0 == DockerMetric::MemUsageBytes);
            assert(u[5].0 == DockerMetric::RestartCount);
            assert(u[6].0 == DockerMetric::CpuSecondsTotal);
            assert(u[7].0 == DockerMetric::NetReceiveBytesTotal);
            assert(u[8].0 == DockerMetric::NetTransmitBytesTotal);
            assert(u[9].0 == DockerMetric::BlkioReadBytesTotal);
            assert(u[10].0 == DockerMetric::BlkioWriteBytesTotal);
        },
    }
}

} // verus!

//! Host statistics read from the proc file system: load averages, memory,
//! network traffic per device, CPU time per mode and the boot time.
//!
//! The functions here take the text of a proc file and say what each metric
//! is set to or advanced by; reading the files and turning number texts
//! that hold fractions into floating-point values is left to the caller.
use crate::counters::{increment_from, CounterState};
use crate::text::{
    chars_eq, chars_of, lines, parse_u64, parse_unsigned, remove_char, remove_char_chars,
    seqs_of, slice_chars, split_lines, split_words, string_from_chars, words,
};
use vstd::prelude::*;

verus! {

// ---------------------------------------------------------------------------
// The host metric families
// ---------------------------------------------------------------------------

/// The metric families exported for the host.
#[derive(Debug, Clone, Copy, PartialEq, Eq, Structural)]
pub enum NodeMetric {
    CpuSecondsTotal,
    MemoryBytes,
    Load1,
    Load5,
    Load15,
    NetworkReceiveBytesTotal,
    NetworkTransmitBytesTotal,
    BootTimeSeconds,
}

/// The exported name, help text and label names of each family.
pub open spec fn node_metric_info(m: NodeMetric) -> (Seq<char>, Seq<char>, Seq<Seq<char>>) {
    match m {
        NodeMetric::CpuSecondsTotal => (
            "node_cpu_seconds_total"@,
            "Seconds the CPUs spent in each mode"@,
            seq!["cpu"@, "mode"@],
        ),
        NodeMetric::MemoryBytes => ("node_memory_bytes"@, "Memory information in bytes"@, seq!["type"@]),
        NodeMetric::Load1 => ("node_load1"@, "1m load average"@, seq![]),
        NodeMetric::Load5 => ("node_load5"@, "5m load average"@, seq![]),
        NodeMetric::Load15 => ("node_load15"@, "15m load average"@, seq![]),
        NodeMetric::NetworkReceiveBytesTotal => (
            "node_network_receive_bytes_total"@,
            "Network device statistic receive_bytes"@,
            seq!["device"@],
        ),
        NodeMetric::NetworkTransmitBytesTotal => (
            "node_network_transmit_bytes_total"@,
            "Network device statistic transmit_bytes"@,
            seq!["device"@],
        ),
        NodeMetric::BootTimeSeconds => ("node_boot_time_seconds"@, "Node boot time, in unixtime."@, seq![]),
    }
}

/// The characters of each text of a sequence.
pub open spec fn strs_view(v: Seq<&'static str>) -> Seq<Seq<char>> {
    v.map_values(|x: &'static str| x@)
}

impl NodeMetric {
    /// The exported name of the family.
    pub fn name(&self) -> (n: &'static str)
        ensures
            n@ == node_metric_info(*self).0,
            *self == NodeMetric::CpuSecondsTotal ==> n@ == "node_cpu_seconds_total"@,
            *self == NodeMetric::MemoryBytes ==> n@ == "node_memory_bytes"@,
            *self == NodeMetric::Load1 ==> n@ == "node_load1"@,
            *self == NodeMetric::Load5 ==> n@ == "node_load5"@,
            *self == NodeMetric::Load15 ==> n@ == "node_load15"@,
            *self == NodeMetric::NetworkReceiveBytesTotal ==> n@ == "node_network_receive_bytes_total"@,
            *self == NodeMetric::NetworkTransmitBytesTotal ==> n@ == "node_network_transmit_bytes_total"@,
            *self == NodeMetric::BootTimeSeconds ==> n@ == "node_boot_time_seconds"@,
    {
        match self {
            NodeMetric::CpuSecondsTotal => "node_cpu_seconds_total",
            NodeMetric::MemoryBytes => "node_memory_bytes",
            NodeMetric::Load1 => "node_load1",
            NodeMetric::Load5 => "node_load5",
            NodeMetric::Load15 => "node_load15",
            NodeMetric::NetworkReceiveBytesTotal => "node_network_receive_bytes_total",
            NodeMetric::NetworkTransmitBytesTotal => "node_network_transmit_bytes_total",
            NodeMetric::BootTimeSeconds => "node_boot_time_seconds",
        }
    }

    /// The help text of the family.
    pub fn help(&self) -> (h: &'static str)
        ensures
            h@ == node_metric_info(*self).1,
    {
        match self {
            NodeMetric::CpuSecondsTotal => "Seconds the CPUs spent in each mode",
            NodeMetric::MemoryBytes => "Memory information in bytes",
            NodeMetric::Load1 => "1m load average",
            NodeMetric::Load5 => "5m load average",
            NodeMetric::Load15 => "15m load average",
            NodeMetric::NetworkReceiveBytesTotal => "Network device statistic receive_bytes",
            NodeMetric::NetworkTransmitBytesTotal => "Network device statistic transmit_bytes",
            NodeMetric::BootTimeSeconds => "Node boot time, in unixtime.",
        }
    }

    /// The label names of the family's series; none for a single series.
    pub fn labels(&self) -> (l: Vec<&'static str>)
        ensures
            strs_view(l@) == node_metric_info(*self).2,
    {
        let l: Vec<&'static str> = match self {
            NodeMetric::CpuSecondsTotal => vec!["cpu", "mode"],
            NodeMetric::MemoryBytes => vec!["type"],
            NodeMetric::NetworkReceiveBytesTotal | NodeMetric::NetworkTransmitBytesTotal => vec!["device"],
            _ => Vec::new(),
        };
        assert(strs_view(l@) =~= node_metric_info(*self).2);
        l
    }
}

/// Each load average family is named for the window its help text gives:
/// `node_load<w>` with help `<w>m load average`, for the windows 1, 5 and
/// 15 minutes of the first three words of `/proc/loadavg`.
pub proof fn lemma_load_families_match_their_windows()
    ensures
        node_metric_info(NodeMetric::Load1).0 == "node_load"@ + "1"@,
        node_metric_info(NodeMetric::Load1).1 == "1"@ + "m load average"@,
        node_metric_info(NodeMetric::Load5).0 == "node_load"@ + "5"@,
        node_metric_info(NodeMetric::Load5).1 == "5"@ + "m load average"@,
        node_metric_info(NodeMetric::Load15).0 == "node_load"@ + "15"@,
        node_metric_info(NodeMetric::Load15).1 == "15"@ + "m load average"@,
{
    reveal_strlit("node_load");
    reveal_strlit("1");
    reveal_strlit("5");
    reveal_strlit("15");
    reveal_strlit("m load average");
    reveal_strlit("node_load1");
    reveal_strlit("node_load5");
    reveal_strlit("node_load15");
    reveal_strlit("1m load average");
    reveal_strlit("5m load average");
    reveal_strlit("15m load average");
    assert("node_load1"@ =~= "node_load"@ + "1"@);
    assert("node_load5"@ =~= "node_load"@ + "5"@);
    assert("node_load15"@ =~= "node_load"@ + "15"@);
    assert("1m load average"@ =~= "1"@ + "m load average"@);
    assert("5m load average"@ =~= "5"@ + "m load average"@);
    assert("15m load average"@ =~= "15"@ + "m load average"@);
}

// ---------------------------------------------------------------------------
// /proc/loadavg
// ---------------------------------------------------------------------------

/// The texts of the 1, 5 and 15 minute load averages: the first three words
/// of `/proc/loadavg`, when it has three.
pub open spec fn load_average_fields(content: Seq<char>) -> Option<(Seq<char>, Seq<char>, Seq<char>)> {
    let w = words(content);
    if w.len() >= 3 {
        Some((w[0], w[1], w[2]))
    } else {
        None
    }
}

/// The texts of the three load averages in the content of `/proc/loadavg`.
pub fn load_averages(content: &str) -> (r: Option<(String, String, String)>)
    ensures
        r matches Some((a, b, c)) ==> load_average_fields(content@) == Some((a@, b@, c@)),
        r is None ==> load_average_fields(content@) is None,
{
    let w = split_words(&chars_of(content));
    if w.len() >= 3 {
        assert(seqs_of(w@)[0] == w@[0]@ && seqs_of(w@)[1] == w@[1]@ && seqs_of(w@)[2] == w@[2]@);
        Some((string_from_chars(&w[0]), string_from_chars(&w[1]), string_from_chars(&w[2])))
    } else {
        None
    }
}

// ---------------------------------------------------------------------------
// /proc/meminfo
// ---------------------------------------------------------------------------

/// One line of `/proc/meminfo`: the name of the value without its colon,
/// the text of the number, and whether it is given in kB (and so is to be
/// multiplied by 1024 to give bytes).
pub struct MemInfoEntry {
    pub key: String,
    pub value: String,
    pub in_kib: bool,
}

impl MemInfoEntry {
    pub open spec fn view(&self) -> (Seq<char>, Seq<char>, bool) {
        (self.key@, self.value@, self.in_kib)
    }
}

/// The entry that a line of `/proc/meminfo` with the words `w` gives, when
/// it has at least two words.
pub open spec fn mem_info_line(w: Seq<Seq<char>>) -> Option<(Seq<char>, Seq<char>, bool)> {
    if w.len() >= 2 {
        Some((remove_char(w[0], ':'), w[1], w.len() == 3 && w[2] == "kB"@))
    } else {
        None
    }
}

/// The entries of the lines `ls`, in order.
pub open spec fn mem_info_scan(ls: Seq<Seq<char>>) -> Seq<(Seq<char>, Seq<char>, bool)>
    decreases ls.len(),
{
    if ls.len() == 0 {
        seq![]
    } else {
        let done = mem_info_scan(ls.drop_last());
        match mem_info_line(words(ls.last())) {
            Some(e) => done.push(e),
            None => done,
        }
    }
}

/// The entries of a `/proc/meminfo` text.
pub open spec fn mem_info_entries(content: Seq<char>) -> Seq<(Seq<char>, Seq<char>, bool)> {
    mem_info_scan(lines(content))
}

/// The entries of the content of `/proc/meminfo`, one for each line with at
/// least two words, in order.
pub fn mem_info(content: &str) -> (r: Vec<MemInfoEntry>)
    ensures
        r@.map_values(|e: MemInfoEntry| e.view()) == mem_info_entries(content@),
{
    let ls = split_lines(&chars_of(content));
    let kb = chars_of("kB");
    let mut out: Vec<MemInfoEntry> = Vec::new();
    let mut i: usize = 0;
    while i < ls.len()
        invariant
            i <= ls.len(),
            kb@ == "kB"@,
            out@.map_values(|e: MemInfoEntry| e.view()) == mem_info_scan(seqs_of(ls@).take(i as int)),
        decreases ls.len() - i,
    {
        assert(seqs_of(ls@).take(i + 1).drop_last() =~= seqs_of(ls@).take(i as int));
        let w = split_words(&ls[i]);
        let ghost ws = seqs_of(w@);
        if w.len() >= 2 {
            let in_kib = w.len() == 3 && chars_eq(&w[2], &kb);
            let e = MemInfoEntry {
                key: string_from_chars(&remove_char_chars(&w[0], ':')),
                value: string_from_chars(&w[1]),
                in_kib,
            };
            let ghost before = out@.map_values(|e: MemInfoEntry| e.view());
            assert(ws[0] == w@[0]@ && ws[1] == w@[1]@);
            assert(w.len() == 3 ==> ws[2] == w@[2]@);
            out.push(e);
            assert(out@.map_values(|e: MemInfoEntry| e.view()) =~= before.push(e.view()));
        }
        i += 1;
    }
    assert(seqs_of(ls@).take(ls.len() as int) =~= seqs_of(ls@));
    out
}

// ---------------------------------------------------------------------------
// Counter state across collections
// ---------------------------------------------------------------------------

/// The last readings of the kernel counters that the host collector exports:
/// bytes received and sent per network device, and CPU ticks per CPU and
/// mode.
pub struct NodeCounters {
    receive: CounterState,
    transmit: CounterState,
    cpu: CounterState,
}

impl NodeCounters {
    /// Last reading of bytes received, by device.
    pub closed spec fn receive_view(&self) -> Map<Seq<char>, u64> {
        self.receive.view()
    }

    /// Last reading of bytes sent, by device.
    pub closed spec fn transmit_view(&self) -> Map<Seq<char>, u64> {
        self.transmit.view()
    }

    /// Last reading of CPU ticks, by `<cpu>_<mode>`.
    pub closed spec fn cpu_view(&self) -> Map<Seq<char>, u64> {
        self.cpu.view()
    }

    /// The internal invariant of the three states.
    pub closed spec fn wf(&self) -> bool {
        self.receive.wf() && self.transmit.wf() && self.cpu.wf()
    }

    /// Counters without any reading, as when the collector starts.
    pub fn new() -> (n: NodeCounters)
        ensures
            n.wf(),
            n.receive_view() == Map::<Seq<char>, u64>::empty(),
            n.transmit_view() == Map::<Seq<char>, u64>::empty(),
            n.cpu_view() == Map::<Seq<char>, u64>::empty(),
    {
        NodeCounters {
            receive: CounterState::new(),
            transmit: CounterState::new(),
            cpu: CounterState::new(),
        }
    }
}

// ---------------------------------------------------------------------------
// /proc/net/dev
// ---------------------------------------------------------------------------

/// What one line of `/proc/net/dev` gives: the device (its name without
/// colons), and how far its received and sent byte counters advance; `None`
/// for a column whose text is not a number.
pub struct NetDevSample {
    pub device: String,
    pub receive: Option<u64>,
    pub transmit: Option<u64>,
}

impl NetDevSample {
    pub open spec fn view(&self) -> (Seq<char>, Option<u64>, Option<u64>) {
        (self.device@, self.receive, self.transmit)
    }
}

/// How far the counter `key` advances at a reading `value`, when `value`
/// is a number.
pub open spec fn advance_if(state: Map<Seq<char>, u64>, key: Seq<char>, value: Option<nat>) -> Option<u64> {
    match value {
        Some(v) => Some(increment_from(state, key, v as u64)),
        None => None,
    }
}

/// `state` after a reading `value` of `key`, when `value` is a number.
pub open spec fn record_if(state: Map<Seq<char>, u64>, key: Seq<char>, value: Option<nat>) -> Map<Seq<char>, u64> {
    match value {
        Some(v) => state.insert(key, v as u64),
        None => state,
    }
}

/// A line of `/proc/net/dev` with the words `w`, read against the last
/// readings `rx` and `tx`: a sample when the line has at least 17 words
/// (received bytes are the second word, sent bytes the tenth), and the
/// readings afterwards.
pub open spec fn net_dev_line(w: Seq<Seq<char>>, rx: Map<Seq<char>, u64>, tx: Map<Seq<char>, u64>) -> (
    Option<(Seq<char>, Option<u64>, Option<u64>)>,
    Map<Seq<char>, u64>,
    Map<Seq<char>, u64>,
) {
    if w.len() >= 17 {
        let dev = remove_char(w[0], ':');
        let r = parse_unsigned(w[1], u64::MAX as nat);
        let t = parse_unsigned(w[9], u64::MAX as nat);
        (
            Some((dev, advance_if(rx, dev, r), advance_if(tx, dev, t))),
            record_if(rx, dev, r),
            record_if(tx, dev, t),
        )
    } else {
        (None, rx, tx)
    }
}

/// The samples of the lines `ls`, read in order, and the readings after
/// them.
pub open spec fn net_dev_scan(ls: Seq<Seq<char>>, rx: Map<Seq<char>, u64>, tx: Map<Seq<char>, u64>) -> (
    Seq<(Seq<char>, Option<u64>, Option<u64>)>,
    Map<Seq<char>, u64>,
    Map<Seq<char>, u64>,
)
    decreases ls.len(),
{
    if ls.len() == 0 {
        (seq![], rx, tx)
    } else {
        let (done, rx1, tx1) = net_dev_scan(ls.drop_last(), rx, tx);
        let (sample, rx2, tx2) = net_dev_line(words(ls.last()), rx1, tx1);
        match sample {
            Some(x) => (done.push(x), rx2, tx2),
            None => (done, rx2, tx2),
        }
    }
}

/// The lines of a text after its first two (the header of `/proc/net/dev`).
pub open spec fn data_lines(content: Seq<char>) -> Seq<Seq<char>> {
    let l = lines(content);
    if l.len() >= 2 {
        l.skip(2)
    } else {
        seq![]
    }
}

impl NodeCounters {
    /// Reads the content of `/proc/net/dev` against the last readings: one
    /// sample for each line after the header that has at least 17 words, in
    /// order; each number read becomes its device's last reading.
    pub fn observe_net_dev(&mut self, content: &str) -> (r: Vec<NetDevSample>)
        requires
            old(self).wf(),
        ensures
            final(self).wf(),
            final(self).cpu_view() == old(self).cpu_view(),
            (r@.map_values(|x: NetDevSample| x.view()), final(self).receive_view(), final(self).transmit_view())
                == net_dev_scan(data_lines(content@), old(self).receive_view(), old(self).transmit_view()),
    {
        let ls = split_lines(&chars_of(content));
        let ghost all = seqs_of(ls@);
        let ghost data = data_lines(content@);
        let mut out: Vec<NetDevSample> = Vec::new();
        if ls.len() < 2 {
            return out;
        }
        assert(data =~= all.skip(2));
        let mut i: usize = 2;
        while i < ls.len()
            invariant
                2 <= i <= ls.len(),
                all == seqs_of(ls@),
                data == all.skip(2),
                self.wf(),
                self.cpu_view() == old(self).cpu_view(),
                (out@.map_values(|x: NetDevSample| x.view()), self.receive_view(), self.transmit_view())
                    == net_dev_scan(data.take(i - 2), old(self).receive_view(), old(self).transmit_view()),
            decreases ls.len() - i,
        {
            assert(data.take(i - 1).drop_last() =~= data.take(i - 2));
            assert(data.take(i - 1).last() == ls@[i as int]@);
            let w = split_words(&ls[i]);
            let ghost ws = seqs_of(w@);
            if w.len() >= 17 {
                assert(ws[0] == w@[0]@ && ws[1] == w@[1]@ && ws[9] == w@[9]@);
                let dev = string_from_chars(&remove_char_chars(&w[0], ':'));
                let receive = match parse_u64(&w[1]) {
                    Some(v) => Some(self.receive.observe(dev.clone(), v)),
                    None => None,
                };
                let transmit = match parse_u64(&w[9]) {
                    Some(v) => Some(self.transmit.observe(dev.clone(), v)),
                    None => None,
                };
                let sample = NetDevSample { device: dev, receive, transmit };
                let ghost before = out@.map_values(|x: NetDevSample| x.view());
                out.push(sample);
                assert(out@.map_values(|x: NetDevSample| x.view()) =~= before.push(sample.view()));
            }
            i += 1;
        }
        assert(data.take(ls.len() - 2) =~= data);
        out
    }
}

/// The device a line of `/proc/net/dev` is about, when it has the 17 words
/// of a device line.
pub open spec fn line_device(line: Seq<char>) -> Option<Seq<char>> {
    let w = words(line);
    if w.len() >= 17 {
        Some(remove_char(w[0], ':'))
    } else {
        None
    }
}

/// No two device lines of `ls` name the same device.
pub open spec fn distinct_devices(ls: Seq<Seq<char>>) -> bool {
    forall|i: int, j: int|
        0 <= i < j < ls.len() && (#[trigger] line_device(ls[i])) is Some ==> line_device(ls[i])
            != #[trigger] line_device(ls[j])
}

proof fn lemma_scan_keeps_other_devices(
    ls: Seq<Seq<char>>,
    rx: Map<Seq<char>, u64>,
    tx: Map<Seq<char>, u64>,
    n: int,
    d: Seq<char>,
)
    requires
        0 <= n <= ls.len(),
        forall|j: int| 0 <= j < n ==> line_device(#[trigger] ls[j]) != Some(d),
    ensures
        ({
            let (_, rx2, tx2) = net_dev_scan(ls.take(n), rx, tx);
            &&& rx2.dom().contains(d) == rx.dom().contains(d)
            &&& rx.dom().contains(d) ==> rx2[d] == rx[d]
            &&& tx2.dom().contains(d) == tx.dom().contains(d)
            &&& tx.dom().contains(d) ==> tx2[d] == tx[d]
        }),
    decreases n,
{
    if n > 0 {
        lemma_scan_keeps_other_devices(ls, rx, tx, n - 1, d);
        assert(ls.take(n).drop_last() =~= ls.take(n - 1));
        assert(ls.take(n).last() == ls[n - 1]);
        assert(line_device(ls[n - 1]) != Some(d));
    }
}

proof fn lemma_scan_records_device(
    ls: Seq<Seq<char>>,
    rx: Map<Seq<char>, u64>,
    tx: Map<Seq<char>, u64>,
    n: int,
    k: int,
)
    requires
        0 <= k < n <= ls.len(),
        distinct_devices(ls),
        line_device(ls[k]) is Some,
    ensures
        ({
            let (_, rx2, tx2) = net_dev_scan(ls.take(n), rx, tx);
            let w = words(ls[k]);
            let d = line_device(ls[k])->0;
            &&& parse_unsigned(w[1], u64::MAX as nat) matches Some(v) ==> rx2.dom().contains(d)
                && rx2[d] == v as u64
            &&& parse_unsigned(w[9], u64::MAX as nat) matches Some(v) ==> tx2.dom().contains(d)
                && tx2[d] == v as u64
        }),
    decreases n,
{
    assert(ls.take(n).drop_last() =~= ls.take(n - 1));
    assert(ls.take(n).last() == ls[n - 1]);
    if n > k + 1 {
        lemma_scan_records_device(ls, rx, tx, n - 1, k);
        assert(line_device(ls[k]) != line_device(ls[n - 1]));
    }
}

/// Reading the same `/proc/net/dev` text twice in a row, with each device
/// on one line, the second reading advances no counter.
pub proof fn lemma_repeated_net_dev_reading_advances_nothing(
    content: Seq<char>,
    rx: Map<Seq<char>, u64>,
    tx: Map<Seq<char>, u64>,
)
    requires
        distinct_devices(data_lines(content)),
    ensures
        ({
            let (_, rx1, tx1) = net_dev_scan(data_lines(content), rx, tx);
            let (again, _, _) = net_dev_scan(data_lines(content), rx1, tx1);
            forall|m: int|
                0 <= m < again.len() ==> ((#[trigger] again[m]).1 is None || again[m].1 == Some(0u64))
                    && (again[m].2 is None || again[m].2 == Some(0u64))
        }),
{
    let ls = data_lines(content);
    let (_, rx1, tx1) = net_dev_scan(ls, rx, tx);
    lemma_second_scan_zero(ls, rx, tx, rx1, tx1, ls.len() as int);
    assert(ls.take(ls.len() as int) =~= ls);
}

/// The first reading of a `/proc/net/dev` text, with each device on one
/// line, advances no counter: there is no earlier reading to count from.
pub proof fn lemma_first_net_dev_reading_advances_nothing(content: Seq<char>)
    requires
        distinct_devices(data_lines(content)),
    ensures
        ({
            let (first, _, _) = net_dev_scan(
                data_lines(content),
                Map::<Seq<char>, u64>::empty(),
                Map::<Seq<char>, u64>::empty(),
            );
            forall|m: int|
                0 <= m < first.len() ==> ((#[trigger] first[m]).1 is None || first[m].1 == Some(0u64))
                    && (first[m].2 is None || first[m].2 == Some(0u64))
        }),
{
    let ls = data_lines(content);
    lemma_first_scan_zero(ls, ls.len() as int);
    assert(ls.take(ls.len() as int) =~= ls);
}

proof fn lemma_first_scan_zero(ls: Seq<Seq<char>>, n: int)
    requires
        0 <= n <= ls.len(),
        distinct_devices(ls),
    ensures
        ({
            let (first, _, _) = net_dev_scan(
                ls.take(n),
                Map::<Seq<char>, u64>::empty(),
                Map::<Seq<char>, u64>::empty(),
            );
            forall|m: int|
                0 <= m < first.len() ==> ((#[trigger] first[m]).1 is None || first[m].1 == Some(0u64))
                    && (first[m].2 is None || first[m].2 == Some(0u64))
        }),
    decreases n,
{
    if n > 0 {
        let empty = Map::<Seq<char>, u64>::empty();
        lemma_first_scan_zero(ls, n - 1);
        assert(ls.take(n).drop_last() =~= ls.take(n - 1));
        assert(ls.take(n).last() == ls[n - 1]);
        let (done, rxs, txs) = net_dev_scan(ls.take(n - 1), empty, empty);
        if let Some(d) = line_device(ls[n - 1]) {
            let k = n - 1;
            assert forall|j: int| 0 <= j < k implies line_device(#[trigger] ls[j]) != Some(d) by {
                if line_device(ls[j]) is Some {
                    assert(line_device(ls[j]) != line_device(ls[k]));
                }
            }
            lemma_scan_keeps_other_devices(ls, empty, empty, k, d);
            let (first, _, _) = net_dev_scan(ls.take(n), empty, empty);
            assert forall|m: int|
                0 <= m < first.len() implies ((#[trigger] first[m]).1 is None || first[m].1 == Some(0u64))
                && (first[m].2 is None || first[m].2 == Some(0u64)) by {
                if m < done.len() {
                    assert(first[m] == done[m]);
                }
            }
        }
    }
}

proof fn lemma_second_scan_zero(
    ls: Seq<Seq<char>>,
    rx: Map<Seq<char>, u64>,
    tx: Map<Seq<char>, u64>,
    rx1: Map<Seq<char>, u64>,
    tx1: Map<Seq<char>, u64>,
    n: int,
)
    requires
        0 <= n <= ls.len(),
        distinct_devices(ls),
        (rx1, tx1) == ({
            let (_, a, b) = net_dev_scan(ls, rx, tx);
            (a, b)
        }),
    ensures
        ({
            let (again, _, _) = net_dev_scan(ls.take(n), rx1, tx1);
            forall|m: int|
                0 <= m < again.len() ==> ((#[trigger] again[m]).1 is None || again[m].1 == Some(0u64))
                    && (again[m].2 is None || again[m].2 == Some(0u64))
        }),
    decreases n,
{
    if n > 0 {
        lemma_second_scan_zero(ls, rx, tx, rx1, tx1, n - 1);
        assert(ls.take(n).drop_last() =~= ls.take(n - 1));
        assert(ls.take(n).last() == ls[n - 1]);
        let (done, rxs, txs) = net_dev_scan(ls.take(n - 1), rx1, tx1);
        if let Some(d) = line_device(ls[n - 1]) {
            let k = n - 1;
            assert forall|j: int| 0 <= j < k implies line_device(#[trigger] ls[j]) != Some(d) by {
                if line_device(ls[j]) is Some {
                    assert(line_device(ls[j]) != line_device(ls[k]));
                }
            }
            lemma_scan_keeps_other_devices(ls, rx1, tx1, k, d);
            lemma_scan_records_device(ls, rx, tx, ls.len() as int, k);
            assert(ls.take(ls.len() as int) =~= ls);
            let (again, _, _) = net_dev_scan(ls.take(n), rx1, tx1);
            assert forall|m: int|
                0 <= m < again.len() implies ((#[trigger] again[m]).1 is None || again[m].1 == Some(0u64))
                && (again[m].2 is None || again[m].2 == Some(0u64)) by {
                if m < done.len() {
                    assert(again[m] == done[m]);
                }
            }
        }
    }
}

// ---------------------------------------------------------------------------
// /proc/stat
// ---------------------------------------------------------------------------

/// The CPU time modes, in the order of the columns of a `cpuN` line of
/// `/proc/stat`.
pub open spec fn cpu_modes() -> Seq<Seq<char>> {
    seq![
        "user"@,
        "nice"@,
        "system"@,
        "idle"@,
        "iowait"@,
        "irq"@,
        "softirq"@,
        "steal"@,
        "guest"@,
        "guest_nice"@,
    ]
}

/// Number of CPU time modes.
pub const CPU_MODE_COUNT: usize = 10;

/// The name of the CPU time mode of column `i` (counted from 0).
pub fn cpu_mode(i: usize) -> (m: &'static str)
    requires
        i < CPU_MODE_COUNT,
    ensures
        m@ == cpu_modes()[i as int],
{
    if i == 0 {
        "user"
    } else if i == 1 {
        "nice"
    } else if i == 2 {
        "system"
    } else if i == 3 {
        "idle"
    } else if i == 4 {
        "iowait"
    } else if i == 5 {
        "irq"
    } else if i == 6 {
        "softirq"
    } else if i == 7 {
        "steal"
    } else if i == 8 {
        "guest"
    } else {
        "guest_nice"
    }
}

/// Whether `s` starts with `p`.
pub open spec fn starts_with(s: Seq<char>, p: Seq<char>) -> bool {
    p.len() <= s.len() && s.take(p.len() as int) == p
}

/// Whether `s` starts with `p`.
pub fn starts_with_chars(s: &Vec<char>, p: &Vec<char>) -> (r: bool)
    ensures
        r == starts_with(s@, p@),
{
    if p.len() > s.len() {
        return false;
    }
    let head = slice_chars(s, 0, p.len());
    assert(s@.subrange(0, p.len() as int) =~= s@.take(p.len() as int));
    chars_eq(&head, p)
}

/// How far the CPU time of one CPU and mode advances, in clock ticks.
pub struct CpuSample {
    pub cpu: String,
    pub mode: String,
    pub ticks: u64,
}

impl CpuSample {
    pub open spec fn view(&self) -> (Seq<char>, Seq<char>, u64) {
        (self.cpu@, self.mode@, self.ticks)
    }
}

/// The name under which the ticks of `cpu` in `mode` are remembered.
pub open spec fn cpu_key(cpu: Seq<char>, mode: Seq<char>) -> Seq<char> {
    cpu + "_"@ + mode
}

/// The first `n` mode columns of a CPU line with the words `w`, read against
/// the last readings `state`: a sample for each column that is present and a
/// number, and the readings afterwards.
pub open spec fn cpu_line_scan(cpu: Seq<char>, w: Seq<Seq<char>>, n: nat, state: Map<Seq<char>, u64>) -> (
    Seq<(Seq<char>, Seq<char>, u64)>,
    Map<Seq<char>, u64>,
)
    decreases n,
{
    if n == 0 {
        (seq![], state)
    } else {
        let (done, st) = cpu_line_scan(cpu, w, (n - 1) as nat, state);
        let i = n - 1;
        let mode = cpu_modes()[i];
        if w.len() > i + 1 {
            match parse_unsigned(w[i + 1], u64::MAX as nat) {
                Some(v) => {
                    let key = cpu_key(cpu, mode);
                    (done.push((cpu, mode, increment_from(st, key, v as u64))), st.insert(key, v as u64))
                },
                None => (done, st),
            }
        } else {
            (done, st)
        }
    }
}

/// One line of `/proc/stat`: the boot time text of a `btime` line, the CPU
/// samples of a per-CPU line (one starting with `cpu` but not `cpu `), and
/// the readings afterwards.
pub open spec fn stat_line(line: Seq<char>, state: Map<Seq<char>, u64>) -> (
    Option<Seq<char>>,
    Seq<(Seq<char>, Seq<char>, u64)>,
    Map<Seq<char>, u64>,
) {
    let w = words(line);
    if starts_with(line, "btime "@) {
        (if w.len() >= 2 { Some(w[1]) } else { None }, seq![], state)
    } else if starts_with(line, "cpu"@) && !starts_with(line, "cpu "@) && w.len() > 0 {
        let (samples, st) = cpu_line_scan(w[0], w, CPU_MODE_COUNT as nat, state);
        (None, samples, st)
    } else {
        (None, seq![], state)
    }
}

/// The boot time texts and CPU samples of the lines `ls`, in order, and the
/// readings after them.
pub open spec fn stat_scan(ls: Seq<Seq<char>>, state: Map<Seq<char>, u64>) -> (
    Seq<Seq<char>>,
    Seq<(Seq<char>, Seq<char>, u64)>,
    Map<Seq<char>, u64>,
)
    decreases ls.len(),
{
    if ls.len() == 0 {
        (seq![], seq![], state)
    } else {
        let (boots, cpus, st) = stat_scan(ls.drop_last(), state);
        let (boot, more, st2) = stat_line(ls.last(), st);
        (
            match boot {
                Some(b) => boots.push(b),
                None => boots,
            },
            cpus + more,
            st2,
        )
    }
}

/// What a `/proc/stat` text gives: the boot time texts, in order (the boot
/// time gauge is set to each), and the CPU samples, in order.
pub struct StatReport {
    pub boot_times: Vec<String>,
    pub cpu: Vec<CpuSample>,
}

impl NodeCounters {
    fn observe_cpu_line(&mut self, w: &Vec<Vec<char>>, out: &mut Vec<CpuSample>)
        requires
            old(self).wf(),
            w.len() > 0,
        ensures
            final(self).wf(),
            final(self).receive_view() == old(self).receive_view(),
            final(self).transmit_view() == old(self).transmit_view(),
            ({
                let (samples, st) = cpu_line_scan(w@[0]@, seqs_of(w@), CPU_MODE_COUNT as nat, old(self).cpu_view());
                &&& final(out)@.map_values(|x: CpuSample| x.view()) == old(out)@.map_values(|x: CpuSample| x.view()) + samples
                &&& final(self).cpu_view() == st
            }),
    {
        let ghost ws = seqs_of(w@);
        let ghost cpu = w@[0]@;
        let ghost start = out@.map_values(|x: CpuSample| x.view());
        let cpu_name = string_from_chars(&w[0]);
        let mut i: usize = 0;
        while i < CPU_MODE_COUNT
            invariant
                i <= CPU_MODE_COUNT,
                w.len() > 0,
                ws == seqs_of(w@),
                cpu == w@[0]@,
                cpu_name@ == cpu,
                self.wf(),
                self.receive_view() == old(self).receive_view(),
                self.transmit_view() == old(self).transmit_view(),
                ({
                    let (samples, st) = cpu_line_scan(cpu, ws, i as nat, old(self).cpu_view());
                    &&& out@.map_values(|x: CpuSample| x.view()) == start + samples
                    &&& self.cpu_view() == st
                }),
            decreases CPU_MODE_COUNT - i,
        {
            if w.len() > i + 1 {
                assert(ws[i + 1] == w@[i + 1]@);
                match parse_u64(&w[i + 1]) {
                    Some(v) => {
                        let mode = cpu_mode(i);
                        let mut key = cpu_name.clone();
                        crate::text::push_chars(&mut key, &chars_of("_"));
                        crate::text::push_chars(&mut key, &chars_of(mode));
                        let ticks = self.cpu.observe(key, v);
                        let sample = CpuSample { cpu: cpu_name.clone(), mode: mode.to_owned(), ticks };
                        let ghost before = out@.map_values(|x: CpuSample| x.view());
                        out.push(sample);
                        assert(out@.map_values(|x: CpuSample| x.view()) =~= before.push(sample.view()));
                        let ghost (samples, st) = cpu_line_scan(cpu, ws, i as nat, old(self).cpu_view());
                        assert(start + samples.push(sample.view()) =~= (start + samples).push(sample.view()));
                    },
                    None => {},
                }
            }
            i += 1;
        }
    }

    /// Reads the content of `/proc/stat` against the last CPU readings: the
    /// boot time text of each `btime` line, and a sample for each mode column
    /// of each per-CPU line that is a number; each number read becomes the
    /// last reading of its CPU and mode.
    pub fn observe_stat(&mut self, content: &str) -> (r: StatReport)
        requires
            old(self).wf(),
        ensures
            final(self).wf(),
            final(self).receive_view() == old(self).receive_view(),
            final(self).transmit_view() == old(self).transmit_view(),
            (seqs_of_strings(r.boot_times@), r.cpu@.map_values(|x: CpuSample| x.view()), final(self).cpu_view())
                == stat_scan(lines(content@), old(self).cpu_view()),
    {
        let ls = split_lines(&chars_of(content));
        let ghost all = seqs_of(ls@);
        let btime = chars_of("btime ");
        let cpu_prefix = chars_of("cpu");
        let cpu_space = chars_of("cpu ");
        let mut boots: Vec<String> = Vec::new();
        let mut cpus: Vec<CpuSample> = Vec::new();
        let mut i: usize = 0;
        while i < ls.len()
            invariant
                i <= ls.len(),
                all == seqs_of(ls@),
                btime@ == "btime "@,
                cpu_prefix@ == "cpu"@,
                cpu_space@ == "cpu "@,
                self.wf(),
                self.receive_view() == old(self).receive_view(),
                self.transmit_view() == old(self).transmit_view(),
                (seqs_of_strings(boots@), cpus@.map_values(|x: CpuSample| x.view()), self.cpu_view())
                    == stat_scan(all.take(i as int), old(self).cpu_view()),
            decreases ls.len() - i,
        {
            assert(all.take(i + 1).drop_last() =~= all.take(i as int));
            let line = &ls[i];
            let w = split_words(line);
            let ghost ws = seqs_of(w@);
            let ghost cpus_before = cpus@.map_values(|x: CpuSample| x.view());
            if starts_with_chars(line, &btime) {
                if w.len() >= 2 {
                    assert(ws[1] == w@[1]@);
                    let ghost before = seqs_of_strings(boots@);
                    let b = string_from_chars(&w[1]);
                    boots.push(b);
                    assert(seqs_of_strings(boots@) =~= before.push(b@));
                }
                assert(cpus_before + seq![] =~= cpus_before);
            } else if starts_with_chars(line, &cpu_prefix) && !starts_with_chars(line, &cpu_space)
                && w.len() > 0 {
                self.observe_cpu_line(&w, &mut cpus);
            } else {
                assert(cpus_before + seq![] =~= cpus_before);
            }
            i += 1;
        }
        assert(all.take(ls.len() as int) =~= all);
        StatReport { boot_times: boots, cpu: cpus }
    }
}

/// The characters of each string of a sequence.
pub open spec fn seqs_of_strings(v: Seq<String>) -> Seq<Seq<char>> {
    v.map_values(|x: String| x@)
}

/// The name of the CPU a line of `/proc/stat` is about, when it is a per-CPU
/// line.
pub open spec fn cpu_line_name(line: Seq<char>) -> Option<Seq<char>> {
    let w = words(line);
    if !starts_with(line, "btime "@) && starts_with(line, "cpu"@) && !starts_with(line, "cpu "@)
        && w.len() > 0 {
        Some(w[0])
    } else {
        None
    }
}

/// The name under which the reading of mode `a` of line `i` is remembered.
pub open spec fn line_key(ls: Seq<Seq<char>>, i: int, a: int) -> Seq<char> {
    cpu_key(cpu_line_name(ls[i])->0, cpu_modes()[a])
}

/// No reading name of one per-CPU line of `ls` is also one of another line.
pub open spec fn distinct_cpu_keys(ls: Seq<Seq<char>>) -> bool {
    forall|i: int, j: int, a: int, b: int|
        0 <= i < j < ls.len() && 0 <= a < CPU_MODE_COUNT && 0 <= b < CPU_MODE_COUNT
            && cpu_line_name(ls[i]) is Some && cpu_line_name(ls[j]) is Some
            ==> #[trigger] line_key(ls, i, a) != #[trigger] line_key(ls, j, b)
}

pub(crate) proof fn lemma_cpu_modes_distinct(a: int, b: int)
    requires
        0 <= a < CPU_MODE_COUNT,
        0 <= b < CPU_MODE_COUNT,
        a != b,
    ensures
        cpu_modes()[a] != cpu_modes()[b],
{
    reveal_strlit("user");
    reveal_strlit("nice");
    reveal_strlit("system");
    reveal_strlit("idle");
    reveal_strlit("iowait");
    reveal_strlit("irq");
    reveal_strlit("softirq");
    reveal_strlit("steal");
    reveal_strlit("guest");
    reveal_strlit("guest_nice");
    let m = cpu_modes();
    assert(m[a].len() != m[b].len() || m[a][0] != m[b][0]);
}

pub(crate) proof fn lemma_cpu_key_injective(cpu: Seq<char>, m1: Seq<char>, m2: Seq<char>)
    requires
        cpu_key(cpu, m1) == cpu_key(cpu, m2),
    ensures
        m1 == m2,
{
    let k = (cpu.len() + "_"@.len()) as int;
    assert(cpu_key(cpu, m1).skip(k) =~= m1);
    assert(cpu_key(cpu, m2).skip(k) =~= m2);
}

pub(crate) proof fn lemma_cpu_line_scan_keys(cpu: Seq<char>, w: Seq<Seq<char>>, n: nat, state: Map<Seq<char>, u64>, k: Seq<char>)
    requires
        n <= CPU_MODE_COUNT,
        forall|a: int| 0 <= a < n ==> k != cpu_key(cpu, #[trigger] cpu_modes()[a]),
    ensures
        cpu_line_scan(cpu, w, n, state).1.dom().contains(k) == state.dom().contains(k),
        state.dom().contains(k) ==> cpu_line_scan(cpu, w, n, state).1[k] == state[k],
    decreases n,
{
    if n > 0 {
        lemma_cpu_line_scan_keys(cpu, w, (n - 1) as nat, state, k);
        assert(k != cpu_key(cpu, cpu_modes()[n - 1]));
    }
}

proof fn lemma_cpu_line_scan_first(cpu: Seq<char>, w: Seq<Seq<char>>, n: nat, state: Map<Seq<char>, u64>)
    requires
        n <= CPU_MODE_COUNT,
        forall|a: int| 0 <= a < CPU_MODE_COUNT ==> !state.dom().contains(cpu_key(cpu, #[trigger] cpu_modes()[a])),
    ensures
        forall|m: int| 0 <= m < cpu_line_scan(cpu, w, n, state).0.len() ==> (#[trigger] cpu_line_scan(cpu, w, n, state).0[m]).2 == 0,
    decreases n,
{
    if n > 0 {
        let i = n - 1;
        lemma_cpu_line_scan_first(cpu, w, (n - 1) as nat, state);
        let key = cpu_key(cpu, cpu_modes()[i]);
        assert forall|a: int| 0 <= a < n - 1 implies key != cpu_key(cpu, #[trigger] cpu_modes()[a]) by {
            if key == cpu_key(cpu, cpu_modes()[a]) {
                lemma_cpu_key_injective(cpu, cpu_modes()[i], cpu_modes()[a]);
                lemma_cpu_modes_distinct(i, a);
            }
        }
        lemma_cpu_line_scan_keys(cpu, w, (n - 1) as nat, state, key);
        let (done, st) = cpu_line_scan(cpu, w, (n - 1) as nat, state);
        let out = cpu_line_scan(cpu, w, n, state).0;
        assert forall|m: int| 0 <= m < out.len() implies (#[trigger] out[m]).2 == 0 by {
            if m < done.len() {
                assert(out[m] == done[m]);
            }
        }
    }
}

proof fn lemma_stat_scan_keys(ls: Seq<Seq<char>>, n: int, state: Map<Seq<char>, u64>, k: Seq<char>)
    requires
        0 <= n <= ls.len(),
        forall|j: int, a: int|
            0 <= j < n && 0 <= a < CPU_MODE_COUNT && cpu_line_name(ls[j]) is Some ==> k
                != #[trigger] line_key(ls, j, a),
    ensures
        stat_scan(ls.take(n), state).2.dom().contains(k) == state.dom().contains(k),
        state.dom().contains(k) ==> stat_scan(ls.take(n), state).2[k] == state[k],
    decreases n,
{
    if n > 0 {
        lemma_stat_scan_keys(ls, n - 1, state, k);
        assert(ls.take(n).drop_last() =~= ls.take(n - 1));
        assert(ls.take(n).last() == ls[n - 1]);
        let line = ls[n - 1];
        let st = stat_scan(ls.take(n - 1), state).2;
        if let Some(c) = cpu_line_name(line) {
            assert forall|a: int| 0 <= a < CPU_MODE_COUNT implies k != cpu_key(c, #[trigger] cpu_modes()[a]) by {
                assert(line_key(ls, n - 1, a) == cpu_key(c, cpu_modes()[a]));
            }
            lemma_cpu_line_scan_keys(c, words(line), CPU_MODE_COUNT as nat, st, k);
        }
    }
}

proof fn lemma_stat_first_scan(ls: Seq<Seq<char>>, n: int)
    requires
        0 <= n <= ls.len(),
        distinct_cpu_keys(ls),
    ensures
        ({
            let cpus = stat_scan(ls.take(n), Map::<Seq<char>, u64>::empty()).1;
            forall|m: int| 0 <= m < cpus.len() ==> (#[trigger] cpus[m]).2 == 0
        }),
    decreases n,
{
    if n > 0 {
        let empty = Map::<Seq<char>, u64>::empty();
        lemma_stat_first_scan(ls, n - 1);
        assert(ls.take(n).drop_last() =~= ls.take(n - 1));
        assert(ls.take(n).last() == ls[n - 1]);
        let line = ls[n - 1];
        let (boots, before, st) = stat_scan(ls.take(n - 1), empty);
        let (_, more, _) = stat_line(line, st);
        if let Some(c) = cpu_line_name(line) {
            assert forall|a: int| 0 <= a < CPU_MODE_COUNT implies !st.dom().contains(
                cpu_key(c, #[trigger] cpu_modes()[a]),
            ) by {
                let k = cpu_key(c, cpu_modes()[a]);
                assert(k == line_key(ls, n - 1, a));
                assert forall|j: int, b: int|
                    0 <= j < n - 1 && 0 <= b < CPU_MODE_COUNT && cpu_line_name(ls[j]) is Some
                        implies k != #[trigger] line_key(ls, j, b) by {
                    assert(line_key(ls, j, b) != line_key(ls, n - 1, a));
                }
                lemma_stat_scan_keys(ls, n - 1, empty, k);
            }
            lemma_cpu_line_scan_first(c, words(line), CPU_MODE_COUNT as nat, st);
        }
        let cpus = stat_scan(ls.take(n), empty).1;
        assert(cpus == before + more);
        assert forall|m: int| 0 <= m < cpus.len() implies (#[trigger] cpus[m]).2 == 0 by {
            if m < before.len() {
                assert(cpus[m] == before[m]);
            } else {
                assert(cpus[m] == more[m - before.len()]);
            }
        }
    }
}

/// The first reading of a `/proc/stat` text, whose per-CPU lines name their
/// readings apart, advances no CPU time: there is no earlier reading to
/// count from.
pub proof fn lemma_first_stat_reading_advances_nothing(content: Seq<char>)
    requires
        distinct_cpu_keys(lines(content)),
    ensures
        ({
            let cpus = stat_scan(lines(content), Map::<Seq<char>, u64>::empty()).1;
            forall|m: int| 0 <= m < cpus.len() ==> (#[trigger] cpus[m]).2 == 0
        }),
{
    let ls = lines(content);
    lemma_stat_first_scan(ls, ls.len() as int);
    assert(ls.take(ls.len() as int) =~= ls);
}

proof fn lemma_cpu_line_scan_records(cpu: Seq<char>, w: Seq<Seq<char>>, n: nat, state: Map<Seq<char>, u64>, a: int)
    requires
        0 <= a < n <= CPU_MODE_COUNT,
        w.len() > a + 1,
        parse_unsigned(w[a + 1], u64::MAX as nat) is Some,
    ensures
        cpu_line_scan(cpu, w, n, state).1.dom().contains(cpu_key(cpu, cpu_modes()[a])),
        cpu_line_scan(cpu, w, n, state).1[cpu_key(cpu, cpu_modes()[a])] == parse_unsigned(
            w[a + 1],
            u64::MAX as nat,
        )->0 as u64,
    decreases n,
{
    if n > a + 1 {
        lemma_cpu_line_scan_records(cpu, w, (n - 1) as nat, state, a);
        if cpu_key(cpu, cpu_modes()[n - 1]) == cpu_key(cpu, cpu_modes()[a]) {
            lemma_cpu_key_injective(cpu, cpu_modes()[n - 1], cpu_modes()[a]);
            lemma_cpu_modes_distinct(n - 1, a);
        }
    }
}

proof fn lemma_stat_scan_records(ls: Seq<Seq<char>>, n: int, state: Map<Seq<char>, u64>, k: int, a: int)
    requires
        0 <= k < n <= ls.len(),
        0 <= a < CPU_MODE_COUNT,
        distinct_cpu_keys(ls),
        cpu_line_name(ls[k]) is Some,
        words(ls[k]).len() > a + 1,
        parse_unsigned(words(ls[k])[a + 1], u64::MAX as nat) is Some,
    ensures
        stat_scan(ls.take(n), state).2.dom().contains(line_key(ls, k, a)),
        stat_scan(ls.take(n), state).2[line_key(ls, k, a)] == parse_unsigned(
            words(ls[k])[a + 1],
            u64::MAX as nat,
        )->0 as u64,
    decreases n,
{
    assert(ls.take(n).drop_last() =~= ls.take(n - 1));
    assert(ls.take(n).last() == ls[n - 1]);
    let st = stat_scan(ls.take(n - 1), state).2;
    let key = line_key(ls, k, a);
    if n == k + 1 {
        lemma_cpu_line_scan_records(cpu_line_name(ls[k])->0, words(ls[k]), CPU_MODE_COUNT as nat, st, a);
    } else {
        lemma_stat_scan_records(ls, n - 1, state, k, a);
        if let Some(c) = cpu_line_name(ls[n - 1]) {
            assert forall|b: int| 0 <= b < CPU_MODE_COUNT implies key != cpu_key(c, #[trigger] cpu_modes()[b]) by {
                assert(line_key(ls, n - 1, b) == cpu_key(c, cpu_modes()[b]));
                assert(line_key(ls, k, a) != line_key(ls, n - 1, b));
            }
            lemma_cpu_line_scan_keys(c, words(ls[n - 1]), CPU_MODE_COUNT as nat, st, key);
        }
    }
}

proof fn lemma_cpu_line_scan_again(cpu: Seq<char>, w: Seq<Seq<char>>, n: nat, state: Map<Seq<char>, u64>)
    requires
        n <= CPU_MODE_COUNT,
        forall|a: int|
            0 <= a < CPU_MODE_COUNT && w.len() > a + 1 && parse_unsigned(w[a + 1], u64::MAX as nat) is Some
                ==> state.dom().contains(cpu_key(cpu, #[trigger] cpu_modes()[a])) && state[cpu_key(cpu, cpu_modes()[a])]
                == parse_unsigned(w[a + 1], u64::MAX as nat)->0 as u64,
    ensures
        forall|m: int| 0 <= m < cpu_line_scan(cpu, w, n, state).0.len() ==> (#[trigger] cpu_line_scan(cpu, w, n, state).0[m]).2 == 0,
    decreases n,
{
    if n > 0 {
        let i = n - 1;
        lemma_cpu_line_scan_again(cpu, w, (n - 1) as nat, state);
        let key = cpu_key(cpu, cpu_modes()[i]);
        assert forall|a: int| 0 <= a < n - 1 implies key != cpu_key(cpu, #[trigger] cpu_modes()[a]) by {
            if key == cpu_key(cpu, cpu_modes()[a]) {
                lemma_cpu_key_injective(cpu, cpu_modes()[i], cpu_modes()[a]);
                lemma_cpu_modes_distinct(i, a);
            }
        }
        lemma_cpu_line_scan_keys(cpu, w, (n - 1) as nat, state, key);
        let (done, st) = cpu_line_scan(cpu, w, (n - 1) as nat, state);
        let out = cpu_line_scan(cpu, w, n, state).0;
        assert forall|m: int| 0 <= m < out.len() implies (#[trigger] out[m]).2 == 0 by {
            if m < done.len() {
                assert(out[m] == done[m]);
            }
        }
    }
}

proof fn lemma_stat_second_scan(ls: Seq<Seq<char>>, state: Map<Seq<char>, u64>, state1: Map<Seq<char>, u64>, n: int)
    requires
        0 <= n <= ls.len(),
        distinct_cpu_keys(ls),
        state1 == stat_scan(ls, state).2,
    ensures
        ({
            let cpus = stat_scan(ls.take(n), state1).1;
            forall|m: int| 0 <= m < cpus.len() ==> (#[trigger] cpus[m]).2 == 0
        }),
    decreases n,
{
    if n > 0 {
        lemma_stat_second_scan(ls, state, state1, n - 1);
        assert(ls.take(n).drop_last() =~= ls.take(n - 1));
        assert(ls.take(n).last() == ls[n - 1]);
        assert(ls.take(ls.len() as int) =~= ls);
        let line = ls[n - 1];
        let (boots, before, st) = stat_scan(ls.take(n - 1), state1);
        let (_, more, _) = stat_line(line, st);
        if let Some(c) = cpu_line_name(line) {
            let w = words(line);
            assert forall|a: int|
                0 <= a < CPU_MODE_COUNT && w.len() > a + 1 && parse_unsigned(w[a + 1], u64::MAX as nat) is Some
                    implies st.dom().contains(cpu_key(c, #[trigger] cpu_modes()[a])) && st[cpu_key(c, cpu_modes()[a])]
                    == parse_unsigned(w[a + 1], u64::MAX as nat)->0 as u64 by {
                let k = cpu_key(c, cpu_modes()[a]);
                assert(k == line_key(ls, n - 1, a));
                lemma_stat_scan_records(ls, ls.len() as int, state, n - 1, a);
                assert forall|j: int, b: int|
                    0 <= j < n - 1 && 0 <= b < CPU_MODE_COUNT && cpu_line_name(ls[j]) is Some
                        implies k != #[trigger] line_key(ls, j, b) by {
                    assert(line_key(ls, j, b) != line_key(ls, n - 1, a));
                }
                lemma_stat_scan_keys(ls, n - 1, state1, k);
            }
            lemma_cpu_line_scan_again(c, w, CPU_MODE_COUNT as nat, st);
        }
        let cpus = stat_scan(ls.take(n), state1).1;
        assert(cpus == before + more);
        assert forall|m: int| 0 <= m < cpus.len() implies (#[trigger] cpus[m]).2 == 0 by {
            if m < before.len() {
                assert(cpus[m] == before[m]);
            } else {
                assert(cpus[m] == more[m - before.len()]);
            }
        }
    }
}

/// Reading the same `/proc/stat` text twice in a row, its per-CPU lines
/// naming their readings apart, the second reading advances no CPU time.
pub proof fn lemma_repeated_stat_reading_advances_nothing(content: Seq<char>, state: Map<Seq<char>, u64>)
    requires
        distinct_cpu_keys(lines(content)),
    ensures
        ({
            let after = stat_scan(lines(content), state).2;
            let cpus = stat_scan(lines(content), after).1;
            forall|m: int| 0 <= m < cpus.len() ==> (#[trigger] cpus[m]).2 == 0
        }),
{
    let ls = lines(content);
    let state1 = stat_scan(ls, state).2;
    lemma_stat_second_scan(ls, state, state1, ls.len() as int);
    assert(ls.take(ls.len() as int) =~= ls);
}

} // verus!

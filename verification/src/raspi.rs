//! Raspberry Pi readings: the texts of the numbers in the outputs of the
//! firmware tool `vcgencmd`, of the thermal zone file and of `df`.
//!
//! Running the tools, reading the file and turning the number texts into
//! floating-point values is left to the caller.
use crate::text::{
    after_sep, before_sep, chars_eq, find_from, lemma_after_sep, lemma_before_sep, slice_chars,
    trim_chars, chars_of, lines, remove_char, remove_char_chars, second_field, second_field_chars, seqs_of,
    split_lines, split_words, strip_prefix, strip_prefix_chars, strip_suffix,
    strip_suffix_chars, string_from_chars, trim, trim_str, words,
};
use vstd::prelude::*;

verus! {

/// The text of the CPU temperature, in thousandths of a degree Celsius, in
/// the content of `/sys/class/thermal/thermal_zone0/temp`: the content
/// without surrounding white space.
pub fn thermal_zone_field(content: &str) -> (r: String)
    ensures
        r@ == trim(content@),
{
    trim_str(content)
}

/// The output of a `vcgencmd` run as the exporter reads it: without
/// surrounding white space.
pub fn vcgencmd_output(stdout: &str) -> (r: String)
    ensures
        r@ == trim(stdout@),
{
    trim_str(stdout)
}

/// The temperature text in `temp=<value>'C`.
pub open spec fn gpu_temperature_text(output: Seq<char>) -> Option<Seq<char>> {
    match strip_prefix(output, "temp="@) {
        Some(rest) => strip_suffix(rest, "'C"@),
        None => None,
    }
}

/// The clock frequency text in `<name>=<value>`: what stands between the
/// first `=` and the next `=` or the end.
pub open spec fn cpu_clock_text(output: Seq<char>) -> Option<Seq<char>> {
    second_field(output, '=')
}

/// The voltage text in `volt=<value>V`.
pub open spec fn core_voltage_text(output: Seq<char>) -> Option<Seq<char>> {
    match strip_prefix(output, "volt="@) {
        Some(rest) => strip_suffix(rest, "V"@),
        None => None,
    }
}

fn between(output: &str, prefix: &str, suffix: &str) -> (r: Option<String>)
    ensures
        r matches Some(v) ==> (match strip_prefix(output@, prefix@) {
            Some(rest) => strip_suffix(rest, suffix@),
            None => None,
        }) == Some(v@),
        r is None ==> (match strip_prefix(output@, prefix@) {
            Some(rest) => strip_suffix(rest, suffix@),
            None => None,
        }) is None,
{
    match strip_prefix_chars(&chars_of(output), &chars_of(prefix)) {
        Some(rest) => match strip_suffix_chars(&rest, &chars_of(suffix)) {
            Some(v) => Some(string_from_chars(&v)),
            None => None,
        },
        None => None,
    }
}

/// The GPU temperature text in the output of `vcgencmd measure_temp`, when
/// it has the form `temp=<value>'C`.
pub fn gpu_temperature_field(output: &str) -> (r: Option<String>)
    ensures
        r matches Some(v) ==> gpu_temperature_text(output@) == Some(v@),
        r is None ==> gpu_temperature_text(output@) is None,
{
    between(output, "temp=", "'C")
}

/// The ARM clock text in the output of `vcgencmd measure_clock arm`, when it
/// holds a `=`.
pub fn cpu_clock_field(output: &str) -> (r: Option<String>)
    ensures
        r matches Some(v) ==> cpu_clock_text(output@) == Some(v@),
        r is None ==> cpu_clock_text(output@) is None,
{
    match second_field_chars(&chars_of(output), '=') {
        Some(v) => Some(string_from_chars(&v)),
        None => None,
    }
}

/// The core voltage text in the output of `vcgencmd measure_volts core`,
/// when it has the form `volt=<value>V`.
pub fn core_voltage_field(output: &str) -> (r: Option<String>)
    ensures
        r matches Some(v) ==> core_voltage_text(output@) == Some(v@),
        r is None ==> core_voltage_text(output@) is None,
{
    between(output, "volt=", "V")
}

/// Why the output of `df` holds no usage figure.
pub enum DiskUsageError {
    /// The output has fewer than two lines.
    TooFewLines,
    /// The second line has fewer than five words; these are its words.
    TooFewFields(Vec<String>),
}

/// The usage text in `df` output: the fifth word of the second line without
/// `%` signs; or, when there is no such word, why.
pub open spec fn disk_usage_text(output: Seq<char>) -> Result<Seq<char>, Option<Seq<Seq<char>>>> {
    let l = lines(output);
    if l.len() >= 2 {
        let w = words(l[1]);
        if w.len() >= 5 {
            Ok(remove_char(w[4], '%'))
        } else {
            Err(Some(w))
        }
    } else {
        Err(None)
    }
}

/// The percentage text of the root file system's usage in the output of
/// `df`: the fifth word of the second line without its `%`.
pub fn disk_usage_field(output: &str) -> (r: Result<String, DiskUsageError>)
    ensures
        r matches Ok(v) ==> disk_usage_text(output@) == Ok::<Seq<char>, Option<Seq<Seq<char>>>>(v@),
        r matches Err(DiskUsageError::TooFewLines) ==> disk_usage_text(output@) == Err::<Seq<char>, Option<Seq<Seq<char>>>>(None),
        r matches Err(DiskUsageError::TooFewFields(w)) ==> disk_usage_text(output@) == Err::<Seq<char>, Option<Seq<Seq<char>>>>(
            Some(w@.map_values(|x: String| x@)),
        ),
{
    let ls = split_lines(&chars_of(output));
    if ls.len() < 2 {
        return Err(DiskUsageError::TooFewLines);
    }
    assert(seqs_of(ls@)[1] == ls@[1]@);
    let w = split_words(&ls[1]);
    if w.len() >= 5 {
        assert(seqs_of(w@)[4] == w@[4]@);
        Ok(string_from_chars(&remove_char_chars(&w[4], '%')))
    } else {
        let mut parts: Vec<String> = Vec::new();
        let mut i: usize = 0;
        while i < w.len()
            invariant
                i <= w.len(),
                parts@.map_values(|x: String| x@) == seqs_of(w@).take(i as int),
            decreases w.len() - i,
        {
            let ghost before = parts@.map_values(|x: String| x@);
            let p = string_from_chars(&w[i]);
            parts.push(p);
            assert(parts@.map_values(|x: String| x@) =~= before.push(p@));
            assert(seqs_of(w@).take(i + 1) =~= seqs_of(w@).take(i as int).push(w@[i as int]@));
            i += 1;
        }
        assert(seqs_of(w@).take(w.len() as int) =~= seqs_of(w@));
        Err(DiskUsageError::TooFewFields(parts))
    }
}

// ---------------------------------------------------------------------------
// The Raspberry Pi metric families
// ---------------------------------------------------------------------------

/// The metric families exported for the Raspberry Pi.
#[derive(Debug, Clone, Copy, PartialEq, Eq, Structural)]
pub enum RaspiMetric {
    Temperature,
    GpuTemperature,
    ThermalTrip,
    CpuClock,
    CoreVoltage,
    Throttled,
    GpuMemory,
    ArmMemory,
    Info,
    DiskUsage,
}

/// The exported name, help text and label names of each family.
pub open spec fn raspi_metric_info(m: RaspiMetric) -> (Seq<char>, Seq<char>, Seq<Seq<char>>) {
    match m {
        RaspiMetric::Temperature => ("raspi_temperature_celsius"@, "CPU-Temperatur in Celsius"@, seq![]),
        RaspiMetric::GpuTemperature => ("raspi_gpu_temperature_celsius"@, "GPU-Temperatur in Celsius"@, seq![]),
        RaspiMetric::ThermalTrip => ("raspi_thermal_trip_celsius"@, "Temperatur-Grenzwerte"@, seq!["type"@]),
        RaspiMetric::CpuClock => ("raspi_cpu_clock_hz"@, "ARM-Taktfrequenz in Hz"@, seq![]),
        RaspiMetric::CoreVoltage => ("raspi_core_voltage_volts"@, "Kernspannung in Volt"@, seq![]),
        RaspiMetric::Throttled => ("raspi_throttled"@, "Throttled-Bitmask"@, seq![]),
        RaspiMetric::GpuMemory => ("raspi_gpu_memory_mb"@, "GPU-Speicher in MB"@, seq![]),
        RaspiMetric::ArmMemory => ("raspi_arm_memory_mb"@, "ARM-Speicher in MB"@, seq![]),
        RaspiMetric::Info => ("raspi_info"@, "Hardware-Informationen"@, seq!["model"@, "revision"@, "serial"@]),
        RaspiMetric::DiskUsage => ("raspi_disk_usage_percent"@, "Root FS usage percent"@, seq![]),
    }
}

impl RaspiMetric {
    /// The exported name of the family.
    pub fn name(&self) -> (n: &'static str)
        ensures
            n@ == raspi_metric_info(*self).0,
            *self == RaspiMetric::Temperature ==> n@ == "raspi_temperature_celsius"@,
            *self == RaspiMetric::GpuTemperature ==> n@ == "raspi_gpu_temperature_celsius"@,
            *self == RaspiMetric::ThermalTrip ==> n@ == "raspi_thermal_trip_celsius"@,
            *self == RaspiMetric::CpuClock ==> n@ == "raspi_cpu_clock_hz"@,
            *self == RaspiMetric::CoreVoltage ==> n@ == "raspi_core_voltage_volts"@,
            *self == RaspiMetric::Throttled ==> n@ == "raspi_throttled"@,
            *self == RaspiMetric::GpuMemory ==> n@ == "raspi_gpu_memory_mb"@,
            *self == RaspiMetric::ArmMemory ==> n@ == "raspi_arm_memory_mb"@,
            *self == RaspiMetric::Info ==> n@ == "raspi_info"@,
            *self == RaspiMetric::DiskUsage ==> n@ == "raspi_disk_usage_percent"@,
    {
        match self {
            RaspiMetric::Temperature => "raspi_temperature_celsius",
            RaspiMetric::GpuTemperature => "raspi_gpu_temperature_celsius",
            RaspiMetric::ThermalTrip => "raspi_thermal_trip_celsius",
            RaspiMetric::CpuClock => "raspi_cpu_clock_hz",
            RaspiMetric::CoreVoltage => "raspi_core_voltage_volts",
            RaspiMetric::Throttled => "raspi_throttled",
            RaspiMetric::GpuMemory => "raspi_gpu_memory_mb",
            RaspiMetric::ArmMemory => "raspi_arm_memory_mb",
            RaspiMetric::Info => "raspi_info",
            RaspiMetric::DiskUsage => "raspi_disk_usage_percent",
        }
    }

    /// The help text of the family.
    pub fn help(&self) -> (h: &'static str)
        ensures
            h@ == raspi_metric_info(*self).1,
    {
        match self {
            RaspiMetric::Temperature => "CPU-Temperatur in Celsius",
            RaspiMetric::GpuTemperature => "GPU-Temperatur in Celsius",
            RaspiMetric::ThermalTrip => "Temperatur-Grenzwerte",
            RaspiMetric::CpuClock => "ARM-Taktfrequenz in Hz",
            RaspiMetric::CoreVoltage => "Kernspannung in Volt",
            RaspiMetric::Throttled => "Throttled-Bitmask",
            RaspiMetric::GpuMemory => "GPU-Speicher in MB",
            RaspiMetric::ArmMemory => "ARM-Speicher in MB",
            RaspiMetric::Info => "Hardware-Informationen",
            RaspiMetric::DiskUsage => "Root FS usage percent",
        }
    }

    /// The label names of the family's series; none for a single series.
    pub fn labels(&self) -> (l: Vec<&'static str>)
        ensures
            crate::node::strs_view(l@) == raspi_metric_info(*self).2,
    {
        let l: Vec<&'static str> = match self {
            RaspiMetric::ThermalTrip => vec!["type"],
            RaspiMetric::Info => vec!["model", "revision", "serial"],
            _ => Vec::new(),
        };
        assert(crate::node::strs_view(l@) =~= raspi_metric_info(*self).2);
        l
    }
}

// ---------------------------------------------------------------------------
// Throttling, memory split and hardware information
// ---------------------------------------------------------------------------

/// The value of a hexadecimal digit, upper or lower case.
pub open spec fn hex_digit_value(c: char) -> Option<nat> {
    if '0' <= c && c <= '9' {
        Some((c as int - '0' as int) as nat)
    } else if 'a' <= c && c <= 'f' {
        Some((c as int - 'a' as int + 10) as nat)
    } else if 'A' <= c && c <= 'F' {
        Some((c as int - 'A' as int + 10) as nat)
    } else {
        None
    }
}

/// Every character of `s` is a hexadecimal digit.
pub open spec fn all_hex(s: Seq<char>) -> bool {
    forall|i: int| 0 <= i < s.len() ==> (#[trigger] hex_digit_value(s[i])) is Some
}

/// The value of a string of hexadecimal digits, most significant first.
pub open spec fn hex_value(s: Seq<char>) -> nat
    decreases s.len(),
{
    if s.len() == 0 {
        0
    } else {
        hex_value(s.drop_last()) * 16 + hex_digit_value(s.last())->0
    }
}

/// The throttling bit mask in the output of `vcgencmd get_throttled`,
/// `throttled=0x<hex digits>`, when the digits give a number that fits in
/// `u64`.
pub open spec fn throttled_bits(output: Seq<char>) -> Option<nat> {
    match strip_prefix(output, "throttled=0x"@) {
        Some(d) => if d.len() > 0 && all_hex(d) && hex_value(d) <= u64::MAX {
            Some(hex_value(d))
        } else {
            None
        },
        None => None,
    }
}

proof fn lemma_hex_value_grows(s: Seq<char>, k: int)
    requires
        0 <= k <= s.len(),
    ensures
        hex_value(s.take(k)) <= hex_value(s),
    decreases s.len() - k,
{
    if k < s.len() {
        lemma_hex_value_grows(s, k + 1);
        assert(s.take(k + 1).drop_last() =~= s.take(k));
    } else {
        assert(s.take(k) =~= s);
    }
}

fn hex_digit(c: char) -> (r: Option<u64>)
    ensures
        r matches Some(v) ==> hex_digit_value(c) == Some(v as nat) && v < 16,
        r is None ==> hex_digit_value(c) is None,
{
    if '0' <= c && c <= '9' {
        Some((c as u32 - '0' as u32) as u64)
    } else if 'a' <= c && c <= 'f' {
        Some((c as u32 - 'a' as u32 + 10) as u64)
    } else if 'A' <= c && c <= 'F' {
        Some((c as u32 - 'A' as u32 + 10) as u64)
    } else {
        None
    }
}

/// The throttling bit mask in the output of `vcgencmd get_throttled`.
pub fn throttled_field(output: &str) -> (r: Option<u64>)
    ensures
        r matches Some(v) ==> throttled_bits(output@) == Some(v as nat),
        r is None ==> throttled_bits(output@) is None,
{
    let d = match strip_prefix_chars(&chars_of(output), &chars_of("throttled=0x")) {
        Some(d) => d,
        None => return None,
    };
    if d.len() == 0 {
        return None;
    }
    let mut v: u64 = 0;
    let mut i: usize = 0;
    while i < d.len()
        invariant
            i <= d.len(),
            strip_prefix(output@, "throttled=0x"@) == Some(d@),
            v == hex_value(d@.take(i as int)),
            all_hex(d@.take(i as int)),
        decreases d.len() - i,
    {
        assert(d@.take(i + 1).drop_last() =~= d@.take(i as int));
        let dv = match hex_digit(d[i]) {
            Some(x) => x,
            None => {
                assert(hex_digit_value(d@[i as int]) is None);
                return None;
            },
        };
        if v > (u64::MAX - dv) / 16 {
            proof {
                assert(v * 16 + dv > u64::MAX) by (nonlinear_arith)
                    requires
                        v > (u64::MAX - dv) / 16,
                        dv < 16,
                ;
                lemma_hex_value_grows(d@, i + 1);
                assert(hex_value(d@.take(i + 1)) == v * 16 + dv);
            }
            return None;
        }
        v = v * 16 + dv;
        i += 1;
        assert(all_hex(d@.take(i as int))) by {
            assert forall|k: int| 0 <= k < i implies (#[trigger] hex_digit_value(d@.take(i as int)[k])) is Some by {
                if k < i - 1 {
                    assert(d@.take(i as int)[k] == d@.take(i - 1)[k]);
                }
            }
        }
    }
    assert(d@.take(d.len() as int) =~= d@);
    Some(v)
}

/// The megabytes text in `<part>=<value>M`, the output of `vcgencmd get_mem
/// <part>`.
pub open spec fn memory_text(output: Seq<char>, part: Seq<char>) -> Option<Seq<char>> {
    match strip_prefix(output, part + "="@) {
        Some(rest) => strip_suffix(rest, "M"@),
        None => None,
    }
}

/// The GPU's share of memory in the output of `vcgencmd get_mem gpu`, when
/// it has the form `gpu=<value>M`.
pub fn gpu_memory_field(output: &str) -> (r: Option<String>)
    ensures
        r matches Some(v) ==> memory_text(output@, "gpu"@) == Some(v@),
        r is None ==> memory_text(output@, "gpu"@) is None,
{
    proof {
        reveal_strlit("gpu");
        reveal_strlit("=");
        reveal_strlit("gpu=");
        assert("gpu"@ + "="@ =~= "gpu="@);
    }
    between(output, "gpu=", "M")
}

/// The ARM's share of memory in the output of `vcgencmd get_mem arm`, when
/// it has the form `arm=<value>M`.
pub fn arm_memory_field(output: &str) -> (r: Option<String>)
    ensures
        r matches Some(v) ==> memory_text(output@, "arm"@) == Some(v@),
        r is None ==> memory_text(output@, "arm"@) is None,
{
    proof {
        reveal_strlit("arm");
        reveal_strlit("=");
        reveal_strlit("arm=");
        assert("arm"@ + "="@ =~= "arm="@);
    }
    between(output, "arm=", "M")
}

/// The name and value of a `<name> : <value>` line of `/proc/cpuinfo`, both
/// without surrounding white space, when the line holds a `:`.
pub open spec fn key_value(line: Seq<char>) -> Option<(Seq<char>, Seq<char>)> {
    match after_sep(line, ':') {
        Some(rest) => Some((trim(before_sep(line, ':')), trim(rest))),
        None => None,
    }
}

/// The value of the last line of `ls` named `key`.
pub open spec fn cpu_info_value(ls: Seq<Seq<char>>, key: Seq<char>) -> Option<Seq<char>>
    decreases ls.len(),
{
    if ls.len() == 0 {
        None
    } else {
        match key_value(ls.last()) {
            Some((k, v)) => if k == key {
                Some(v)
            } else {
                cpu_info_value(ls.drop_last(), key)
            },
            None => cpu_info_value(ls.drop_last(), key),
        }
    }
}

/// A value, or `unknown` when it is absent.
pub open spec fn or_unknown(v: Option<Seq<char>>) -> Seq<char> {
    match v {
        Some(x) => x,
        None => "unknown"@,
    }
}

/// The labels of the hardware information series.
pub struct RaspiInfo {
    pub model: String,
    pub revision: String,
    pub serial: String,
}

fn split_key_value(line: &Vec<char>) -> (r: Option<(Vec<char>, Vec<char>)>)
    ensures
        r matches Some((k, v)) ==> key_value(line@) == Some((k@, v@)),
        r is None ==> key_value(line@) is None,
{
    let i = find_from(line, ':', 0);
    proof {
        lemma_after_sep(line@, ':', i as int);
        lemma_before_sep(line@, ':', i as int);
    }
    if i == line.len() {
        return None;
    }
    let before = slice_chars(line, 0, i);
    let after = slice_chars(line, i + 1, line.len());
    assert(line@.take(i as int) =~= before@);
    assert(line@.skip(i + 1) =~= after@);
    Some((trim_chars(&before), trim_chars(&after)))
}

/// The value of the last line of the content of `/proc/cpuinfo` that is
/// named `key`.
fn cpu_info_lookup(ls: &Vec<Vec<char>>, key: &str) -> (r: Option<Vec<char>>)
    ensures
        r matches Some(v) ==> cpu_info_value(seqs_of(ls@), key@) == Some(v@),
        r is None ==> cpu_info_value(seqs_of(ls@), key@) is None,
{
    let k = chars_of(key);
    let mut found: Option<Vec<char>> = None;
    let mut i: usize = 0;
    while i < ls.len()
        invariant
            i <= ls.len(),
            k@ == key@,
            found matches Some(v) ==> cpu_info_value(seqs_of(ls@).take(i as int), key@) == Some(v@),
            found is None ==> cpu_info_value(seqs_of(ls@).take(i as int), key@) is None,
        decreases ls.len() - i,
    {
        assert(seqs_of(ls@).take(i + 1).drop_last() =~= seqs_of(ls@).take(i as int));
        assert(seqs_of(ls@).take(i + 1).last() == ls@[i as int]@);
        match split_key_value(&ls[i]) {
            Some((name, value)) => {
                if chars_eq(&name, &k) {
                    found = Some(value);
                }
            },
            None => {},
        }
        i += 1;
    }
    assert(seqs_of(ls@).take(ls.len() as int) =~= seqs_of(ls@));
    found
}

fn text_or_unknown(v: Option<Vec<char>>) -> (s: String)
    ensures
        s@ == or_unknown(match v {
            Some(x) => Some(x@),
            None => None,
        }),
{
    match v {
        Some(x) => string_from_chars(&x),
        None => "unknown".to_owned(),
    }
}

/// The model, revision and serial number in the content of
/// `/proc/cpuinfo`: the values of its `Model`, `Revision` and `Serial` lines
/// (the last of each), or `unknown` for one that is missing.
pub fn cpu_info_fields(content: &str) -> (r: RaspiInfo)
    ensures
        r.model@ == or_unknown(cpu_info_value(lines(content@), "Model"@)),
        r.revision@ == or_unknown(cpu_info_value(lines(content@), "Revision"@)),
        r.serial@ == or_unknown(cpu_info_value(lines(content@), "Serial"@)),
{
    let ls = split_lines(&chars_of(content));
    RaspiInfo {
        model: text_or_unknown(cpu_info_lookup(&ls, "Model")),
        revision: text_or_unknown(cpu_info_lookup(&ls, "Revision")),
        serial: text_or_unknown(cpu_info_lookup(&ls, "Serial")),
    }
}

} // verus!

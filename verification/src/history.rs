//! The host counters over successive collections: each exported counter
//! advances, in all, by the increments between successive readings of its
//! kernel counter, the first reading adding nothing.
use crate::counters::{increment, increment_from, total_advance};
use crate::node::{
    cpu_key, cpu_line_name, cpu_line_scan, cpu_modes, data_lines, lemma_cpu_key_injective,
    lemma_cpu_line_scan_keys, lemma_cpu_modes_distinct, line_device, net_dev_scan, stat_line,
    stat_scan, CPU_MODE_COUNT,
};
use crate::text::{lines, parse_unsigned, words};
use vstd::prelude::*;

verus! {

// ---------------------------------------------------------------------------
// /proc/net/dev
// ---------------------------------------------------------------------------

/// The word of a device line that holds sent bytes (`transmit`) or received
/// bytes.
pub open spec fn net_column(transmit: bool) -> int {
    if transmit {
        9
    } else {
        1
    }
}

/// The readings of device `d`'s sent (`transmit`) or received bytes in the
/// lines `ls`, in order: the number on each line about `d` that holds one.
pub open spec fn dev_sightings(ls: Seq<Seq<char>>, d: Seq<char>, transmit: bool) -> Seq<u64>
    decreases ls.len(),
{
    if ls.len() == 0 {
        seq![]
    } else {
        let rest = dev_sightings(ls.drop_last(), d, transmit);
        if line_device(ls.last()) == Some(d) {
            match parse_unsigned(words(ls.last())[net_column(transmit)], u64::MAX as nat) {
                Some(v) => rest.push(v as u64),
                None => rest,
            }
        } else {
            rest
        }
    }
}

/// The readings of device `d`'s counter in the texts, text after text.
pub open spec fn all_dev_sightings(contents: Seq<Seq<char>>, d: Seq<char>, transmit: bool) -> Seq<u64>
    decreases contents.len(),
{
    if contents.len() == 0 {
        seq![]
    } else {
        all_dev_sightings(contents.drop_last(), d, transmit) + dev_sightings(
            data_lines(contents.last()),
            d,
            transmit,
        )
    }
}

/// The last reading of `key` in `state`, if there is one.
pub open spec fn map_reading(state: Map<Seq<char>, u64>, key: Seq<char>) -> Option<u64> {
    if state.dom().contains(key) {
        Some(state[key])
    } else {
        None
    }
}

/// The last of the readings `s`, or `prev` when there is none.
pub open spec fn last_reading(prev: Option<u64>, s: Seq<u64>) -> Option<u64> {
    if s.len() > 0 {
        Some(s.last())
    } else {
        prev
    }
}

/// How far a counter advances over the readings `s` that follow the reading
/// `prev` (none for a counter not read before): the increment from each
/// reading to the next, a first reading adding nothing.
pub open spec fn advance_after(prev: Option<u64>, s: Seq<u64>) -> int
    decreases s.len(),
{
    if s.len() == 0 {
        0
    } else {
        advance_after(prev, s.drop_last()) + increment(
            s.last(),
            match last_reading(prev, s.drop_last()) {
                Some(p) => p,
                None => s.last(),
            },
        ) as int
    }
}

/// A counter not read before advances over its readings by `total_advance`.
proof fn lemma_advance_after_none(s: Seq<u64>)
    ensures
        advance_after(None, s) == total_advance(s),
    decreases s.len(),
{
    if s.len() > 0 {
        lemma_advance_after_none(s.drop_last());
    }
}

proof fn lemma_advance_after_concat(prev: Option<u64>, a: Seq<u64>, b: Seq<u64>)
    ensures
        advance_after(prev, a + b) == advance_after(prev, a) + advance_after(last_reading(prev, a), b),
        last_reading(prev, a + b) == last_reading(last_reading(prev, a), b),
    decreases b.len(),
{
    if b.len() == 0 {
        assert(a + b =~= a);
    } else {
        lemma_advance_after_concat(prev, a, b.drop_last());
        assert((a + b).drop_last() =~= a + b.drop_last());
        assert((a + b).last() == b.last());
    }
}

/// How far the samples `samples` advance device `d`'s sent (`transmit`) or
/// received bytes counter, in all.
pub open spec fn device_advance(samples: Seq<(Seq<char>, Option<u64>, Option<u64>)>, d: Seq<char>, transmit: bool) -> int
    decreases samples.len(),
{
    if samples.len() == 0 {
        0
    } else {
        let s = samples.last();
        let x = if transmit {
            s.2
        } else {
            s.1
        };
        device_advance(samples.drop_last(), d, transmit) + if s.0 == d {
            match x {
                Some(v) => v as int,
                None => 0,
            }
        } else {
            0
        }
    }
}

/// The last readings of sent (`transmit`) or received bytes.
pub open spec fn counter_map(rx: Map<Seq<char>, u64>, tx: Map<Seq<char>, u64>, transmit: bool) -> Map<Seq<char>, u64> {
    if transmit {
        tx
    } else {
        rx
    }
}

/// Successive `/proc/net/dev` texts read one after the other, starting from
/// the last readings `rx` and `tx`: the samples of each, and the last
/// readings after all of them (what successive calls of
/// `NodeCounters::observe_net_dev` give).
pub open spec fn net_dev_collections(contents: Seq<Seq<char>>, rx: Map<Seq<char>, u64>, tx: Map<Seq<char>, u64>) -> (
    Seq<Seq<(Seq<char>, Option<u64>, Option<u64>)>>,
    Map<Seq<char>, u64>,
    Map<Seq<char>, u64>,
)
    decreases contents.len(),
{
    if contents.len() == 0 {
        (seq![], rx, tx)
    } else {
        let (outs, rx1, tx1) = net_dev_collections(contents.drop_last(), rx, tx);
        let (out, rx2, tx2) = net_dev_scan(data_lines(contents.last()), rx1, tx1);
        (outs.push(out), rx2, tx2)
    }
}

/// How far the collections' samples `outs` advance device `d`'s counter, in
/// all.
pub open spec fn collections_advance(outs: Seq<Seq<(Seq<char>, Option<u64>, Option<u64>)>>, d: Seq<char>, transmit: bool) -> int
    decreases outs.len(),
{
    if outs.len() == 0 {
        0
    } else {
        collections_advance(outs.drop_last(), d, transmit) + device_advance(outs.last(), d, transmit)
    }
}

proof fn lemma_net_dev_scan_sightings(
    ls: Seq<Seq<char>>,
    rx: Map<Seq<char>, u64>,
    tx: Map<Seq<char>, u64>,
    n: int,
    d: Seq<char>,
    transmit: bool,
)
    requires
        0 <= n <= ls.len(),
    ensures
        ({
            let (out, rx2, tx2) = net_dev_scan(ls.take(n), rx, tx);
            let prev = map_reading(counter_map(rx, tx, transmit), d);
            let s = dev_sightings(ls.take(n), d, transmit);
            &&& device_advance(out, d, transmit) == advance_after(prev, s)
            &&& map_reading(counter_map(rx2, tx2, transmit), d) == last_reading(prev, s)
        }),
    decreases n,
{
    if n > 0 {
        lemma_net_dev_scan_sightings(ls, rx, tx, n - 1, d, transmit);
        let p = ls.take(n);
        assert(p.drop_last() =~= ls.take(n - 1));
        assert(p.last() == ls[n - 1]);
        let line = ls[n - 1];
        let (done, rx1, tx1) = net_dev_scan(ls.take(n - 1), rx, tx);
        let (out, rx2, tx2) = net_dev_scan(p, rx, tx);
        let prev = map_reading(counter_map(rx, tx, transmit), d);
        let s1 = dev_sightings(ls.take(n - 1), d, transmit);
        let s2 = dev_sightings(p, d, transmit);
        let m1 = counter_map(rx1, tx1, transmit);
        if let Some(dev) = line_device(line) {
            assert(out.drop_last() =~= done);
            let w = words(line);
            let col = net_column(transmit);
            let r = parse_unsigned(w[col], u64::MAX as nat);
            assert(out.last().0 == dev);
            if dev == d {
                match r {
                    Some(v) => {
                        assert(s2 == s1.push(v as u64));
                        assert(s2.drop_last() =~= s1);
                        assert((if transmit { out.last().2 } else { out.last().1 }) == Some(
                            increment_from(m1, d, v as u64),
                        ));
                        assert(increment_from(m1, d, v as u64) == increment(
                            v as u64,
                            match last_reading(prev, s1) {
                                Some(q) => q,
                                None => v as u64,
                            },
                        ));
                    },
                    None => {
                        assert(s2 == s1);
                        assert((if transmit { out.last().2 } else { out.last().1 }) is None);
                    },
                }
            } else {
                assert(s2 == s1);
            }
        } else {
            assert(out == done);
            assert(s2 == s1);
        }
    }
}

proof fn lemma_net_dev_collections_sightings(
    contents: Seq<Seq<char>>,
    rx: Map<Seq<char>, u64>,
    tx: Map<Seq<char>, u64>,
    d: Seq<char>,
    transmit: bool,
)
    ensures
        ({
            let (outs, rx2, tx2) = net_dev_collections(contents, rx, tx);
            let prev = map_reading(counter_map(rx, tx, transmit), d);
            let s = all_dev_sightings(contents, d, transmit);
            &&& collections_advance(outs, d, transmit) == advance_after(prev, s)
            &&& map_reading(counter_map(rx2, tx2, transmit), d) == last_reading(prev, s)
        }),
    decreases contents.len(),
{
    if contents.len() > 0 {
        let prev = map_reading(counter_map(rx, tx, transmit), d);
        lemma_net_dev_collections_sightings(contents.drop_last(), rx, tx, d, transmit);
        let (outs1, rx1, tx1) = net_dev_collections(contents.drop_last(), rx, tx);
        let ls = data_lines(contents.last());
        lemma_net_dev_scan_sightings(ls, rx1, tx1, ls.len() as int, d, transmit);
        assert(ls.take(ls.len() as int) =~= ls);
        let (outs, rx2, tx2) = net_dev_collections(contents, rx, tx);
        assert(outs.drop_last() =~= outs1);
        lemma_advance_after_concat(
            prev,
            all_dev_sightings(contents.drop_last(), d, transmit),
            dev_sightings(ls, d, transmit),
        );
    }
}

/// Over successive `/proc/net/dev` texts, device `d`'s exported counter of
/// sent (`transmit`) or received bytes advances, in all, by `total_advance`
/// of the readings of `d` in them, in the order they were read: nothing at
/// the first reading, then the increment from each reading to the next
/// (the whole reading after a reset). Texts without a line for `d`, lines
/// whose number does not parse, and several lines for `d` in one text are
/// all covered. This holds from any last readings that do not yet hold
/// `d`, such as those of `NodeCounters::new`.
pub proof fn lemma_net_dev_counter_is_sum_of_increments(
    contents: Seq<Seq<char>>,
    rx: Map<Seq<char>, u64>,
    tx: Map<Seq<char>, u64>,
    d: Seq<char>,
    transmit: bool,
)
    requires
        !counter_map(rx, tx, transmit).dom().contains(d),
    ensures
        collections_advance(net_dev_collections(contents, rx, tx).0, d, transmit) == total_advance(
            all_dev_sightings(contents, d, transmit),
        ),
{
    lemma_net_dev_collections_sightings(contents, rx, tx, d, transmit);
    lemma_advance_after_none(all_dev_sightings(contents, d, transmit));
}

// ---------------------------------------------------------------------------
// /proc/stat
// ---------------------------------------------------------------------------

/// The readings of mode `a` (counted from 0) of CPU `c` in the lines `ls`,
/// in order: the number in that column of each line about `c` that has the
/// column and a number in it.
pub open spec fn stat_sightings(ls: Seq<Seq<char>>, c: Seq<char>, a: int) -> Seq<u64>
    decreases ls.len(),
{
    if ls.len() == 0 {
        seq![]
    } else {
        let rest = stat_sightings(ls.drop_last(), c, a);
        let w = words(ls.last());
        if cpu_line_name(ls.last()) == Some(c) && w.len() > a + 1 {
            match parse_unsigned(w[a + 1], u64::MAX as nat) {
                Some(v) => rest.push(v as u64),
                None => rest,
            }
        } else {
            rest
        }
    }
}

/// The readings of mode `a` of CPU `c` in the texts, text after text.
pub open spec fn all_stat_sightings(contents: Seq<Seq<char>>, c: Seq<char>, a: int) -> Seq<u64>
    decreases contents.len(),
{
    if contents.len() == 0 {
        seq![]
    } else {
        all_stat_sightings(contents.drop_last(), c, a) + stat_sightings(lines(contents.last()), c, a)
    }
}

/// `s` holds no `_`.
pub open spec fn no_underscore(s: Seq<char>) -> bool {
    forall|i: int| 0 <= i < s.len() ==> s[i] != '_'
}

/// Every per-CPU line of `ls` names its CPU without `_`, so that a CPU name
/// and a mode name are told apart in the name of a reading.
pub open spec fn plain_cpu_names(ls: Seq<Seq<char>>) -> bool {
    forall|i: int| 0 <= i < ls.len() ==> match #[trigger] cpu_line_name(ls[i]) {
        Some(n) => no_underscore(n),
        None => true,
    }
}

proof fn lemma_plain_cpu_key_injective(c1: Seq<char>, m1: Seq<char>, c2: Seq<char>, m2: Seq<char>)
    requires
        no_underscore(c1),
        no_underscore(c2),
        cpu_key(c1, m1) == cpu_key(c2, m2),
    ensures
        c1 == c2,
        m1 == m2,
{
    reveal_strlit("_");
    let k = cpu_key(c1, m1);
    assert(k == cpu_key(c2, m2));
    assert(k[c1.len() as int] == '_');
    assert(k[c2.len() as int] == '_');
    if c1.len() < c2.len() {
        assert(k[c1.len() as int] == c2[c1.len() as int]);
    } else if c2.len() < c1.len() {
        assert(k[c2.len() as int] == c1[c2.len() as int]);
    }
    assert(c1 =~= k.take(c1.len() as int));
    assert(c2 =~= k.take(c2.len() as int));
    assert(m1 =~= k.skip((c1.len() + 1) as int));
    assert(m2 =~= k.skip((c2.len() + 1) as int));
}

/// How far the CPU samples `samples` advance the time of CPU `c` in mode
/// `m`, in ticks, in all.
pub open spec fn cpu_advance(samples: Seq<(Seq<char>, Seq<char>, u64)>, c: Seq<char>, m: Seq<char>) -> int
    decreases samples.len(),
{
    if samples.len() == 0 {
        0
    } else {
        cpu_advance(samples.drop_last(), c, m) + if samples.last().0 == c && samples.last().1 == m {
            samples.last().2 as int
        } else {
            0
        }
    }
}

/// Successive `/proc/stat` texts read one after the other, starting from the
/// last readings `state`: the CPU samples of each, and the last readings
/// after all of them (what successive calls of `NodeCounters::observe_stat`
/// give).
pub open spec fn stat_collections(contents: Seq<Seq<char>>, state: Map<Seq<char>, u64>) -> (
    Seq<Seq<(Seq<char>, Seq<char>, u64)>>,
    Map<Seq<char>, u64>,
)
    decreases contents.len(),
{
    if contents.len() == 0 {
        (seq![], state)
    } else {
        let (outs, st1) = stat_collections(contents.drop_last(), state);
        let (_, cpus, st2) = stat_scan(lines(contents.last()), st1);
        (outs.push(cpus), st2)
    }
}

/// How far the collections' samples `outs` advance the time of CPU `c` in
/// mode `m`, in all.
pub open spec fn stat_collections_advance(outs: Seq<Seq<(Seq<char>, Seq<char>, u64)>>, c: Seq<char>, m: Seq<char>) -> int
    decreases outs.len(),
{
    if outs.len() == 0 {
        0
    } else {
        stat_collections_advance(outs.drop_last(), c, m) + cpu_advance(outs.last(), c, m)
    }
}

proof fn lemma_cpu_advance_concat(x: Seq<(Seq<char>, Seq<char>, u64)>, y: Seq<(Seq<char>, Seq<char>, u64)>, c: Seq<char>, m: Seq<char>)
    ensures
        cpu_advance(x + y, c, m) == cpu_advance(x, c, m) + cpu_advance(y, c, m),
    decreases y.len(),
{
    if y.len() == 0 {
        assert(x + y =~= x);
    } else {
        lemma_cpu_advance_concat(x, y.drop_last(), c, m);
        assert((x + y).drop_last() =~= x + y.drop_last());
        assert((x + y).last() == y.last());
    }
}

proof fn lemma_cpu_line_scan_other(cpu: Seq<char>, w: Seq<Seq<char>>, n: nat, state: Map<Seq<char>, u64>, c: Seq<char>, m: Seq<char>)
    requires
        n <= CPU_MODE_COUNT,
        cpu != c,
    ensures
        cpu_advance(cpu_line_scan(cpu, w, n, state).0, c, m) == 0,
    decreases n,
{
    if n > 0 {
        lemma_cpu_line_scan_other(cpu, w, (n - 1) as nat, state, c, m);
        let (done, st) = cpu_line_scan(cpu, w, (n - 1) as nat, state);
        let out = cpu_line_scan(cpu, w, n, state).0;
        if out.len() > done.len() {
            assert(out.drop_last() =~= done);
        } else {
            assert(out == done);
        }
    }
}

proof fn lemma_cpu_line_scan_mode(cpu: Seq<char>, w: Seq<Seq<char>>, n: nat, state: Map<Seq<char>, u64>, a: int)
    requires
        n <= CPU_MODE_COUNT,
        0 <= a < CPU_MODE_COUNT,
    ensures
        ({
            let (out, st2) = cpu_line_scan(cpu, w, n, state);
            let key = cpu_key(cpu, cpu_modes()[a]);
            let reading = if a < n && w.len() > a + 1 {
                parse_unsigned(w[a + 1], u64::MAX as nat)
            } else {
                None
            };
            match reading {
                Some(v) => cpu_advance(out, cpu, cpu_modes()[a]) == increment_from(state, key, v as u64)
                    && st2.dom().contains(key) && st2[key] == v as u64,
                None => cpu_advance(out, cpu, cpu_modes()[a]) == 0 && st2.dom().contains(key)
                    == state.dom().contains(key) && (state.dom().contains(key) ==> st2[key] == state[key]),
            }
        }),
    decreases n,
{
    if n > 0 {
        let i = n - 1;
        lemma_cpu_line_scan_mode(cpu, w, (n - 1) as nat, state, a);
        let (done, st) = cpu_line_scan(cpu, w, (n - 1) as nat, state);
        let out = cpu_line_scan(cpu, w, n, state).0;
        let key = cpu_key(cpu, cpu_modes()[a]);
        if i != a {
            lemma_cpu_modes_distinct(i, a);
            if cpu_key(cpu, cpu_modes()[i]) == key {
                lemma_cpu_key_injective(cpu, cpu_modes()[i], cpu_modes()[a]);
            }
        }
        if out.len() > done.len() {
            assert(out.drop_last() =~= done);
        } else {
            assert(out == done);
        }
    }
}

proof fn lemma_stat_scan_sightings(ls: Seq<Seq<char>>, state: Map<Seq<char>, u64>, n: int, c: Seq<char>, a: int)
    requires
        0 <= n <= ls.len(),
        0 <= a < CPU_MODE_COUNT,
        no_underscore(c),
        plain_cpu_names(ls),
    ensures
        ({
            let (_, cpus, st2) = stat_scan(ls.take(n), state);
            let key = cpu_key(c, cpu_modes()[a]);
            let prev = map_reading(state, key);
            let s = stat_sightings(ls.take(n), c, a);
            &&& cpu_advance(cpus, c, cpu_modes()[a]) == advance_after(prev, s)
            &&& map_reading(st2, key) == last_reading(prev, s)
        }),
    decreases n,
{
    if n > 0 {
        let m = cpu_modes()[a];
        let key = cpu_key(c, m);
        lemma_stat_scan_sightings(ls, state, n - 1, c, a);
        let p = ls.take(n);
        assert(p.drop_last() =~= ls.take(n - 1));
        assert(p.last() == ls[n - 1]);
        let line = ls[n - 1];
        let (boots, cpus1, st1) = stat_scan(ls.take(n - 1), state);
        let (_, more, st2) = stat_line(line, st1);
        let (_, cpus, _) = stat_scan(p, state);
        assert(cpus == cpus1 + more);
        lemma_cpu_advance_concat(cpus1, more, c, m);
        let prev = map_reading(state, key);
        let s1 = stat_sightings(ls.take(n - 1), c, a);
        let s2 = stat_sightings(p, c, a);
        if let Some(c2) = cpu_line_name(line) {
            let w = words(line);
            assert(plain_cpu_names(ls));
            assert(match cpu_line_name(ls[n - 1]) {
                Some(nm) => no_underscore(nm),
                None => true,
            });
            assert(no_underscore(c2));
            if c2 == c {
                lemma_cpu_line_scan_mode(c, w, CPU_MODE_COUNT as nat, st1, a);
                assert(more == cpu_line_scan(c, w, CPU_MODE_COUNT as nat, st1).0);
                if w.len() > a + 1 {
                    match parse_unsigned(w[a + 1], u64::MAX as nat) {
                        Some(v) => {
                            assert(s2 == s1.push(v as u64));
                            assert(s2.drop_last() =~= s1);
                        },
                        None => {
                            assert(s2 == s1);
                        },
                    }
                } else {
                    assert(s2 == s1);
                }
            } else {
                assert(s2 == s1);
                assert forall|b: int| 0 <= b < CPU_MODE_COUNT implies key != cpu_key(c2, #[trigger] cpu_modes()[b]) by {
                    if key == cpu_key(c2, cpu_modes()[b]) {
                        lemma_plain_cpu_key_injective(c, m, c2, cpu_modes()[b]);
                    }
                }
                lemma_cpu_line_scan_other(c2, w, CPU_MODE_COUNT as nat, st1, c, m);
                lemma_cpu_line_scan_keys(c2, w, CPU_MODE_COUNT as nat, st1, key);
            }
        } else {
            assert(cpu_advance(more, c, m) == 0);
            assert(s2 == s1);
        }
    }
}

proof fn lemma_stat_collections_sightings(contents: Seq<Seq<char>>, state: Map<Seq<char>, u64>, c: Seq<char>, a: int)
    requires
        0 <= a < CPU_MODE_COUNT,
        no_underscore(c),
        forall|i: int| 0 <= i < contents.len() ==> plain_cpu_names(lines(#[trigger] contents[i])),
    ensures
        ({
            let (outs, st2) = stat_collections(contents, state);
            let key = cpu_key(c, cpu_modes()[a]);
            let prev = map_reading(state, key);
            let s = all_stat_sightings(contents, c, a);
            &&& stat_collections_advance(outs, c, cpu_modes()[a]) == advance_after(prev, s)
            &&& map_reading(st2, key) == last_reading(prev, s)
        }),
    decreases contents.len(),
{
    if contents.len() > 0 {
        let key = cpu_key(c, cpu_modes()[a]);
        let prev = map_reading(state, key);
        let before = contents.drop_last();
        assert forall|i: int| 0 <= i < before.len() implies plain_cpu_names(lines(#[trigger] before[i])) by {
            assert(before[i] == contents[i]);
        }
        lemma_stat_collections_sightings(before, state, c, a);
        let (outs1, st1) = stat_collections(before, state);
        let ls = lines(contents.last());
        assert(contents.last() == contents[contents.len() - 1]);
        lemma_stat_scan_sightings(ls, st1, ls.len() as int, c, a);
        assert(ls.take(ls.len() as int) =~= ls);
        let (outs, st2) = stat_collections(contents, state);
        assert(outs.drop_last() =~= outs1);
        lemma_advance_after_concat(prev, all_stat_sightings(before, c, a), stat_sightings(ls, c, a));
    }
}

/// Over successive `/proc/stat` texts whose per-CPU lines name their CPUs
/// without `_` (as the kernel's `cpu0`, `cpu1`, ... do), the time exported
/// for CPU `c` in mode `a` (counted from 0) advances, in all, by
/// `total_advance` of the readings of that column of `c`'s lines, in the
/// order they were read, in ticks: nothing at the first reading, then the
/// increment from each reading to the next (the whole reading after a
/// reset). Texts without a line for `c`, columns that are missing or do not
/// parse, and several lines for `c` in one text are all covered. This holds
/// from any last readings that do not yet hold `c` in mode `a`, such as
/// those of `NodeCounters::new`.
pub proof fn lemma_cpu_time_is_sum_of_increments(contents: Seq<Seq<char>>, state: Map<Seq<char>, u64>, c: Seq<char>, a: int)
    requires
        0 <= a < CPU_MODE_COUNT,
        no_underscore(c),
        !state.dom().contains(cpu_key(c, cpu_modes()[a])),
        forall|i: int| 0 <= i < contents.len() ==> plain_cpu_names(lines(#[trigger] contents[i])),
    ensures
        stat_collections_advance(stat_collections(contents, state).0, c, cpu_modes()[a]) == total_advance(
            all_stat_sightings(contents, c, a),
        ),
{
    lemma_stat_collections_sightings(contents, state, c, a);
    lemma_advance_after_none(all_stat_sightings(contents, c, a));
}

} // verus!

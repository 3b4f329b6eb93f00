//! Cumulative counters read from the kernel, and the increments that a
//! Prometheus counter is advanced by between two readings.
use vstd::prelude::*;

verus! {

/// The amount a counter advances by when a reading `current` follows the
/// reading `previous`: the difference while the source grows, and the whole
/// new reading after the source was reset (it went down).
pub open spec fn increment(current: u64, previous: u64) -> u64 {
    if current >= previous {
        (current - previous) as u64
    } else {
        current
    }
}

/// The amount to advance a counter by when `current` follows `previous`.
pub fn counter_increment(current: u64, previous: u64) -> (r: u64)
    ensures
        r == increment(current, previous),
{
    if current >= previous {
        current - previous
    } else {
        current
    }
}

/// The last readings of counters, by name.
pub struct CounterState {
    keys: Vec<String>,
    values: Vec<u64>,
}

/// The map from the names in `keys` to the readings in `values`, later
/// entries taking precedence.
pub open spec fn map_of(keys: Seq<Seq<char>>, values: Seq<u64>) -> Map<Seq<char>, u64>
    decreases keys.len(),
{
    if keys.len() == 0 || values.len() == 0 {
        Map::empty()
    } else {
        map_of(keys.drop_last(), values.drop_last()).insert(keys.last(), values.last())
    }
}

/// No name occurs twice in `keys`.
pub open spec fn distinct(keys: Seq<Seq<char>>) -> bool {
    forall|i: int, j: int| 0 <= i < keys.len() && 0 <= j < keys.len() && i != j ==> keys[i] != keys[j]
}

proof fn lemma_map_of_index(keys: Seq<Seq<char>>, values: Seq<u64>, i: int)
    requires
        keys.len() == values.len(),
        distinct(keys),
        0 <= i < keys.len(),
    ensures
        map_of(keys, values).dom().contains(keys[i]),
        map_of(keys, values)[keys[i]] == values[i],
    decreases keys.len(),
{
    if i < keys.len() - 1 {
        lemma_map_of_index(keys.drop_last(), values.drop_last(), i);
        assert(keys[i] != keys.last());
    }
}

proof fn lemma_map_of_absent(keys: Seq<Seq<char>>, values: Seq<u64>, k: Seq<char>)
    requires
        keys.len() == values.len(),
        forall|i: int| 0 <= i < keys.len() ==> keys[i] != k,
    ensures
        !map_of(keys, values).dom().contains(k),
    decreases keys.len(),
{
    if keys.len() > 0 {
        lemma_map_of_absent(keys.drop_last(), values.drop_last(), k);
    }
}

proof fn lemma_map_of_update(keys: Seq<Seq<char>>, values: Seq<u64>, i: int, v: u64)
    requires
        keys.len() == values.len(),
        distinct(keys),
        0 <= i < keys.len(),
    ensures
        map_of(keys, values.update(i, v)) == map_of(keys, values).insert(keys[i], v),
    decreases keys.len(),
{
    let upd = values.update(i, v);
    if i == keys.len() - 1 {
        assert(upd.drop_last() =~= values.drop_last());
        assert(map_of(keys, upd) =~= map_of(keys, values).insert(keys[i], v));
    } else {
        lemma_map_of_update(keys.drop_last(), values.drop_last(), i, v);
        assert(upd.drop_last() =~= values.drop_last().update(i, v));
        assert(keys[i] != keys.last());
        assert(map_of(keys, upd) =~= map_of(keys, values).insert(keys[i], v));
    }
}

impl CounterState {
    /// The names of the counters, in the order they were first read.
    pub closed spec fn names(&self) -> Seq<Seq<char>> {
        self.keys@.map_values(|k: String| k@)
    }

    /// The readings by name.
    pub closed spec fn view(&self) -> Map<Seq<char>, u64> {
        map_of(self.names(), self.values@)
    }

    /// The state's internal invariant: one reading for each name, and no name
    /// twice.
    pub closed spec fn wf(&self) -> bool {
        &&& self.keys.len() == self.values.len()
        &&& distinct(self.names())
    }

    /// A state without any reading.
    pub fn new() -> (s: CounterState)
        ensures
            s.wf(),
            s.view() == Map::<Seq<char>, u64>::empty(),
    {
        let s = CounterState { keys: Vec::new(), values: Vec::new() };
        assert(s.names().len() == 0);
        s
    }

    fn find(&self, key: &String) -> (r: Option<usize>)
        requires
            self.wf(),
        ensures
            r matches Some(i) ==> i < self.keys.len() && self.names()[i as int] == key@,
            r is None ==> forall|i: int| 0 <= i < self.keys.len() ==> self.names()[i] != key@,
    {
        let mut i: usize = 0;
        while i < self.keys.len()
            invariant
                self.wf(),
                i <= self.keys.len(),
                forall|j: int| 0 <= j < i ==> self.names()[j] != key@,
            decreases self.keys.len() - i,
        {
            if self.keys[i] == *key {
                return Some(i);
            }
            i += 1;
        }
        None
    }

    /// The last reading of the counter `key`, if there is one.
    pub fn get(&self, key: &String) -> (r: Option<u64>)
        requires
            self.wf(),
        ensures
            r == (if self.view().dom().contains(key@) {
                Some(self.view()[key@])
            } else {
                None
            }),
    {
        match self.find(key) {
            Some(i) => {
                proof {
                    lemma_map_of_index(self.names(), self.values@, i as int);
                }
                Some(self.values[i])
            },
            None => {
                proof {
                    lemma_map_of_absent(self.names(), self.values@, key@);
                }
                None
            },
        }
    }

    /// Records `value` as the last reading of the counter `key`.
    pub fn set(&mut self, key: String, value: u64)
        requires
            old(self).wf(),
        ensures
            final(self).wf(),
            final(self).view() == old(self).view().insert(key@, value),
    {
        match self.find(&key) {
            Some(i) => {
                proof {
                    lemma_map_of_update(self.names(), self.values@, i as int, value);
                }
                self.values.set(i, value);
            },
            None => {
                let ghost old_names = self.names();
                let ghost kv = key@;
                self.keys.push(key);
                self.values.push(value);
                assert(self.names() =~= old_names.push(kv));
                assert(self.names().drop_last() =~= old_names);
                assert(self.values@.drop_last() =~= old(self).values@);
            },
        }
    }

    /// Records `value` as the last reading of `key` and says how far the
    /// exported counter advances: the increment from the previous reading,
    /// or nothing on the first reading of `key`.
    pub fn observe(&mut self, key: String, value: u64) -> (r: u64)
        requires
            old(self).wf(),
        ensures
            final(self).wf(),
            r == increment_from(old(self).view(), key@, value),
            final(self).view() == old(self).view().insert(key@, value),
    {
        let previous = match self.get(&key) {
            Some(p) => p,
            None => value,
        };
        let r = counter_increment(value, previous);
        self.set(key, value);
        r
    }
}

/// How far the counter `key` advances when `value` is read after the readings
/// in `state`; a first reading advances it by nothing.
pub open spec fn increment_from(state: Map<Seq<char>, u64>, key: Seq<char>, value: u64) -> u64 {
    if state.dom().contains(key) {
        increment(value, state[key])
    } else {
        increment(value, value)
    }
}

/// How far a counter exported from the readings `readings` (taken in this
/// order) has advanced in all: nothing for the first reading, then the
/// increment from each reading to the next.
pub open spec fn total_advance(readings: Seq<u64>) -> int
    decreases readings.len(),
{
    if readings.len() <= 1 {
        0
    } else {
        total_advance(readings.drop_last()) + increment(readings.last(), readings[readings.len() - 2]) as int
    }
}

/// While the source counter never goes down, the exported counter advances
/// by exactly what the source did since its first reading.
pub proof fn lemma_advance_matches_source(readings: Seq<u64>)
    requires
        readings.len() > 0,
        forall|i: int, j: int| 0 <= i <= j < readings.len() ==> readings[i] <= readings[j],
    ensures
        total_advance(readings) == readings.last() - readings[0],
    decreases readings.len(),
{
    if readings.len() > 1 {
        lemma_advance_matches_source(readings.drop_last());
    }
}

/// The readings after `readings` of `key` were recorded, in order, on top
/// of `state`.
pub open spec fn after_readings(state: Map<Seq<char>, u64>, key: Seq<char>, readings: Seq<u64>) -> Map<Seq<char>, u64> {
    if readings.len() == 0 {
        state
    } else {
        state.insert(key, readings.last())
    }
}

/// The sum of the increments that `CounterState::observe` reports when the
/// readings `readings` of `key` are observed one after the other, starting
/// from `state`.
pub open spec fn observed_total(state: Map<Seq<char>, u64>, key: Seq<char>, readings: Seq<u64>) -> int
    decreases readings.len(),
{
    if readings.len() == 0 {
        0
    } else {
        observed_total(state, key, readings.drop_last()) + increment_from(
            after_readings(state, key, readings.drop_last()),
            key,
            readings.last(),
        ) as int
    }
}

/// Observing the readings of a counter not seen before, one after the
/// other, advances the exported counter by `total_advance` of the readings:
/// nothing at the first, then the increment from each reading to the next.
pub proof fn lemma_observed_total(state: Map<Seq<char>, u64>, key: Seq<char>, readings: Seq<u64>)
    requires
        !state.dom().contains(key),
    ensures
        observed_total(state, key, readings) == total_advance(readings),
    decreases readings.len(),
{
    if readings.len() > 0 {
        lemma_observed_total(state, key, readings.drop_last());
        if readings.len() > 1 {
            assert(readings.drop_last().last() == readings[readings.len() - 2]);
        }
    }
}

} // verus!

//! Counter readings, and the quantities that are derived from them.

use vstd::prelude::*;

verus! {

/// What a counter says when it is read.
#[derive(Debug, Clone, Copy, PartialEq, Eq, Structural)]
pub struct Reading {
    /// The value of the event.
    pub value: u64,
    /// For how long the counter has been enabled.
    pub time_enabled: u64,
    /// For how long the counter has really been running.
    pub time_running: u64,
    /// The identity of the counter.
    pub id: u64,
}

/// What a counter gained between two readings.
#[derive(Debug, Clone, Copy, PartialEq, Eq, Structural)]
pub struct CounterDelta {
    /// How many events were seen.
    pub value: u64,
    /// For how long the counter was enabled.
    pub time_enabled: u64,
    /// For how long the counter was really running.
    pub time_running: u64,
}

/// A quantity to be printed as a decimal fraction.
///
/// A delta stands for its value, corrected for the time in which the counter was
/// enabled but not running: `value * (time_enabled / time_running)`. A missing delta
/// stands for no number at all.
#[derive(Debug, Clone, Copy, PartialEq, Eq, Structural)]
pub enum Measure {
    /// The corrected value.
    Counter(Option<CounterDelta>),
    /// The corrected value, divided by `scale`.
    Scaled { delta: CounterDelta, scale: u64 },
    /// One corrected value divided by another.
    Ratio { num: Option<CounterDelta>, den: Option<CounterDelta> },
    /// A corrected value, divided by a time in nanoseconds.
    PerTime { num: Option<CounterDelta>, nanos: u128 },
    /// A time in nanoseconds, taken in seconds.
    Seconds { nanos: u128 },
}

/// A quantity, and to how many decimals it is printed.
#[derive(Debug, Clone, Copy, PartialEq, Eq, Structural)]
pub struct Number {
    /// The quantity.
    pub measure: Measure,
    /// The number of decimals.
    pub decimals: usize,
}

/// Nothing that is counted has run backwards from `start` to `end`.
pub open spec fn in_order(start: Reading, end: Reading) -> bool {
    &&& start.value <= end.value
    &&& start.time_enabled <= end.time_enabled
    &&& start.time_running <= end.time_running
}

/// What was gained from `start` to `end`.
pub open spec fn gained(start: Reading, end: Reading) -> CounterDelta {
    CounterDelta {
        value: (end.value - start.value) as u64,
        time_enabled: (end.time_enabled - start.time_enabled) as u64,
        time_running: (end.time_running - start.time_running) as u64,
    }
}

/// A reading of a counter that has not been read.
pub open spec fn no_reading() -> Reading {
    Reading { value: 0, time_enabled: 0, time_running: 0, id: 0 }
}

/// An open counter, with the readings at both ends of what is measured.
pub struct CounterState<C> {
    /// The counter itself.
    pub counter: C,
    /// The reading at the start.
    pub start: Reading,
    /// The reading at the end.
    pub end: Reading,
}

impl<C> CounterState<C> {
    /// The reading of a counter that has not been read.
    pub fn empty_read_format() -> (res: Reading)
        ensures
            res == no_reading(),
    {
        Reading { value: 0, time_enabled: 0, time_running: 0, id: 0 }
    }

    /// Whether the counter has run forwards only.
    pub fn is_in_order(&self) -> (res: bool)
        ensures
            res == in_order(self.start, self.end),
    {
        self.start.value <= self.end.value && self.start.time_enabled <= self.end.time_enabled
            && self.start.time_running <= self.end.time_running
    }

    /// What the counter gained from start to end.
    pub fn read(&self) -> (res: CounterDelta)
        requires
            in_order(self.start, self.end),
        ensures
            res == gained(self.start, self.end),
    {
        CounterDelta {
            value: self.end.value - self.start.value,
            time_enabled: self.end.time_enabled - self.start.time_enabled,
            time_running: self.end.time_running - self.start.time_running,
        }
    }
}

impl<C> From<C> for CounterState<C> {
    fn from(counter: C) -> (res: Self) {
        CounterState {
            counter,
            start: Self::empty_read_format(),
            end: Self::empty_read_format(),
        }
    }
}

impl<C> vstd::std_specs::convert::FromSpecImpl<C> for CounterState<C> {
    open spec fn obeys_from_spec() -> bool {
        true
    }

    open spec fn from_spec(v: C) -> CounterState<C> {
        CounterState { counter: v, start: no_reading(), end: no_reading() }
    }
}

/// Gains add up: measuring from `a` to `b` and from `b` to `c` counts what measuring
/// from `a` to `c` does.
pub proof fn law_gains_add_up(a: Reading, b: Reading, c: Reading)
    requires
        in_order(a, b),
        in_order(b, c),
    ensures
        in_order(a, c),
        gained(a, c).value == gained(a, b).value + gained(b, c).value,
        gained(a, c).time_enabled == gained(a, b).time_enabled + gained(b, c).time_enabled,
        gained(a, c).time_running == gained(a, b).time_running + gained(b, c).time_running,
{
}

/// What is gained over consecutive slices, one reading after the other.
pub open spec fn gained_in_slices(readings: Seq<Reading>) -> int
    decreases readings.len(),
{
    if readings.len() <= 1 {
        0
    } else {
        gained_in_slices(readings.drop_last()) + gained(
            readings[readings.len() - 2],
            readings.last(),
        ).value
    }
}

/// Slices miss nothing and count nothing twice: what they gain adds up to what was gained
/// from the first reading to the last.
pub proof fn law_slices_add_up(readings: Seq<Reading>)
    requires
        readings.len() > 0,
        forall|i: int, j: int|
            #![trigger readings[i], readings[j]]
            0 <= i <= j < readings.len() ==> in_order(readings[i], readings[j]),
    ensures
        gained_in_slices(readings) == gained(readings[0], readings.last()).value,
    decreases readings.len(),
{
    if readings.len() > 1 {
        let head = readings.drop_last();
        let n = readings.len();
        assert forall|i: int, j: int|
            #![trigger head[i], head[j]]
            0 <= i <= j < head.len() implies in_order(head[i], head[j]) by {
            assert(in_order(readings[i], readings[j]));
        }
        law_slices_add_up(head);
        assert(head.last() == readings[n - 2]);
        assert(in_order(readings[0], readings[n - 2]));
        assert(in_order(readings[n - 2], readings[n - 1]));
        law_gains_add_up(readings[0], readings[n - 2], readings[n - 1]);
    } else {
        assert(readings[0] == readings.last());
    }
}

/// What a counter gained is what is missing from its first reading to its last, in its value
/// and in both times.
pub proof fn law_gain_makes_up_the_difference(start: Reading, end: Reading)
    ensures
        in_order(start, end) <==> {
            &&& start.value <= end.value
            &&& start.time_enabled <= end.time_enabled
            &&& start.time_running <= end.time_running
        },
        in_order(start, end) ==> {
            &&& start.value + gained(start, end).value == end.value
            &&& start.time_enabled + gained(start, end).time_enabled == end.time_enabled
            &&& start.time_running + gained(start, end).time_running == end.time_running
        },
{
}

/// A counter that was not read shows nothing, and gained nothing.
pub proof fn law_unread_counter_shows_nothing()
    ensures
        no_reading().value == 0,
        no_reading().time_enabled == 0,
        no_reading().time_running == 0,
        no_reading().id == 0,
        in_order(no_reading(), no_reading()),
        gained(no_reading(), no_reading()).value == 0,
{
}

} // verus!

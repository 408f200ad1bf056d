//! Low-level counter groups: opening, starting, stopping and reading counters, and
//! the columns that are printed of them.

use vstd::prelude::*;
use vstd::string::*;

use crate::counter::{gained, in_order, no_reading};
use crate::counter::{CounterDelta, CounterState, Measure, Number, Reading};
use crate::events::{builder_settings, default_events, event_models, event_names};
use crate::events::{finalize_builder, finalized, Events, NamedBuilder, Setting};
use crate::params::Column;
use crate::print::{data_line, header_line, may_write_all, ColumnWriter};
use crate::print::{lemma_side_by_side, lemma_write_one_more};
use crate::runs::{after_start, answers, fetch_run, fits, next_perf, next_run};
use crate::runs::{start_run, stop_run, with_end, with_start, CounterRun, Reply, Stage};
use crate::text::{byte_order, bytes_in, decimal, longest, TextOrder};

verus! {

/// A counter of a group: its name and its state.
pub type NamedCounter<C> = (Seq<char>, CounterState<C>);

/// What a counter group holds.
#[verifier::ext_equal]
pub struct PerfModel<C> {
    /// The counters, in the order in which they were registered.
    pub counters: Seq<NamedCounter<C>>,
    /// When the counters were started, in nanoseconds.
    pub t_start: u128,
    /// When the counters were stopped, in nanoseconds.
    pub t_stop: u128,
}

/// Low-level counter group.
///
/// Times are in nanoseconds on one clock that does not matter otherwise.
pub struct PerfEvent<C> {
    counters: Vec<(String, CounterState<C>)>,
    t_start: u128,
    t_stop: u128,
}

impl<C> View for PerfEvent<C> {
    type V = PerfModel<C>;

    closed spec fn view(&self) -> PerfModel<C> {
        PerfModel {
            counters: self.counters@.map_values(|c: (String, CounterState<C>)| (c.0@, c.1)),
            t_start: self.t_start,
            t_stop: self.t_stop,
        }
    }
}

/// The stage after counter `i` of `n`, in a row that ends with `Finished`.
fn stage_after(i: usize, n: usize, next: Stage) -> (res: Stage)
    requires
        i < n,
    ensures
        res == if i + 1 < n {
            next
        } else {
            Stage::Finished
        },
{
    if i + 1 < n {
        next
    } else {
        Stage::Finished
    }
}

impl<C> PerfEvent<C> {
    /// Starts the registered counters: the run that does so.
    pub fn start_counters<E>(&self) -> (res: CounterRun<E>)
        ensures
            res == start_run::<E>(self@.counters.len()),
    {
        CounterRun {
            stage: if 0 < self.counters.len() {
                Stage::Reset(0)
            } else {
                Stage::StartClock
            },
            error: None,
        }
    }

    /// Stops the registered counters: the run that does so.
    pub fn stop_counters<E>(&self) -> (res: CounterRun<E>)
        ensures
            res == stop_run::<E>(),
    {
        CounterRun { stage: Stage::StopClock, error: None }
    }

    /// Reads the registered counters while they go on: the run that does so.
    pub fn fetch_current_counters<E>(&self) -> (res: CounterRun<E>)
        ensures
            res == fetch_run::<E>(),
    {
        CounterRun { stage: Stage::FetchClock, error: None }
    }

    /// Takes down how the command of the run went, and moves the run on.
    pub fn step<E>(&mut self, run: CounterRun<E>, reply: Reply<E>) -> (res: CounterRun<E>)
        requires
            fits(run.stage, old(self)@.counters.len()),
            answers(reply, run.stage),
        ensures
            res == next_run(run, reply, old(self)@.counters.len()),
            final(self)@ == next_perf(old(self)@, run.stage, reply),
            fits(res.stage, final(self)@.counters.len()),
    {
        let n: usize = self.counters.len();
        let ghost before = self@;
        let stage = run.stage;
        let next = match stage {
            Stage::Reset(i) => match reply {
                Reply::Failed(e) => self.start_next(i, Some(e)),
                _ => CounterRun { stage: Stage::Enable(i), error: run.error },
            },
            Stage::Enable(i) => match reply {
                Reply::Failed(e) => self.start_next(i, Some(e)),
                _ => CounterRun { stage: Stage::ReadStart(i), error: run.error },
            },
            Stage::ReadStart(i) => match reply {
                Reply::Failed(e) => self.start_next(i, Some(e)),
                Reply::Value(r) => {
                    self.counters[i].1.start = r;
                    assert(self@ =~= with_start(before, i as int, r));
                    self.start_next(i, run.error)
                },
                _ => self.start_next(i, run.error),
            },
            Stage::StartClock => {
                if let Reply::Time(t) = reply {
                    self.t_start = t;
                }
                CounterRun { stage: Stage::Finished, error: run.error }
            },
            Stage::UndoRead(i) => match reply {
                Reply::Value(r) => {
                    self.counters[i].1.end = r;
                    assert(self@ =~= with_end(before, i as int, r));
                    CounterRun { stage: Stage::UndoDisable(i), error: run.error }
                },
                _ => CounterRun {
                    stage: stage_after(i, n, Stage::UndoRead(i + 1)),
                    error: run.error,
                },
            },
            Stage::UndoDisable(i) => CounterRun {
                stage: stage_after(i, n, Stage::UndoRead(i + 1)),
                error: run.error,
            },
            Stage::StopClock => {
                if let Reply::Time(t) = reply {
                    self.t_stop = t;
                }
                CounterRun {
                    stage: if 0 < n {
                        Stage::StopRead(0)
                    } else {
                        Stage::Finished
                    },
                    error: run.error,
                }
            },
            Stage::StopRead(i) => match reply {
                Reply::Value(r) => {
                    self.counters[i].1.end = r;
                    assert(self@ =~= with_end(before, i as int, r));
                    CounterRun { stage: Stage::StopDisable(i), error: run.error }
                },
                Reply::Failed(e) => CounterRun {
                    stage: stage_after(i, n, Stage::StopRead(i + 1)),
                    error: Some(e),
                },
                _ => CounterRun { stage: Stage::StopDisable(i), error: run.error },
            },
            Stage::StopDisable(i) => match reply {
                Reply::Failed(e) => CounterRun {
                    stage: stage_after(i, n, Stage::StopRead(i + 1)),
                    error: Some(e),
                },
                _ => CounterRun {
                    stage: stage_after(i, n, Stage::StopRead(i + 1)),
                    error: run.error,
                },
            },
            Stage::FetchClock => {
                if let Reply::Time(t) = reply {
                    self.t_stop = t;
                }
                CounterRun {
                    stage: if 0 < n {
                        Stage::FetchRead(0)
                    } else {
                        Stage::Finished
                    },
                    error: run.error,
                }
            },
            Stage::FetchRead(i) => match reply {
                Reply::Value(r) => {
                    self.counters[i].1.end = r;
                    assert(self@ =~= with_end(before, i as int, r));
                    CounterRun {
                        stage: stage_after(i, n, Stage::FetchRead(i + 1)),
                        error: run.error,
                    }
                },
                Reply::Failed(e) => CounterRun {
                    stage: stage_after(i, n, Stage::FetchRead(i + 1)),
                    error: Some(e),
                },
                _ => CounterRun {
                    stage: stage_after(i, n, Stage::FetchRead(i + 1)),
                    error: run.error,
                },
            },
            Stage::Finished => run,
        };
        assert(self@.counters.len() == n);
        next
    }

    /// The start run once counter `i` was dealt with.
    fn start_next<E>(&self, i: usize, error: Option<E>) -> (res: CounterRun<E>)
        requires
            i < self@.counters.len(),
        ensures
            res == (CounterRun { stage: after_start(i, self@.counters.len(), error), error }),
    {
        let n: usize = self.counters.len();
        let stage = if i + 1 < n {
            Stage::Reset(i + 1)
        } else if error.is_some() {
            Stage::UndoRead(0)
        } else {
            Stage::StartClock
        };
        CounterRun { stage, error }
    }
}

////////////////////////////////////////////////////////////////////////////////
// Opening

/// What an opening holds.
#[verifier::ext_equal]
pub struct OpeningModel<C, E> {
    /// The counters that were opened so far.
    pub counters: Seq<NamedCounter<C>>,
    /// Why the opening failed, if it did.
    pub error: Option<E>,
}

/// No counter was opened yet.
pub open spec fn nothing_opened<C, E>() -> OpeningModel<C, E> {
    OpeningModel { counters: Seq::empty(), error: None }
}

/// There is nothing left to open: all events have their counters, or one could not be opened.
pub open spec fn opening_over<C, E>(opening: OpeningModel<C, E>, events: nat) -> bool {
    opening.error is Some || opening.counters.len() >= events
}

/// A counter that was opened under the name, and not read yet.
pub open spec fn fresh_counter<C>(name: Seq<char>, counter: C) -> NamedCounter<C> {
    (name, CounterState { counter, start: no_reading(), end: no_reading() })
}

/// The opening after its next counter, under the name, was opened or could not be.
pub open spec fn next_opening<C, E>(
    opening: OpeningModel<C, E>,
    name: Seq<char>,
    outcome: Result<C, E>,
) -> OpeningModel<C, E> {
    match outcome {
        Ok(counter) => OpeningModel {
            counters: opening.counters.push(fresh_counter(name, counter)),
            ..opening
        },
        Err(e) => OpeningModel { error: Some(e), ..opening },
    }
}

/// The event `after` is `before` with its builder finalized.
pub open spec fn event_finalized(before: NamedBuilder, after: NamedBuilder) -> bool {
    &&& after.0 == before.0
    &&& builder_settings(after.1) == finalized(builder_settings(before.1))
}

/// The builder of event `i` was finalized, and the other events are the same as before.
pub open spec fn finalized_at(
    before: Seq<NamedBuilder>,
    i: int,
    after: Seq<NamedBuilder>,
) -> bool {
    &&& 0 <= i < before.len()
    &&& event_finalized(before[i], after[i])
    &&& after == before.update(i, after[i])
}

/// A counter group in the making: the counters that were opened so far, or why one could not
/// be.
pub struct Opening<C, E> {
    counters: Vec<(String, CounterState<C>)>,
    error: Option<E>,
}

impl<C, E> View for Opening<C, E> {
    type V = OpeningModel<C, E>;

    closed spec fn view(&self) -> OpeningModel<C, E> {
        OpeningModel {
            counters: self.counters@.map_values(|c: (String, CounterState<C>)| (c.0@, c.1)),
            error: self.error,
        }
    }
}

impl<C, E> Opening<C, E> {
    /// Nothing was opened yet.
    pub fn new() -> (res: Self)
        ensures
            res@ == nothing_opened::<C, E>(),
    {
        let res = Opening { counters: Vec::new(), error: None };
        assert(res@.counters =~= Seq::<NamedCounter<C>>::empty());
        res
    }

    /// The event whose counter is to be opened next, its builder finalized; `None` when all
    /// are open, or one could not be opened.
    pub fn next(&self, events: &mut Events) -> (res: Option<usize>)
        ensures
            res is None <==> opening_over(self@, old(events)@.len()),
            res is None ==> final(events)@ == old(events)@,
            res matches Some(i) ==> {
                &&& i == self@.counters.len()
                &&& finalized_at(old(events)@, i as int, final(events)@)
            },
    {
        let i: usize = self.counters.len();
        if self.error.is_none() && i < events.len() {
            let ghost before = events@;
            let event = events.get_mut(i);
            finalize_builder(&mut event.1);
            assert(events@ =~= before.update(i as int, events@[i as int]));
            Some(i)
        } else {
            None
        }
    }

    /// Takes down how opening the counter of the next event went. A failure ends the
    /// opening.
    pub fn opened(&mut self, events: &Events, counter: Result<C, E>)
        requires
            !opening_over(old(self)@, events@.len()),
        ensures
            final(self)@ == next_opening(
                old(self)@,
                events@[old(self)@.counters.len() as int].0,
                counter,
            ),
    {
        let ghost before = self@;
        let i: usize = self.counters.len();
        match counter {
            Ok(c) => {
                self.counters.push((events.name(i).to_owned(), CounterState::from(c)));
                assert(self@.counters =~= before.counters.push(
                    fresh_counter(events@[i as int].0, c),
                ));
            },
            Err(e) => {
                self.error = Some(e);
            },
        }
    }

    /// The group of the counters that were opened, or why one could not be.
    pub fn finish(self, t_start: u128, t_stop: u128) -> (res: Result<PerfEvent<C>, E>)
        ensures
            self@.error matches Some(e) ==> res == Err::<PerfEvent<C>, E>(e),
            self@.error is None ==> {
                &&& res is Ok
                &&& res->Ok_0@ == (PerfModel { counters: self@.counters, t_start, t_stop })
            },
    {
        match self.error {
            Some(e) => Err(e),
            None => Ok(PerfEvent { counters: self.counters, t_start, t_stop }),
        }
    }
}

impl<C> PerfEvent<C> {
    /// The group that was opened; if that failed, a group without counters, and the
    /// error to be reported.
    pub fn new_or_empty<E>(opened: Result<Self, E>, t_start: u128, t_stop: u128) -> (res: (
        Self,
        Option<E>,
    ))
        ensures
            opened matches Ok(perf) ==> res == (perf, None::<E>),
            opened matches Err(e) ==> {
                &&& res.0@ == PerfModel::<C> { counters: Seq::empty(), t_start, t_stop }
                &&& res.1 == Some(e)
            },
    {
        match opened {
            Ok(perf) => (perf, None),
            Err(e) => {
                let empty = PerfEvent { counters: Vec::new(), t_start, t_stop };
                assert(empty@.counters =~= Seq::empty());
                (empty, Some(e))
            },
        }
    }

    /// Registers an additional counter *before* the counters are stopped, if it could
    /// be opened.
    pub fn register_counter<E>(&mut self, opened: Result<C, E>, name: &str) -> (res: Result<(), E>)
        ensures
            opened matches Ok(counter) ==> {
                &&& res == Ok::<(), E>(())
                &&& final(self)@ == (PerfModel {
                    counters: old(self)@.counters.push(fresh_counter(name@, counter)),
                    ..old(self)@
                })
            },
            opened matches Err(e) ==> {
                &&& res == Err::<(), E>(e)
                &&& final(self)@ == old(self)@
            },
    {
        let ghost before = self@;
        match opened {
            Ok(counter) => {
                self.counters.push((name.to_owned(), CounterState::from(counter)));
                assert(self@.counters =~= before.counters.push(fresh_counter(name@, counter)));
                Ok(())
            },
            Err(e) => Err(e),
        }
    }

    /// The number of counters.
    pub fn len(&self) -> (res: usize)
        ensures
            res == self@.counters.len(),
    {
        self.counters.len()
    }

    /// The counter at `i` itself.
    pub fn counter_mut(&mut self, i: usize) -> (res: &mut C)
        requires
            i < old(self)@.counters.len(),
        ensures
            *res == old(self)@.counters[i as int].1.counter,
            final(self)@ == ({
                let (name, state) = old(self)@.counters[i as int];
                PerfModel {
                    counters: old(self)@.counters.update(
                        i as int,
                        (name, CounterState { counter: *final(res), ..state }),
                    ),
                    ..old(self)@
                }
            }),
    {
        let res = &mut self.counters[i].1.counter;
        res
    }

    /// Begins a new slice where the last one ended.
    pub fn advance_counter_start_to_end(&mut self)
        ensures
            final(self)@ == advanced(old(self)@),
    {
        let ghost before = self@;
        let mut i: usize = 0;
        while i < self.counters.len()
            invariant
                i <= self.counters@.len(),
                self@.counters.len() == before.counters.len(),
                self.t_start == before.t_start,
                self.t_stop == before.t_stop,
                forall|j: int|
                    #![trigger self@.counters[j]]
                    0 <= j < self@.counters.len() ==> self@.counters[j] == if j < i {
                        advanced(before).counters[j]
                    } else {
                        before.counters[j]
                    },
            decreases self.counters@.len() - i,
        {
            let ghost mid = self@;
            let end = self.counters[i].1.end;
            assert(mid.counters[i as int].1.end == end);
            self.counters[i].1.start = end;
            assert(self@.counters =~= with_start(mid, i as int, end).counters);
            i += 1;
        }
        self.t_start = self.t_stop;
        assert(self@.counters =~= advanced(before).counters);
    }
}

/// The group with each slice moved on: what was the end is the start.
pub open spec fn advanced<C>(perf: PerfModel<C>) -> PerfModel<C> {
    PerfModel {
        counters: perf.counters.map_values(
            |c: NamedCounter<C>| (c.0, CounterState { start: c.1.end, ..c.1 }),
        ),
        t_start: perf.t_stop,
        t_stop: perf.t_stop,
    }
}

////////////////////////////////////////////////////////////////////////////////
// Values

/// Counter `i` is the first of the name.
pub open spec fn is_first_named<C>(
    counters: Seq<NamedCounter<C>>,
    name: Seq<char>,
    i: int,
) -> bool {
    &&& 0 <= i < counters.len()
    &&& counters[i].0 == name
    &&& forall|j: int| 0 <= j < i ==> (#[trigger] counters[j]).0 != name
}

/// What the first counter of the name gained, if there is one.
pub open spec fn gained_by<C>(counters: Seq<NamedCounter<C>>, name: Seq<char>) -> Option<
    CounterDelta,
> {
    if exists|i: int| is_first_named(counters, name, i) {
        let i = choose|i: int| is_first_named(counters, name, i);
        Some(gained(counters[i].1.start, counters[i].1.end))
    } else {
        None
    }
}

/// The first counter of the name has run forwards only, if there is one.
pub open spec fn named_in_order<C>(counters: Seq<NamedCounter<C>>, name: Seq<char>) -> bool {
    forall|i: int| #[trigger]
        is_first_named(counters, name, i) ==> in_order(counters[i].1.start, counters[i].1.end)
}

/// A name has one first counter only.
proof fn lemma_only_one_first<C>(counters: Seq<NamedCounter<C>>, name: Seq<char>, i: int)
    requires
        is_first_named(counters, name, i),
    ensures
        forall|k: int| #[trigger] is_first_named(counters, name, k) ==> k == i,
{
    assert forall|k: int| #[trigger] is_first_named(counters, name, k) implies k == i by {
        if k < i {
            assert(counters[k].0 != name);
        }
        if i < k {
            assert(counters[i].0 != name);
        }
    }
}

/// Every counter has run forwards only.
pub open spec fn all_in_order<C>(counters: Seq<NamedCounter<C>>) -> bool {
    forall|i: int|
        #![trigger counters[i]]
        0 <= i < counters.len() ==> in_order(counters[i].1.start, counters[i].1.end)
}

/// The time from start to stop in nanoseconds; none if the clock went backwards.
pub open spec fn elapsed<C>(perf: PerfModel<C>) -> u128 {
    if perf.t_start <= perf.t_stop {
        (perf.t_stop - perf.t_start) as u128
    } else {
        0
    }
}

/// Instructions per cycle.
pub open spec fn ipc_of<C>(perf: PerfModel<C>) -> Measure {
    Measure::Ratio {
        num: gained_by(perf.counters, "instructions"@),
        den: gained_by(perf.counters, "cycles"@),
    }
}

/// Processors in use: processor time per time.
pub open spec fn cpus_of<C>(perf: PerfModel<C>) -> Measure {
    Measure::PerTime { num: gained_by(perf.counters, "task-clock"@), nanos: elapsed(perf) }
}

/// Cycles per nanosecond of processor time.
pub open spec fn ghz_of<C>(perf: PerfModel<C>) -> Measure {
    Measure::Ratio {
        num: gained_by(perf.counters, "cycles"@),
        den: gained_by(perf.counters, "task-clock"@),
    }
}

/// A number that is printed to two decimals.
pub open spec fn two_decimals(measure: Measure) -> Number {
    Number { measure, decimals: 2 }
}

/// The numbers that the columns of a group hold: each counter divided by `scale`, then
/// the derived ones.
pub open spec fn perf_numbers<C>(perf: PerfModel<C>, scale: u64) -> Seq<Number> {
    perf.counters.map_values(
        |c: NamedCounter<C>|
            two_decimals(Measure::Scaled { delta: gained(c.1.start, c.1.end), scale }),
    ) + seq![
        two_decimals(ipc_of(perf)),
        two_decimals(cpus_of(perf)),
        two_decimals(ghz_of(perf)),
    ]
}

/// The columns of a group, with the texts of their numbers: the counters, the scale,
/// and the derived numbers.
pub open spec fn perf_columns<C>(
    perf: PerfModel<C>,
    scale: u64,
    texts: Seq<Seq<char>>,
) -> Seq<Column> {
    let n = perf.counters.len() as int;
    Seq::new(perf.counters.len(), |i: int| (perf.counters[i].0, texts[i])) + seq![
        ("scale"@, decimal(scale as nat)),
        ("IPC"@, texts[n]),
        ("CPUs"@, texts[n + 1]),
        ("GHz"@, texts[n + 2]),
    ]
}

/// The names of the counters.
pub open spec fn counter_names<C>(counters: Seq<NamedCounter<C>>) -> Seq<Seq<char>> {
    counters.map_values(|c: NamedCounter<C>| c.0)
}

/// The characters of the texts.
pub open spec fn text_views(texts: Seq<String>) -> Seq<Seq<char>> {
    texts.map_values(|t: String| t@)
}

impl<C> PerfEvent<C> {
    /// Whether every counter has run forwards only.
    pub fn is_in_order(&self) -> (res: bool)
        ensures
            res == all_in_order(self@.counters),
    {
        let mut i: usize = 0;
        while i < self.counters.len()
            invariant
                i <= self.counters@.len(),
                forall|j: int|
                    #![trigger self@.counters[j]]
                    0 <= j < i ==> in_order(
                        self@.counters[j].1.start,
                        self@.counters[j].1.end,
                    ),
            decreases self.counters@.len() - i,
        {
            assert(self@.counters[i as int].1 == self.counters@[i as int].1);
            if !self.counters[i].1.is_in_order() {
                return false;
            }
            i += 1;
        }
        true
    }

    /// What the counter at `idx` gained.
    pub fn counter(&self, idx: usize) -> (res: CounterDelta)
        requires
            idx < self@.counters.len(),
            in_order(
                self@.counters[idx as int].1.start,
                self@.counters[idx as int].1.end,
            ),
        ensures
            res == gained(self@.counters[idx as int].1.start, self@.counters[idx as int].1.end),
    {
        self.counters[idx].1.read()
    }

    /// The first counter of the name.
    fn position(&self, name: &str) -> (res: Option<usize>)
        ensures
            res matches Some(i) ==> is_first_named(self@.counters, name@, i as int),
            res is None ==> forall|i: int| !#[trigger] is_first_named(self@.counters, name@, i),
    {
        let mut i: usize = 0;
        while i < self.counters.len()
            invariant
                i <= self.counters@.len(),
                forall|j: int| 0 <= j < i ==> (#[trigger] self@.counters[j]).0 != name@,
            decreases self.counters@.len() - i,
        {
            assert(self@.counters[i as int].0 == self.counters@[i as int].0@);
            let order = byte_order(self.counters[i].0.as_str(), name);
            if let TextOrder::Same = order {
                return Some(i);
            }
            i += 1;
        }
        None
    }

    /// Whether the counter of the name has run forwards only, if there is one.
    pub fn is_named_in_order(&self, name: &str) -> (res: bool)
        ensures
            res == named_in_order(self@.counters, name@),
    {
        match self.position(name) {
            Some(i) => {
                proof {
                    lemma_only_one_first(self@.counters, name@, i as int);
                }
                self.counters[i].1.is_in_order()
            },
            None => true,
        }
    }

    /// Counter value by name.
    pub fn try_get(&self, name: &str) -> (res: Option<CounterDelta>)
        requires
            named_in_order(self@.counters, name@),
        ensures
            res == gained_by(self@.counters, name@),
    {
        match self.position(name) {
            Some(i) => {
                proof {
                    lemma_only_one_first(self@.counters, name@, i as int);
                }
                Some(self.counter(i))
            },
            None => None,
        }
    }

    /// Counter value by name, or no number if the name is unknown.
    pub fn get(&self, name: &str) -> (res: Measure)
        requires
            named_in_order(self@.counters, name@),
        ensures
            res == Measure::Counter(gained_by(self@.counters, name@)),
    {
        Measure::Counter(self.try_get(name))
    }

    /// The time from start to stop.
    pub fn duration(&self) -> (res: Measure)
        ensures
            res == (Measure::Seconds { nanos: elapsed(self@) }),
    {
        Measure::Seconds { nanos: self.duration_us() }
    }

    /// The time from start to stop, in nanoseconds.
    pub fn duration_us(&self) -> (res: u128)
        ensures
            res == elapsed(self@),
    {
        if self.t_start <= self.t_stop {
            self.t_stop - self.t_start
        } else {
            0
        }
    }

    /// Instructions per cycle.
    pub fn ipc(&self) -> (res: Measure)
        requires
            named_in_order(self@.counters, "instructions"@),
            named_in_order(self@.counters, "cycles"@),
        ensures
            res == ipc_of(self@),
    {
        Measure::Ratio { num: self.try_get("instructions"), den: self.try_get("cycles") }
    }

    /// Processors in use.
    pub fn cpus(&self) -> (res: Measure)
        requires
            named_in_order(self@.counters, "task-clock"@),
        ensures
            res == cpus_of(self@),
    {
        Measure::PerTime { num: self.try_get("task-clock"), nanos: self.duration_us() }
    }

    /// Clock rate of the processors in use.
    pub fn ghz(&self) -> (res: Measure)
        requires
            named_in_order(self@.counters, "cycles"@),
            named_in_order(self@.counters, "task-clock"@),
        ensures
            res == ghz_of(self@),
    {
        Measure::Ratio { num: self.try_get("cycles"), den: self.try_get("task-clock") }
    }

    /// The numbers that [`Self::write_columns`] needs the texts of.
    pub fn numbers(&self, scale: u64) -> (res: Vec<Number>)
        requires
            all_in_order(self@.counters),
        ensures
            res@ == perf_numbers(self@, scale),
    {
        let ghost want = perf_numbers(self@, scale);
        let mut res: Vec<Number> = Vec::new();
        let mut i: usize = 0;
        while i < self.counters.len()
            invariant
                i <= self.counters@.len(),
                all_in_order(self@.counters),
                want == perf_numbers(self@, scale),
                res@ == want.take(i as int),
            decreases self.counters@.len() - i,
        {
            let delta = self.counter(i);
            res.push(Number { measure: Measure::Scaled { delta, scale }, decimals: 2 });
            assert(res@ =~= want.take(i + 1));
            i += 1;
        }
        res.push(Number { measure: self.ipc(), decimals: 2 });
        res.push(Number { measure: self.cpus(), decimals: 2 });
        res.push(Number { measure: self.ghz(), decimals: 2 });
        assert(res@ =~= want);
        res
    }

    /// The length of the longest name of a counter in bytes.
    pub fn longest_name(&self) -> (res: usize)
        ensures
            res == longest(counter_names(self@.counters)),
    {
        let ghost names = counter_names(self@.counters);
        let mut res: usize = 0;
        let mut i: usize = 0;
        while i < self.counters.len()
            invariant
                i <= self.counters@.len(),
                names == counter_names(self@.counters),
                res == longest(names.take(i as int)),
            decreases self.counters@.len() - i,
        {
            let len: usize = bytes_in(self.counters[i].0.as_str());
            if res < len {
                res = len;
            }
            proof {
                assert(names.take(i + 1).drop_last() =~= names.take(i as int));
                assert(names.take(i + 1).last() == self.counters@[i as int].0@);
            }
            i += 1;
        }
        assert(names.take(i as int) =~= names);
        res
    }

    /// Writes the columns respecting `scale`: the counters, the scale, and the derived
    /// numbers. `texts` holds the numbers as they are to be printed.
    pub fn write_columns<W: ColumnWriter>(&self, scale: u64, texts: &[String], cols: &mut W)
        requires
            texts@.len() == self@.counters.len() + 3,
        ensures
            may_write_all(
                *old(cols),
                perf_columns(self@, scale, text_views(texts@)),
                *final(cols),
            ),
    {
        let ghost before = *cols;
        let ghost all = perf_columns(self@, scale, text_views(texts@));
        let n: usize = self.counters.len();
        let mut i: usize = 0;
        while i < n
            invariant
                i <= n,
                n == self.counters@.len(),
                texts@.len() == n + 3,
                all == perf_columns(self@, scale, text_views(texts@)),
                may_write_all(before, all.take(i as int), *cols),
            decreases n - i,
        {
            let ghost mid = *cols;
            cols.write_str(self.counters[i].0.as_str(), texts[i].as_str());
            proof {
                lemma_write_one_more(before, all.take(i as int), mid, all[i as int], *cols);
                assert(all.take(i as int).push(all[i as int]) =~= all.take(i + 1));
            }
            i += 1;
        }
        let total: usize = texts.len();
        let ghost w0 = *cols;
        cols.write_u64("scale", scale);
        let ghost w1 = *cols;
        cols.write_str("IPC", texts[total - 3].as_str());
        let ghost w2 = *cols;
        cols.write_str("CPUs", texts[total - 2].as_str());
        let ghost w3 = *cols;
        cols.write_str("GHz", texts[total - 1].as_str());
        proof {
            let m = n as int;
            lemma_write_one_more(before, all.take(m), w0, all[m], w1);
            assert(all.take(m).push(all[m]) =~= all.take(m + 1));
            lemma_write_one_more(before, all.take(m + 1), w1, all[m + 1], w2);
            assert(all.take(m + 1).push(all[m + 1]) =~= all.take(m + 2));
            lemma_write_one_more(before, all.take(m + 2), w2, all[m + 2], w3);
            assert(all.take(m + 2).push(all[m + 2]) =~= all.take(m + 3));
            lemma_write_one_more(before, all.take(m + 3), w3, all[m + 3], *cols);
            assert(all.take(m + 3).push(all[m + 3]) =~= all);
        }
    }

    /// The columns as they are printed: the values, and above them a header if it is
    /// asked for. `texts` holds the numbers as they are to be printed.
    pub fn print_columns(&self, scale: u64, header: bool, texts: &Vec<String>) -> (res: String)
        requires
            texts@.len() == self@.counters.len() + 3,
        ensures
            res@ == ({
                let cols = perf_columns(self@, scale, text_views(texts@));
                if header {
                    header_line(cols) + "\n"@ + data_line(cols) + "\n"@
                } else {
                    data_line(cols) + "\n"@
                }
            }),
    {
        let mut cols = (String::new(), String::new());
        let ghost fresh = cols;
        self.write_columns(scale, texts.as_slice(), &mut cols);
        proof {
            let all = perf_columns(self@, scale, text_views(texts@));
            lemma_side_by_side(fresh, all, cols);
            assert(fresh.0@ + header_line(all) =~= header_line(all));
            assert(fresh.1@ + data_line(all) =~= data_line(all));
        }
        let (hdr, dat) = cols;
        let mut res = String::new();
        if header {
            res.append(hdr.as_str());
            res.append("\n");
        }
        res.append(dat.as_str());
        res.append("\n");
        assert(res@ =~= if header {
            hdr@ + "\n"@ + dat@ + "\n"@
        } else {
            dat@ + "\n"@
        });
        res
    }
}

////////////////////////////////////////////////////////////////////////////////
// Laws

/// Of the counters up to `i`, one is the first of the name.
proof fn lemma_first_named<C>(counters: Seq<NamedCounter<C>>, name: Seq<char>, i: int) -> (k: int)
    requires
        0 <= i < counters.len(),
        counters[i].0 == name,
    ensures
        is_first_named(counters, name, k),
        k <= i,
    decreases i,
{
    if exists|j: int| 0 <= j < i && (#[trigger] counters[j]).0 == name {
        let j = choose|j: int| 0 <= j < i && (#[trigger] counters[j]).0 == name;
        lemma_first_named(counters, name, j)
    } else {
        i
    }
}

/// A counter value by name: that of the first counter of the name, and none exactly if no
/// counter has it.
pub proof fn law_first_counter_of_a_name<C>(counters: Seq<NamedCounter<C>>, name: Seq<char>)
    ensures
        gained_by(counters, name) is Some <==> exists|i: int|
            0 <= i < counters.len() && (#[trigger] counters[i]).0 == name,
        forall|i: int| #[trigger]
            is_first_named(counters, name, i) ==> gained_by(counters, name) == Some(
                gained(counters[i].1.start, counters[i].1.end),
            ),
{
    if exists|i: int| 0 <= i < counters.len() && (#[trigger] counters[i]).0 == name {
        let i = choose|i: int| 0 <= i < counters.len() && (#[trigger] counters[i]).0 == name;
        let k = lemma_first_named(counters, name, i);
        assert(is_first_named(counters, name, k));
    }
    assert forall|i: int| #[trigger] is_first_named(counters, name, i) implies gained_by(
        counters,
        name,
    ) == Some(gained(counters[i].1.start, counters[i].1.end)) by {
        lemma_only_one_first(counters, name, i);
    }
}

/// With the events that are counted by default, all derived numbers have what they are
/// derived from.
pub proof fn law_default_events_give_all_numbers<C>(
    perf: PerfModel<C>,
    events: Seq<NamedBuilder>,
)
    requires
        event_models(events) == default_events(),
        counter_names(perf.counters) == event_names(events),
    ensures
        ipc_of(perf) matches Measure::Ratio { num: Some(_), den: Some(_) },
        cpus_of(perf) matches Measure::PerTime { num: Some(_), .. },
        ghz_of(perf) matches Measure::Ratio { num: Some(_), den: Some(_) },
{
    let names = counter_names(perf.counters);
    let models = event_models(events);
    assert(models.len() == 7);
    assert(names.len() == perf.counters.len());
    assert(names[0] == models[0].0);
    assert(names[2] == models[2].0);
    assert(names[6] == models[6].0);
    assert(perf.counters[0].0 == "cycles"@);
    assert(perf.counters[2].0 == "instructions"@);
    assert(perf.counters[6].0 == "task-clock"@);
    law_first_counter_of_a_name(perf.counters, "cycles"@);
    law_first_counter_of_a_name(perf.counters, "instructions"@);
    law_first_counter_of_a_name(perf.counters, "task-clock"@);
}

/// Opening the counters of the events `before` one after the other, with the outcomes, may
/// lead to the opening and leave the events as in `after`.
pub open spec fn opened_with<C, E>(
    before: Seq<NamedBuilder>,
    outcomes: Seq<Result<C, E>>,
    opening: OpeningModel<C, E>,
    after: Seq<NamedBuilder>,
) -> bool
    decreases outcomes.len(),
{
    if outcomes.len() == 0 {
        opening == nothing_opened::<C, E>() && after == before
    } else {
        exists|o: OpeningModel<C, E>, events: Seq<NamedBuilder>|
            opened_with(before, outcomes.drop_last(), o, events) && #[trigger] opened_next(
                o,
                events,
                outcomes.last(),
                opening,
                after,
            )
    }
}

/// The next event was handed out, and its counter was opened or could not be.
pub open spec fn opened_next<C, E>(
    opening: OpeningModel<C, E>,
    events: Seq<NamedBuilder>,
    outcome: Result<C, E>,
    then_opening: OpeningModel<C, E>,
    then_events: Seq<NamedBuilder>,
) -> bool {
    let i = opening.counters.len() as int;
    &&& !opening_over(opening, events.len())
    &&& finalized_at(events, i, then_events)
    &&& then_opening == next_opening(opening, then_events[i].0, outcome)
}

/// What an opening has come to after the outcomes: only the last of them can be a failure,
/// which is then the error; before it, each event has its counter, under its name and not read
/// yet. The builders of the events that were tried are finalized, and the later events are
/// untouched.
pub proof fn law_opening_so_far<C, E>(
    before: Seq<NamedBuilder>,
    outcomes: Seq<Result<C, E>>,
    opening: OpeningModel<C, E>,
    after: Seq<NamedBuilder>,
)
    requires
        opened_with(before, outcomes, opening, after),
    ensures
        outcomes.len() <= before.len(),
        after.len() == before.len(),
        forall|i: int|
            #![trigger after[i]]
            0 <= i < outcomes.len() ==> event_finalized(before[i], after[i]),
        forall|i: int|
            #![trigger after[i]]
            outcomes.len() <= i < before.len() ==> after[i] == before[i],
        forall|i: int| 0 <= i < outcomes.len() - 1 ==> #[trigger] outcomes[i] is Ok,
        opening.error == if outcomes.len() > 0 && outcomes.last() is Err {
            Some(outcomes.last()->Err_0)
        } else {
            None
        },
        opening.counters.len() == if opening.error is Some {
            outcomes.len() - 1
        } else {
            outcomes.len() as int
        },
        forall|i: int|
            #![trigger opening.counters[i]]
            0 <= i < opening.counters.len() ==> opening.counters[i] == fresh_counter(
                before[i].0,
                outcomes[i]->Ok_0,
            ),
    decreases outcomes.len(),
{
    if outcomes.len() > 0 {
        let head = outcomes.drop_last();
        let (o, events) = choose|o: OpeningModel<C, E>, events: Seq<NamedBuilder>|
            opened_with(before, head, o, events) && #[trigger] opened_next(
                o,
                events,
                outcomes.last(),
                opening,
                after,
            );
        law_opening_so_far(before, head, o, events);
        let n = head.len() as int;
        assert(o.error is None);
        assert(events[n] == before[n]);
        assert forall|i: int| 0 <= i < n implies #[trigger] outcomes[i] is Ok by {
            assert(outcomes[i] == head[i]);
        }
        assert forall|i: int|
            #![trigger after[i]]
            0 <= i < outcomes.len() implies event_finalized(before[i], after[i]) by {
            if i < n {
                assert(after[i] == events[i]);
            }
        }
        assert forall|i: int|
            #![trigger after[i]]
            outcomes.len() <= i < before.len() implies after[i] == before[i] by {
            assert(after[i] == events[i]);
        }
        assert forall|i: int|
            #![trigger opening.counters[i]]
            0 <= i < opening.counters.len() implies opening.counters[i] == fresh_counter(
            before[i].0,
            outcomes[i]->Ok_0,
        ) by {
            if i < n {
                assert(opening.counters[i] == o.counters[i]);
            }
        }
    }
}

/// A whole opening, given what opening the counter of each event comes to. It fails exactly if
/// some counter cannot be opened, with the error of the first that cannot; the events after
/// that one are neither tried nor touched. Otherwise the counters are those of the events, in
/// their order.
pub proof fn law_whole_opening<C, E>(
    before: Seq<NamedBuilder>,
    outcomes: Seq<Result<C, E>>,
    tried: int,
    opening: OpeningModel<C, E>,
    after: Seq<NamedBuilder>,
)
    requires
        outcomes.len() == before.len(),
        0 <= tried <= outcomes.len(),
        opened_with(before, outcomes.take(tried), opening, after),
        opening_over(opening, after.len()),
    ensures
        opening.error is Some <==> exists|i: int|
            0 <= i < outcomes.len() && #[trigger] outcomes[i] is Err,
        opening.error matches Some(e) ==> {
            &&& tried > 0
            &&& outcomes[tried - 1] == Err::<C, E>(e)
            &&& forall|i: int| 0 <= i < tried - 1 ==> #[trigger] outcomes[i] is Ok
        },
        forall|i: int|
            #![trigger after[i]]
            tried <= i < before.len() ==> after[i] == before[i],
        opening.error is None ==> {
            &&& tried == before.len()
            &&& counter_names(opening.counters) == event_names(before)
            &&& forall|i: int|
                #![trigger opening.counters[i]]
                0 <= i < before.len() ==> opening.counters[i] == fresh_counter(
                    before[i].0,
                    outcomes[i]->Ok_0,
                )
        },
{
    let told = outcomes.take(tried);
    law_opening_so_far(before, told, opening, after);
    assert forall|i: int| 0 <= i < tried implies #[trigger] outcomes[i] == told[i] by {}
    if opening.error is Some {
        assert(outcomes[tried - 1] == told.last());
    } else {
        assert(tried == before.len());
        assert(told =~= outcomes);
        assert forall|i: int| 0 <= i < outcomes.len() implies #[trigger] outcomes[i] is Ok by {
            if i == tried - 1 {
                assert(outcomes[i] == told.last());
            } else {
                assert(told[i] is Ok);
            }
        }
        assert forall|i: int| 0 <= i < before.len() implies #[trigger] counter_names(
            opening.counters,
        )[i] == event_names(before)[i] by {
            assert(opening.counters[i] == fresh_counter(before[i].0, told[i]->Ok_0));
        }
        assert(counter_names(opening.counters) =~= event_names(before));
    }
}

/// A new slice begins where the last one ended, in every counter and in time.
pub proof fn law_new_slice_begins_at_the_end<C>(perf: PerfModel<C>)
    ensures
        advanced(perf).counters.len() == perf.counters.len(),
        advanced(perf).t_start == perf.t_stop,
        forall|i: int|
            #![trigger advanced(perf).counters[i]]
            #![trigger perf.counters[i]]
            0 <= i < perf.counters.len() ==> {
                &&& advanced(perf).counters[i].0 == perf.counters[i].0
                &&& advanced(perf).counters[i].1.counter == perf.counters[i].1.counter
                &&& advanced(perf).counters[i].1.start == perf.counters[i].1.end
            },
{
}

/// The time of the start and the time that passed make up the time of the stop; no time has
/// passed if the clock went backwards.
pub proof fn law_elapsed_time_leads_to_the_stop<C>(perf: PerfModel<C>)
    ensures
        perf.t_start <= perf.t_stop ==> perf.t_start + elapsed(perf) == perf.t_stop,
        perf.t_start > perf.t_stop ==> elapsed(perf) == 0,
{
}

/// Whether counters run forwards goes by their readings alone: by all of them, or by those of
/// the first counter of a name.
pub proof fn law_running_forwards<C>(counters: Seq<NamedCounter<C>>, name: Seq<char>, i: int)
    requires
        0 <= i < counters.len(),
        !(counters[i].1.start.value <= counters[i].1.end.value
            && counters[i].1.start.time_enabled <= counters[i].1.end.time_enabled
            && counters[i].1.start.time_running <= counters[i].1.end.time_running),
    ensures
        !all_in_order(counters),
        counters[i].0 == name && (forall|j: int|
            0 <= j < i ==> (#[trigger] counters[j]).0 != name) ==> !named_in_order(counters, name),
{
    if counters[i].0 == name && (forall|j: int| 0 <= j < i ==> (#[trigger] counters[j]).0 != name) {
        assert(is_first_named(counters, name, i));
    }
}

/// The value of a name, when counters run forwards: the first counter of that name has it, and
/// it leads from that counter's first reading to its last. A name that no counter has is
/// without a value.
pub proof fn law_value_of_a_name<C>(counters: Seq<NamedCounter<C>>, name: Seq<char>, i: int)
    requires
        0 <= i < counters.len(),
        counters[i].1.start.value <= counters[i].1.end.value,
        counters[i].1.start.time_enabled <= counters[i].1.end.time_enabled,
        counters[i].1.start.time_running <= counters[i].1.end.time_running,
    ensures
        counters[i].0 == name && (forall|j: int|
            0 <= j < i ==> (#[trigger] counters[j]).0 != name) ==> {
            &&& gained_by(counters, name) is Some
            &&& counters[i].1.start.value + gained_by(counters, name)->0.value
                == counters[i].1.end.value
            &&& counters[i].1.start.time_enabled + gained_by(counters, name)->0.time_enabled
                == counters[i].1.end.time_enabled
            &&& counters[i].1.start.time_running + gained_by(counters, name)->0.time_running
                == counters[i].1.end.time_running
        },
        (forall|j: int| 0 <= j < counters.len() ==> (#[trigger] counters[j]).0 != name)
            ==> gained_by(counters, name) is None,
{
    law_first_counter_of_a_name(counters, name);
    if counters[i].0 == name && (forall|j: int| 0 <= j < i ==> (#[trigger] counters[j]).0 != name) {
        assert(is_first_named(counters, name, i));
    }
}

/// A group without counters has no values.
pub proof fn law_no_counters_no_values<C>(name: Seq<char>)
    ensures
        gained_by(Seq::<NamedCounter<C>>::empty(), name) is None,
{
    law_first_counter_of_a_name(Seq::<NamedCounter<C>>::empty(), name);
}

/// Every counter, whatever its name, is shown as what it gained divided by the scale that was
/// asked for, to two decimals.
pub proof fn law_every_counter_is_divided_by_the_scale<C>(perf: PerfModel<C>, scale: u64, i: int)
    requires
        0 <= i < perf.counters.len(),
        perf.counters[i].1.start.value <= perf.counters[i].1.end.value,
        perf.counters[i].1.start.time_enabled <= perf.counters[i].1.end.time_enabled,
        perf.counters[i].1.start.time_running <= perf.counters[i].1.end.time_running,
    ensures
        perf_numbers(perf, scale).len() == perf.counters.len() + 3,
        perf_numbers(perf, scale)[i].decimals == 2,
        perf_numbers(perf, scale)[i].measure matches Measure::Scaled { delta, scale: divisor } && {
            &&& divisor == scale
            &&& perf.counters[i].1.start.value + delta.value == perf.counters[i].1.end.value
            &&& perf.counters[i].1.start.time_enabled + delta.time_enabled
                == perf.counters[i].1.end.time_enabled
            &&& perf.counters[i].1.start.time_running + delta.time_running
                == perf.counters[i].1.end.time_running
        },
{
}

/// Behind the counters come three derived numbers, to two decimals: instructions by cycles,
/// processor time by the time that passed, and cycles by processor time. None of them goes by
/// the scale.
pub proof fn law_derived_numbers<C>(perf: PerfModel<C>, scale: u64)
    ensures
        ({
            let n = perf.counters.len() as int;
            let numbers = perf_numbers(perf, scale);
            let cycles = gained_by(perf.counters, "cycles"@);
            let instructions = gained_by(perf.counters, "instructions"@);
            let clock = gained_by(perf.counters, "task-clock"@);
            &&& numbers.len() == n + 3
            &&& numbers[n].decimals == 2
            &&& numbers[n + 1].decimals == 2
            &&& numbers[n + 2].decimals == 2
            &&& numbers[n].measure == (Measure::Ratio { num: instructions, den: cycles })
            &&& numbers[n + 1].measure matches Measure::PerTime { num, nanos } && num == clock
                && (perf.t_start <= perf.t_stop ==> perf.t_start + nanos == perf.t_stop)
            &&& numbers[n + 2].measure == (Measure::Ratio { num: cycles, den: clock })
            &&& ipc_of(perf) == numbers[n].measure
            &&& cpus_of(perf) == numbers[n + 1].measure
            &&& ghz_of(perf) == numbers[n + 2].measure
        }),
{
}

/// The columns of a group: each counter under its own name with its own text, the scale in
/// decimal, and the texts of the three derived numbers.
pub proof fn law_columns_of_a_group<C>(
    perf: PerfModel<C>,
    scale: u64,
    texts: Seq<Seq<char>>,
    i: int,
)
    requires
        0 <= i < perf.counters.len() + 4,
    ensures
        ({
            let n = perf.counters.len() as int;
            let (name, value) = perf_columns(perf, scale, texts)[i];
            &&& perf_columns(perf, scale, texts).len() == n + 4
            &&& i < n ==> name == perf.counters[i].0 && value == texts[i]
            &&& i == n ==> name == "scale"@ && value == decimal(scale as nat)
            &&& i == n + 1 ==> name == "IPC"@ && value == texts[n]
            &&& i == n + 2 ==> name == "CPUs"@ && value == texts[n + 1]
            &&& i == n + 3 ==> name == "GHz"@ && value == texts[n + 2]
        }),
{
}

/// The names of counters and the characters of texts are those of each, in their order.
pub proof fn law_names_and_texts<C>(counters: Seq<NamedCounter<C>>, texts: Seq<String>)
    ensures
        counter_names(counters).len() == counters.len(),
        forall|i: int|
            0 <= i < counters.len() ==> #[trigger] counter_names(counters)[i] == counters[i].0,
        text_views(texts).len() == texts.len(),
        forall|i: int| 0 <= i < texts.len() ==> #[trigger] text_views(texts)[i] == texts[i]@,
{
}

/// A counter that was just opened has its name and its handle, and shows nothing yet.
pub proof fn law_fresh_counter_shows_nothing<C>(name: Seq<char>, counter: C)
    ensures
        fresh_counter(name, counter).0 == name,
        fresh_counter(name, counter).1.counter == counter,
        fresh_counter(name, counter).1.start.value == 0,
        fresh_counter(name, counter).1.start.time_enabled == 0,
        fresh_counter(name, counter).1.start.time_running == 0,
        fresh_counter(name, counter).1.end == fresh_counter(name, counter).1.start,
{
}

/// The counter of an event is opened with the event that was asked for, for the calling process
/// and its children on any processor, switched off at first, and read with both times and its
/// identity. The other events stay as they are.
pub proof fn law_event_is_opened_for_all_children(
    before: Seq<NamedBuilder>,
    i: int,
    after: Seq<NamedBuilder>,
    j: int,
)
    requires
        finalized_at(before, i, after),
        0 <= j < before.len(),
    ensures
        after.len() == before.len(),
        after[j].0 == before[j].0,
        j != i ==> after[j] == before[j],
        j == i ==> ({
            let old_settings = builder_settings(before[i].1);
            let settings = builder_settings(after[i].1);
            &&& settings.contains_pair(Setting::Inherit, 1)
            &&& settings.contains_pair(Setting::Cpu, -1)
            &&& settings.contains_pair(Setting::Pid, 0)
            &&& settings.contains_pair(Setting::Disabled, 1)
            &&& settings.contains_pair(Setting::ReadTimeEnabled, 1)
            &&& settings.contains_pair(Setting::ReadTimeRunning, 1)
            &&& settings.contains_pair(Setting::ReadId, 1)
            &&& settings[Setting::Kind] == old_settings[Setting::Kind]
            &&& settings[Setting::Config] == old_settings[Setting::Config]
            &&& settings.contains_key(Setting::ExcludeUser) <==> old_settings.contains_key(
                Setting::ExcludeUser,
            )
        }),
{
}

/// A new slice keeps what was read last: it begins with nothing gained and no time passed.
pub proof fn law_new_slice_is_empty<C>(perf: PerfModel<C>, i: int)
    requires
        0 <= i < perf.counters.len(),
    ensures
        advanced(perf).t_stop == perf.t_stop,
        elapsed(advanced(perf)) == 0,
        advanced(perf).counters[i].0 == perf.counters[i].0,
        advanced(perf).counters[i].1.counter == perf.counters[i].1.counter,
        advanced(perf).counters[i].1.start == perf.counters[i].1.end,
        advanced(perf).counters[i].1.end == perf.counters[i].1.end,
{
}

/// A whole slice: what was gained before moving on and after it adds up to what is gained from
/// the first reading to the last.
pub proof fn law_slices_adjoin<C>(perf: PerfModel<C>, i: int, last: Reading)
    requires
        0 <= i < perf.counters.len(),
        in_order(perf.counters[i].1.start, perf.counters[i].1.end),
        in_order(perf.counters[i].1.end, last),
    ensures
        perf.counters[i].1.start.value + gained(
            perf.counters[i].1.start,
            perf.counters[i].1.end,
        ).value + gained(advanced(perf).counters[i].1.start, last).value == last.value,
{
}

/// Counters of which none has a last reading below its first run forwards, all together and
/// under each name.
pub proof fn law_nothing_ran_backwards<C>(counters: Seq<NamedCounter<C>>, name: Seq<char>)
    requires
        forall|i: int|
            #![trigger counters[i]]
            0 <= i < counters.len() ==> {
                &&& counters[i].1.start.value <= counters[i].1.end.value
                &&& counters[i].1.start.time_enabled <= counters[i].1.end.time_enabled
                &&& counters[i].1.start.time_running <= counters[i].1.end.time_running
            },
    ensures
        all_in_order(counters),
        named_in_order(counters, name),
{
}

} // verus!

//! Time-sliced sampling: periodic rows that show what was counted since the row before.
//!
//! The sampler is driven from outside: it says what is to be done next, and is told how
//! it went.

use vstd::prelude::*;
use vstd::string::*;

use crate::counter::Number;
use crate::params::{listing, BenchmarkParameterUpdates, BenchmarkParameters, Column};
use crate::perf::{advanced, all_in_order, perf_columns, perf_numbers, text_views};
use crate::perf::{PerfEvent, PerfModel};
use crate::print::{data_line, header_line, lemma_side_by_side, lemma_write_more};
use crate::text::{decimal, decimal_text, digits_value, law_decimal_reads_back};

verus! {

/// The shortest period between two rows, in nanoseconds.
pub const SHORTEST_PERIOD: u128 = 1000;

/// The period that is kept to when `nanos` was asked for.
pub fn effective_period(nanos: u128) -> (res: u128)
    ensures
        res == if nanos < SHORTEST_PERIOD {
            SHORTEST_PERIOD
        } else {
            nanos
        },
        res >= nanos,
        res >= 1000,
        res == nanos || res == 1000,
{
    if nanos < SHORTEST_PERIOD {
        SHORTEST_PERIOD
    } else {
        nanos
    }
}

/// What the sampler is to do next.
#[derive(Debug, Clone, Copy, PartialEq, Eq, Structural)]
pub enum SamplerStage {
    /// Look whether the sampler was asked to stop.
    PollStop,
    /// Wait for one period.
    Sleep,
    /// Collect the updates that have come in.
    Drain,
    /// Print the header.
    PrintHeader,
    /// Take the time.
    Clock,
    /// Read the counters.
    Fetch,
    /// Print the row.
    PrintRow,
    /// Stop the counters.
    StopCounters,
    /// There is nothing left to do.
    Finished,
}

/// How it went.
pub enum SamplerReply<U> {
    /// Whether the sampler was asked to stop.
    Stop(bool),
    /// The period is over.
    Slept,
    /// The updates that have come in, in their order.
    Updates(Vec<U>),
    /// It was printed.
    Printed,
    /// The time, in nanoseconds.
    Time(u128),
    /// Whether all counters could be read.
    Fetched(bool),
    /// The counters were stopped.
    Stopped,
}

/// The reply is one that the stage can get.
pub open spec fn replies_to<U>(reply: SamplerReply<U>, stage: SamplerStage) -> bool {
    match stage {
        SamplerStage::PollStop => reply is Stop,
        SamplerStage::Sleep => reply is Slept,
        SamplerStage::Drain => reply is Updates,
        SamplerStage::PrintHeader => reply is Printed,
        SamplerStage::Clock => reply is Time,
        SamplerStage::Fetch => reply is Fetched,
        SamplerStage::PrintRow => reply is Printed,
        SamplerStage::StopCounters => reply is Stopped,
        SamplerStage::Finished => false,
    }
}

/// What a sampler holds.
#[verifier::ext_equal]
pub struct SamplerModel<C> {
    /// The counters of the current slice.
    pub perf: PerfModel<C>,
    /// What each counter is divided by.
    pub scale: u64,
    /// The additional columns.
    pub params: Map<Seq<char>, Seq<char>>,
    /// Whether headers are printed.
    pub header: bool,
    /// The number of columns when the last header was due.
    pub last_param_len: nat,
    /// When sampling began, in nanoseconds.
    pub t0: u128,
    /// When the slice before the current one ended, in nanoseconds.
    pub last_t: u128,
    /// The length of the current slice, in microseconds.
    pub slice_us: u64,
    /// The time since sampling began, in microseconds.
    pub t_us: u64,
    /// What is to be done next.
    pub stage: SamplerStage,
}

/// The time between two readings of the clock in microseconds; none if the clock went
/// backwards.
pub open spec fn micros(from: u128, to: u128) -> u64 {
    if from <= to {
        ((to - from) as u128 / 1000) as u64
    } else {
        0
    }
}

/// One update: it reported `scale_override`, which is the new scale if there is one, and
/// turned the columns `before` into `after`.
pub open spec fn takes_update<U: BenchmarkParameterUpdates>(
    update: U,
    scale_override: Option<usize>,
    scale: u64,
    before: Map<Seq<char>, Seq<char>>,
    new_scale: u64,
    after: Map<Seq<char>, Seq<char>>,
) -> bool {
    &&& call_ensures(U::get_scale, (&update,), scale_override)
    &&& new_scale == match scale_override {
        Some(s) => s as u64,
        None => scale,
    }
    &&& update.may_turn(before, after)
}

/// Carrying the updates out one after the other may lead from the one scale and columns
/// to the other.
pub open spec fn may_drain<U: BenchmarkParameterUpdates>(
    updates: Seq<U>,
    scale: u64,
    before: Map<Seq<char>, Seq<char>>,
    new_scale: u64,
    after: Map<Seq<char>, Seq<char>>,
) -> bool
    decreases updates.len(),
{
    if updates.len() == 0 {
        new_scale == scale && after == before
    } else {
        exists|s: u64, m: Map<Seq<char>, Seq<char>>, o: Option<usize>|
            may_drain(updates.drop_last(), scale, before, s, m) && #[trigger] takes_update(
                updates.last(),
                o,
                s,
                m,
                new_scale,
                after,
            )
    }
}

/// The columns with those of the times set.
pub open spec fn with_times(
    params: Map<Seq<char>, Seq<char>>,
    slice: Seq<char>,
    t: Seq<char>,
) -> Map<Seq<char>, Seq<char>> {
    params.insert("slice_us"@, slice).insert("t_us"@, t)
}

/// The sampler once the updates were carried out: a header is due when headers are
/// printed and the number of columns has changed.
pub open spec fn after_drain<C>(
    s: SamplerModel<C>,
    scale: u64,
    params: Map<Seq<char>, Seq<char>>,
) -> SamplerModel<C> {
    if s.header && params.len() != s.last_param_len {
        SamplerModel {
            scale,
            params,
            last_param_len: params.len(),
            stage: SamplerStage::PrintHeader,
            ..s
        }
    } else {
        SamplerModel { scale, params, stage: SamplerStage::Clock, ..s }
    }
}

/// The sampler may go from `s` to `t` on the reply.
pub open spec fn may_step<C, U: BenchmarkParameterUpdates>(
    s: SamplerModel<C>,
    reply: SamplerReply<U>,
    t: SamplerModel<C>,
) -> bool {
    match (s.stage, reply) {
        (SamplerStage::PollStop, SamplerReply::Stop(stop)) => t == (SamplerModel {
            stage: if stop {
                SamplerStage::StopCounters
            } else {
                SamplerStage::Sleep
            },
            ..s
        }),
        (SamplerStage::Sleep, SamplerReply::Slept) => t == (SamplerModel {
            stage: SamplerStage::Drain,
            ..s
        }),
        (SamplerStage::Drain, SamplerReply::Updates(updates)) => {
            &&& may_drain(updates@, s.scale, s.params, t.scale, t.params)
            &&& t == after_drain(s, t.scale, t.params)
        },
        (SamplerStage::PrintHeader, SamplerReply::Printed) => t == (SamplerModel {
            stage: SamplerStage::Clock,
            ..s
        }),
        (SamplerStage::Clock, SamplerReply::Time(now)) => t == (SamplerModel {
            slice_us: micros(s.last_t, now),
            t_us: micros(s.t0, now),
            last_t: now,
            stage: SamplerStage::Fetch,
            ..s
        }),
        (SamplerStage::Fetch, SamplerReply::Fetched(true)) => t == (SamplerModel {
            params: with_times(s.params, decimal(s.slice_us as nat), decimal(s.t_us as nat)),
            stage: SamplerStage::PrintRow,
            ..s
        }),
        (SamplerStage::Fetch, SamplerReply::Fetched(false)) => t == (SamplerModel {
            stage: SamplerStage::StopCounters,
            ..s
        }),
        (SamplerStage::PrintRow, SamplerReply::Printed) => t == (SamplerModel {
            perf: advanced(s.perf),
            stage: SamplerStage::PollStop,
            ..s
        }),
        (SamplerStage::StopCounters, SamplerReply::Stopped) => t == (SamplerModel {
            stage: SamplerStage::Finished,
            ..s
        }),
        _ => false,
    }
}

/// A sampler that has just been set up: its first update is `init`, and the columns of
/// the times are there from the beginning. The columns are counted before those of the
/// times are added.
pub open spec fn set_up<C, U: BenchmarkParameterUpdates>(
    s: SamplerModel<C>,
    perf: PerfModel<C>,
    scale: u64,
    init: U,
    header: bool,
    t0: u128,
) -> bool {
    exists|params: Map<Seq<char>, Seq<char>>| #[trigger]
        may_drain(seq![init], scale, Map::empty(), s.scale, params) && s == (SamplerModel {
            perf,
            scale: s.scale,
            params: with_times(params, Seq::empty(), Seq::empty()),
            header,
            last_param_len: params.len(),
            t0,
            last_t: t0,
            slice_us: 0,
            t_us: 0,
            stage: SamplerStage::PollStop,
        })
}

/// The columns that are printed, with the texts of their numbers. Those of the times stand
/// among the other parameters, in the order of their names.
pub open spec fn sampler_columns<C>(s: SamplerModel<C>, texts: Seq<Seq<char>>) -> Seq<Column> {
    listing(s.params) + perf_columns(s.perf, s.scale, texts)
}

/// The texts that a header goes by: those that are given, or an empty one for each number.
pub open spec fn header_texts<C>(s: SamplerModel<C>, texts: Option<Vec<String>>) -> Seq<Seq<char>> {
    match texts {
        Some(t) => text_views(t@),
        None => Seq::new(s.perf.counters.len() + 3, |i: int| Seq::<char>::empty()),
    }
}

/// Samples a counter group slice by slice.
pub struct Sampler<C> {
    perf: PerfEvent<C>,
    scale: u64,
    params: BenchmarkParameters,
    header: bool,
    last_param_len: usize,
    t0: u128,
    last_t: u128,
    slice_us: u64,
    t_us: u64,
    stage: SamplerStage,
}

impl<C> View for Sampler<C> {
    type V = SamplerModel<C>;

    closed spec fn view(&self) -> SamplerModel<C> {
        SamplerModel {
            perf: self.perf@,
            scale: self.scale,
            params: self.params@,
            header: self.header,
            last_param_len: self.last_param_len as nat,
            t0: self.t0,
            last_t: self.last_t,
            slice_us: self.slice_us,
            t_us: self.t_us,
            stage: self.stage,
        }
    }
}

/// The time between two readings of the clock in microseconds.
fn micros_between(from: u128, to: u128) -> (res: u64)
    ensures
        res == micros(from, to),
{
    if from <= to {
        #[verifier::truncate]
        (((to - from) / 1000) as u64)
    } else {
        0
    }
}

/// Carries the updates out one after the other, and hands back the new scale.
fn drain<U: BenchmarkParameterUpdates>(
    updates: Vec<U>,
    scale: u64,
    params: &mut BenchmarkParameters,
) -> (res: u64)
    ensures
        may_drain(updates@, scale, old(params)@, res, final(params)@),
{
    let ghost before = params@;
    let mut new_scale: u64 = scale;
    for update in it: updates
        invariant
            it.seq() == updates@,
            may_drain(updates@.take(it.index()), scale, before, new_scale, params@),
    {
        let ghost (s, m) = (new_scale, params@);
        let scale_override = update.get_scale();
        if let Some(over) = scale_override {
            new_scale = over as u64;
        }
        update.apply(params);
        proof {
            let n = it.index();
            assert(updates@.take(n + 1).drop_last() =~= updates@.take(n));
            assert(updates@.take(n + 1).last() == update);
            assert(takes_update(update, scale_override, s, m, new_scale, params@));
        }
    }
    assert(updates@.take(updates@.len() as int) =~= updates@);
    new_scale
}

impl<C> Sampler<C> {
    /// Sets a sampler up.
    pub fn new<U: BenchmarkParameterUpdates>(
        perf: PerfEvent<C>,
        scale: u64,
        init: U,
        header: bool,
        t0: u128,
    ) -> (res: Self)
        ensures
            set_up(res@, perf@, scale, init, header, t0),
            res@.params.dom().finite(),
    {
        let mut params = BenchmarkParameters::default();
        let mut first: Vec<U> = Vec::new();
        first.push(init);
        assert(first@ =~= seq![init]);
        let scale = drain(first, scale, &mut params);
        let last_param_len: usize = params.len();
        let ghost given = params@;

        // Ensure these always exist so we can print them.
        params.set("slice_us", "");
        params.set("t_us", "");
        proof {
            reveal_strlit("");
            assert(""@ =~= Seq::<char>::empty());
        }
        let res = Sampler {
            perf,
            scale,
            params,
            header,
            last_param_len,
            t0,
            last_t: t0,
            slice_us: 0,
            t_us: 0,
            stage: SamplerStage::PollStop,
        };
        assert(res@.params == with_times(given, Seq::empty(), Seq::empty()));
        res
    }

    /// What is to be done next.
    pub fn stage(&self) -> (res: SamplerStage)
        ensures
            res == self@.stage,
    {
        self.stage
    }

    /// The counters of the current slice.
    pub fn perf(&mut self) -> (res: &mut PerfEvent<C>)
        ensures
            res@ == old(self)@.perf,
            final(self)@ == (SamplerModel { perf: final(res)@, ..old(self)@ }),
    {
        &mut self.perf
    }

    /// Takes down how it went, and moves on.
    pub fn step<U: BenchmarkParameterUpdates>(&mut self, reply: SamplerReply<U>)
        requires
            replies_to(reply, old(self)@.stage),
        ensures
            may_step(old(self)@, reply, final(self)@),
            reply is Updates ==> final(self)@.params.dom().finite(),
    {
        match reply {
            SamplerReply::Stop(stop) => {
                self.stage = if stop {
                    SamplerStage::StopCounters
                } else {
                    SamplerStage::Sleep
                };
            },
            SamplerReply::Slept => {
                self.stage = SamplerStage::Drain;
            },
            SamplerReply::Updates(updates) => {
                self.scale = drain(updates, self.scale, &mut self.params);
                // If parameter keys changed, re-print the header (cheap heuristic).
                let param_len: usize = self.params.len();
                if self.header && param_len != self.last_param_len {
                    self.last_param_len = param_len;
                    self.stage = SamplerStage::PrintHeader;
                } else {
                    self.stage = SamplerStage::Clock;
                }
            },
            SamplerReply::Printed => {
                if let SamplerStage::PrintRow = self.stage {
                    // Reset the slice window for the next row.
                    self.perf.advance_counter_start_to_end();
                    self.stage = SamplerStage::PollStop;
                } else {
                    self.stage = SamplerStage::Clock;
                }
            },
            SamplerReply::Time(now) => {
                self.slice_us = micros_between(self.last_t, now);
                self.t_us = micros_between(self.t0, now);
                self.last_t = now;
                self.stage = SamplerStage::Fetch;
            },
            SamplerReply::Fetched(ok) => {
                if ok {
                    self.params.set("slice_us", decimal_text(self.slice_us));
                    self.params.set("t_us", decimal_text(self.t_us));
                    self.stage = SamplerStage::PrintRow;
                } else {
                    self.stage = SamplerStage::StopCounters;
                }
            },
            SamplerReply::Stopped => {
                self.stage = SamplerStage::Finished;
            },
        }
    }

    /// The numbers that [`Self::row_text`] needs the texts of.
    pub fn numbers(&self) -> (res: Vec<Number>)
        requires
            all_in_order(self@.perf.counters),
        ensures
            res@ == perf_numbers(self@.perf, self@.scale),
    {
        self.perf.numbers(self.scale)
    }

    /// The header and the row.
    fn lines(&self, texts: &Vec<String>) -> (res: (String, String))
        requires
            texts@.len() == self@.perf.counters.len() + 3,
        ensures
            res.0@ == header_line(sampler_columns(self@, text_views(texts@))),
            res.1@ == data_line(sampler_columns(self@, text_views(texts@))),
            self@.params.dom().finite(),
    {
        let mut cols = (String::new(), String::new());
        let ghost w0 = cols;
        self.params.write_columns(&mut cols);
        let ghost w1 = cols;
        self.perf.write_columns(self.scale, texts.as_slice(), &mut cols);
        proof {
            let names = listing(self@.params);
            let counts = perf_columns(self@.perf, self@.scale, text_views(texts@));
            let all = names + counts;
            lemma_write_more(w0, names, w1, counts, cols);
            lemma_side_by_side(w0, all, cols);
            assert(w0.0@ + header_line(all) =~= header_line(all));
            assert(w0.1@ + data_line(all) =~= data_line(all));
        }
        cols
    }

    /// The numbers that [`Self::header_text`] needs the texts of. There are none when a counter
    /// seems to have run backwards, as it does before it was read for the second time.
    pub fn header_numbers(&self) -> (res: Option<Vec<Number>>)
        ensures
            res is Some <==> all_in_order(self@.perf.counters),
            res matches Some(numbers) ==> numbers@ == perf_numbers(self@.perf, self@.scale),
    {
        if self.perf.is_in_order() {
            Some(self.numbers())
        } else {
            None
        }
    }

    /// The header as it is printed. `texts` holds the numbers as they would be printed
    /// below it; without them the room of a number goes by the name of its column alone.
    pub fn header_text(&self, texts: &Option<Vec<String>>) -> (res: String)
        requires
            *texts matches Some(t) ==> t@.len() == self@.perf.counters.len() + 3,
        ensures
            res@ == header_line(sampler_columns(self@, header_texts(self@, *texts))) + "\n"@,
            self@.params.dom().finite(),
    {
        let (mut hdr, dat) = match texts {
            Some(t) => self.lines(t),
            None => {
                let blank = self.blank_texts();
                assert(text_views(blank@) =~= header_texts(self@, *texts));
                self.lines(&blank)
            },
        };
        hdr.append("\n");
        hdr
    }

    /// An empty text for each number.
    fn blank_texts(&self) -> (res: Vec<String>)
        ensures
            text_views(res@) == Seq::new(
                self@.perf.counters.len() + 3,
                |i: int| Seq::<char>::empty(),
            ),
    {
        let n: usize = self.perf.len();
        let mut res: Vec<String> = Vec::new();
        let mut i: usize = 0;
        while i < n
            invariant
                i <= n,
                res@.len() == i,
                forall|j: int| 0 <= j < i ==> (#[trigger] res@[j])@ == Seq::<char>::empty(),
            decreases n - i,
        {
            res.push(String::new());
            i += 1;
        }
        res.push(String::new());
        res.push(String::new());
        res.push(String::new());
        assert(text_views(res@) =~= Seq::new(
            self@.perf.counters.len() + 3,
            |i: int| Seq::<char>::empty(),
        ));
        res
    }

    /// The row as it is printed. `texts` holds the numbers as they are to be printed.
    pub fn row_text(&self, texts: &Vec<String>) -> (res: String)
        requires
            texts@.len() == self@.perf.counters.len() + 3,
        ensures
            res@ == data_line(sampler_columns(self@, text_views(texts@))) + "\n"@,
            self@.params.dom().finite(),
    {
        let (hdr, mut dat) = self.lines(texts);
        dat.append("\n");
        dat
    }
}

////////////////////////////////////////////////////////////////////////////////
// Laws

/// Plain columns as updates: they are merged in one after the other, and the scale stays.
pub proof fn law_plain_updates(
    updates: Seq<BenchmarkParameters>,
    scale: u64,
    before: Map<Seq<char>, Seq<char>>,
    new_scale: u64,
    after: Map<Seq<char>, Seq<char>>,
)
    requires
        may_drain(updates, scale, before, new_scale, after),
    ensures
        new_scale == scale,
        updates.len() == 0 ==> after == before,
        updates.len() > 0 ==> exists|mid: Map<Seq<char>, Seq<char>>| #[trigger]
            may_drain(updates.drop_last(), scale, before, scale, mid) && after
                == mid.union_prefer_right(updates.last()@),
    decreases updates.len(),
{
    if updates.len() > 0 {
        let (s, m, o) = choose|s: u64, m: Map<Seq<char>, Seq<char>>, o: Option<usize>|
            may_drain(updates.drop_last(), scale, before, s, m) && #[trigger] takes_update(
                updates.last(),
                o,
                s,
                m,
                new_scale,
                after,
            );
        law_plain_updates(updates.drop_last(), scale, before, s, m);
    }
}

/// The sampler with its counters as they are in `perf`.
pub open spec fn with_perf<C>(s: SamplerModel<C>, perf: PerfModel<C>) -> SamplerModel<C> {
    SamplerModel { perf, ..s }
}

/// The sampler may go from `s` to `t` on the replies, one after the other. Its counters may
/// be read, started or stopped before each reply.
pub open spec fn may_go<C, U: BenchmarkParameterUpdates>(
    s: SamplerModel<C>,
    replies: Seq<SamplerReply<U>>,
    t: SamplerModel<C>,
) -> bool
    decreases replies.len(),
{
    if replies.len() == 0 {
        t == s
    } else {
        exists|m: SamplerModel<C>, perf: PerfModel<C>|
            may_go(s, replies.drop_last(), m) && #[trigger] may_step(
                with_perf(m, perf),
                replies.last(),
                t,
            )
    }
}

/// No updates are among the replies.
pub open spec fn no_updates<U>(replies: Seq<SamplerReply<U>>) -> bool {
    forall|i: int| 0 <= i < replies.len() ==> !(#[trigger] replies[i] is Updates)
}

/// The name is not that of a column for times.
pub open spec fn is_own_column(k: Seq<char>) -> bool {
    k != "slice_us"@ && k != "t_us"@
}

/// Nothing but updates changes the scale or a column other than those of the times.
pub proof fn law_only_updates_change_columns<C, U: BenchmarkParameterUpdates>(
    s: SamplerModel<C>,
    replies: Seq<SamplerReply<U>>,
    t: SamplerModel<C>,
    k: Seq<char>,
)
    requires
        may_go(s, replies, t),
        no_updates(replies),
        is_own_column(k),
    ensures
        t.scale == s.scale,
        t.params.contains_key(k) <==> s.params.contains_key(k),
        t.params[k] == s.params[k],
    decreases replies.len(),
{
    if replies.len() > 0 {
        let head = replies.drop_last();
        let (m, perf) = choose|m: SamplerModel<C>, perf: PerfModel<C>|
            may_go(s, head, m) && #[trigger] may_step(with_perf(m, perf), replies.last(), t);
        assert forall|i: int| 0 <= i < head.len() implies !(#[trigger] head[i] is Updates) by {
            assert(!(replies[i] is Updates));
        }
        law_only_updates_change_columns(s, head, m, k);
        assert(!(replies[replies.len() - 1] is Updates));
    }
}

/// Of plain columns as updates, the last one that sets a column decides.
proof fn lemma_last_update_decides(
    updates: Seq<BenchmarkParameters>,
    scale: u64,
    before: Map<Seq<char>, Seq<char>>,
    new_scale: u64,
    after: Map<Seq<char>, Seq<char>>,
    j: int,
    k: Seq<char>,
)
    requires
        may_drain(updates, scale, before, new_scale, after),
        0 <= j < updates.len(),
        updates[j]@.contains_key(k),
        forall|l: int| j < l < updates.len() ==> !(#[trigger] updates[l])@.contains_key(k),
    ensures
        after.contains_key(k),
        after[k] == updates[j]@[k],
    decreases updates.len(),
{
    law_plain_updates(updates, scale, before, new_scale, after);
    let head = updates.drop_last();
    let mid = choose|mid: Map<Seq<char>, Seq<char>>| #[trigger]
        may_drain(head, scale, before, scale, mid) && after == mid.union_prefer_right(
            updates.last()@,
        );
    if j < updates.len() - 1 {
        assert(!updates[updates.len() - 1]@.contains_key(k));
        assert forall|l: int| j < l < head.len() implies !(#[trigger] head[l])@.contains_key(k) by {
            assert(!updates[l]@.contains_key(k));
        }
        lemma_last_update_decides(head, scale, before, scale, mid, j, k);
    }
}

/// An update is applied before the next row is printed: when the sampler has collected
/// updates, the next row shows each column that they set, with the value of the last of
/// them that sets it.
pub proof fn law_update_comes_before_next_row<C>(
    s: SamplerModel<C>,
    updates: Vec<BenchmarkParameters>,
    drained: SamplerModel<C>,
    replies: Seq<SamplerReply<BenchmarkParameters>>,
    row: SamplerModel<C>,
    j: int,
    k: Seq<char>,
)
    requires
        s.stage == SamplerStage::Drain,
        may_step(s, SamplerReply::Updates(updates), drained),
        may_go(drained, replies, row),
        no_updates(replies),
        row.stage == SamplerStage::PrintRow,
        0 <= j < updates@.len(),
        updates@[j]@.contains_key(k),
        forall|l: int| j < l < updates@.len() ==> !(#[trigger] updates@[l])@.contains_key(k),
        is_own_column(k),
    ensures
        row.params.contains_key(k),
        row.params[k] == updates@[j]@[k],
{
    lemma_last_update_decides(
        updates@,
        s.scale,
        s.params,
        drained.scale,
        drained.params,
        j,
        k,
    );
    law_only_updates_change_columns(drained, replies, row, k);
}

/// Each row shows the length of its slice and the time since sampling began.
pub proof fn law_rows_show_times<C, U: BenchmarkParameterUpdates>(
    s: SamplerModel<C>,
    reply: SamplerReply<U>,
    row: SamplerModel<C>,
)
    requires
        may_step(s, reply, row),
        row.stage == SamplerStage::PrintRow,
    ensures
        row.params.contains_key("slice_us"@),
        row.params.contains_key("t_us"@),
        row.params["slice_us"@] == decimal(row.slice_us as nat),
        row.params["t_us"@] == decimal(row.t_us as nat),
{
    reveal_strlit("slice_us");
    reveal_strlit("t_us");
    assert("slice_us"@.len() != "t_us"@.len());
}

/// What comes after what: between two rows there are always a look at the stop flag, a
/// period of waiting, and the updates; a request to stop and a failed reading both lead to
/// the counters being stopped, and to nothing else.
pub proof fn law_order_of_stages<C, U: BenchmarkParameterUpdates>(
    s: SamplerModel<C>,
    reply: SamplerReply<U>,
    t: SamplerModel<C>,
)
    requires
        may_step(s, reply, t),
    ensures
        t.stage == SamplerStage::Sleep ==> s.stage == SamplerStage::PollStop && reply
            == SamplerReply::<U>::Stop(false),
        t.stage == SamplerStage::Drain ==> s.stage == SamplerStage::Sleep,
        t.stage == SamplerStage::PrintHeader ==> s.stage == SamplerStage::Drain,
        t.stage == SamplerStage::Clock ==> s.stage == SamplerStage::Drain || s.stage
            == SamplerStage::PrintHeader,
        t.stage == SamplerStage::Fetch ==> s.stage == SamplerStage::Clock,
        t.stage == SamplerStage::PrintRow ==> s.stage == SamplerStage::Fetch && reply
            == SamplerReply::<U>::Fetched(true),
        t.stage == SamplerStage::PollStop ==> s.stage == SamplerStage::PrintRow,
        t.stage == SamplerStage::StopCounters <==> reply == SamplerReply::<U>::Stop(true) || reply
            == SamplerReply::<U>::Fetched(false),
        t.stage == SamplerStage::Finished <==> s.stage == SamplerStage::StopCounters,
{
}

/// With headers on, the first slice has one, unless the columns that sampling begins with
/// are those of the times already.
pub proof fn law_first_slice_has_a_header<C>(
    begun: SamplerModel<C>,
    perf: PerfModel<C>,
    scale: u64,
    init: BenchmarkParameters,
    t0: u128,
    none: Vec<BenchmarkParameters>,
    drained: SamplerModel<C>,
)
    requires
        set_up(begun, perf, scale, init, true, t0),
        init@.dom().finite(),
        none@.len() == 0,
        may_step(
            SamplerModel { stage: SamplerStage::Drain, ..begun },
            SamplerReply::Updates(none),
            drained,
        ),
    ensures
        drained.stage == SamplerStage::PrintHeader <==> !(init@.contains_key("slice_us"@)
            && init@.contains_key("t_us"@)),
{
    let params = choose|params: Map<Seq<char>, Seq<char>>| #[trigger]
        may_drain(seq![init], scale, Map::empty(), begun.scale, params) && begun == (SamplerModel {
            perf,
            scale: begun.scale,
            params: with_times(params, Seq::empty(), Seq::empty()),
            header: true,
            last_param_len: params.len(),
            t0,
            last_t: t0,
            slice_us: 0,
            t_us: 0,
            stage: SamplerStage::PollStop,
        });
    law_plain_updates(seq![init], scale, Map::empty(), begun.scale, params);
    let mid = choose|mid: Map<Seq<char>, Seq<char>>| #[trigger]
        may_drain(seq![init].drop_last(), scale, Map::empty(), scale, mid) && params
            == mid.union_prefer_right(seq![init].last()@);
    assert(mid == Map::<Seq<char>, Seq<char>>::empty());
    assert(params =~= init@);
    law_plain_updates(none@, begun.scale, begun.params, drained.scale, drained.params);
    reveal_strlit("slice_us");
    reveal_strlit("t_us");
    assert("slice_us"@.len() != "t_us"@.len());
    let one = params.insert("slice_us"@, Seq::empty());
    assert(one.dom() =~= params.dom().insert("slice_us"@));
    assert(begun.params.dom() =~= one.dom().insert("t_us"@));
}

/// After a row, the next slice begins where the one that was printed ended.
pub proof fn law_rows_are_contiguous<C, U: BenchmarkParameterUpdates>(
    row: SamplerModel<C>,
    reply: SamplerReply<U>,
    next: SamplerModel<C>,
    i: int,
)
    requires
        row.stage == SamplerStage::PrintRow,
        may_step(row, reply, next),
        0 <= i < row.perf.counters.len(),
    ensures
        next.perf.counters[i].1.start == row.perf.counters[i].1.end,
        next.perf.t_start == row.perf.t_stop,
{
}

/// The lengths of consecutive slices in microseconds, added up.
pub open spec fn slices_us(times: Seq<u128>) -> int
    decreases times.len(),
{
    if times.len() <= 1 {
        0
    } else {
        slices_us(times.drop_last()) + micros(times[times.len() - 2], times.last())
    }
}

/// The lengths of the slices add up to the time since sampling began, but for the part of a
/// microsecond that each slice after the first may lose.
pub proof fn law_slice_lengths_add_up(times: Seq<u128>)
    requires
        times.len() > 0,
        forall|i: int, j: int|
            #![trigger times[i], times[j]]
            0 <= i <= j < times.len() ==> times[i] <= times[j],
        times.last() - times[0] <= 1000 * u64::MAX + 999,
    ensures
        slices_us(times) <= micros(times[0], times.last()),
        micros(times[0], times.last()) <= slices_us(times) + if times.len() <= 2 {
            0
        } else {
            times.len() - 2
        },
    decreases times.len(),
{
    if times.len() > 1 {
        let head = times.drop_last();
        let n = times.len();
        assert forall|i: int, j: int|
            #![trigger head[i], head[j]]
            0 <= i <= j < head.len() implies head[i] <= head[j] by {
            assert(times[i] <= times[j]);
        }
        assert(times[0] <= times[n - 2]);
        assert(times[n - 2] <= times[n - 1]);
        assert(head.last() == times[n - 2]);
        law_slice_lengths_add_up(head);
        lemma_micros(times[0], times[n - 2]);
        lemma_micros(times[n - 2], times[n - 1]);
        lemma_micros(times[0], times[n - 1]);
    } else {
        lemma_micros(times[0], times.last());
    }
}

/// Short enough times do not wrap around.
proof fn lemma_micros(from: u128, to: u128)
    requires
        from <= to,
        to - from <= 1000 * u64::MAX + 999,
    ensures
        micros(from, to) == (to - from) / 1000,
{
}

/// What the updates reported as their scales.
pub open spec fn reported<U: BenchmarkParameterUpdates>(
    updates: Seq<U>,
    overrides: Seq<Option<usize>>,
) -> bool {
    &&& overrides.len() == updates.len()
    &&& forall|i: int|
        #![trigger overrides[i]]
        0 <= i < updates.len() ==> call_ensures(U::get_scale, (&updates[i],), overrides[i])
}

/// The columns from one update to the next.
pub open spec fn turned<U: BenchmarkParameterUpdates>(
    updates: Seq<U>,
    states: Seq<Map<Seq<char>, Seq<char>>>,
) -> bool {
    &&& states.len() == updates.len() + 1
    &&& forall|i: int|
        #![trigger updates[i]]
        0 <= i < updates.len() ==> updates[i].may_turn(states[i], states[i + 1])
}

/// The scale is that of the last report that gives one, or stays if none does.
#[verifier::opaque]
spec fn decided_by(reports: Seq<Option<usize>>, scale: u64, new_scale: u64) -> bool {
    &&& (forall|i: int| 0 <= i < reports.len() ==> (#[trigger] reports[i]) is None) ==> new_scale
        == scale
    &&& forall|j: int|
        0 <= j < reports.len() && (#[trigger] reports[j]) is Some && (forall|i: int|
            j < i < reports.len() ==> (#[trigger] reports[i]) is None) ==> new_scale
            == reports[j]->0
}

/// One more report: if it gives a scale, that decides; if not, the earlier ones do.
proof fn lemma_one_more_report(
    told: Seq<Option<usize>>,
    scale: u64,
    so_far: u64,
    o: Option<usize>,
    new_scale: u64,
)
    requires
        decided_by(told, scale, so_far),
        o is None ==> new_scale == so_far,
        o is Some ==> new_scale == o->0,
    ensures
        decided_by(told.push(o), scale, new_scale),
{
    reveal(decided_by);
    let all = told.push(o);
    let n = told.len() as int;
    assert(all[n] == o);
    assert forall|i: int| 0 <= i < n implies #[trigger] told[i] == all[i] by {}
    assert forall|j: int|
        0 <= j < all.len() && (#[trigger] all[j]) is Some && (forall|i: int|
            j < i < all.len() ==> (#[trigger] all[i]) is None) implies new_scale == all[j]->0 by {
        if j < n {
            assert(all[n] is None);
            assert(told[j] is Some);
        }
    }
}

/// What the updates reported and left, with one more of them.
proof fn lemma_one_more_update<U: BenchmarkParameterUpdates>(
    updates: Seq<U>,
    told: Seq<Option<usize>>,
    states: Seq<Map<Seq<char>, Seq<char>>>,
    o: Option<usize>,
    after: Map<Seq<char>, Seq<char>>,
)
    requires
        updates.len() > 0,
        reported(updates.drop_last(), told),
        turned(updates.drop_last(), states),
        call_ensures(U::get_scale, (&updates.last(),), o),
        updates.last().may_turn(states[updates.len() - 1], after),
    ensures
        reported(updates, told.push(o)),
        turned(updates, states.push(after)),
{
    let head = updates.drop_last();
    let n = head.len() as int;
    let (overrides, all) = (told.push(o), states.push(after));
    assert forall|i: int|
        #![trigger overrides[i]]
        0 <= i < updates.len() implies call_ensures(
        U::get_scale,
        (&updates[i],),
        overrides[i],
    ) by {
        if i < n {
            assert(overrides[i] == told[i]);
            assert(updates[i] == head[i]);
        }
    }
    assert forall|i: int|
        #![trigger updates[i]]
        0 <= i < updates.len() implies updates[i].may_turn(all[i], all[i + 1]) by {
        if i < n {
            assert(head[i].may_turn(states[i], states[i + 1]));
            assert(all[i] == states[i] && all[i + 1] == states[i + 1]);
        }
    }
}

/// What updates that were carried out reported, and the columns between them.
proof fn lemma_reports_and_columns<U: BenchmarkParameterUpdates>(
    updates: Seq<U>,
    scale: u64,
    before: Map<Seq<char>, Seq<char>>,
    new_scale: u64,
    after: Map<Seq<char>, Seq<char>>,
) -> (res: (Seq<Option<usize>>, Seq<Map<Seq<char>, Seq<char>>>))
    requires
        may_drain(updates, scale, before, new_scale, after),
    ensures
        reported(updates, res.0),
        turned(updates, res.1),
        res.1[0] == before,
        res.1[updates.len() as int] == after,
        decided_by(res.0, scale, new_scale),
    decreases updates.len(),
{
    if updates.len() == 0 {
        reveal(decided_by);
        (Seq::empty(), seq![before])
    } else {
        let head = updates.drop_last();
        let (s, m, o) = choose|s: u64, m: Map<Seq<char>, Seq<char>>, o: Option<usize>|
            may_drain(head, scale, before, s, m) && #[trigger] takes_update(
                updates.last(),
                o,
                s,
                m,
                new_scale,
                after,
            );
        let (told, states) = lemma_reports_and_columns(head, scale, before, s, m);
        lemma_one_more_report(told, scale, s, o, new_scale);
        lemma_one_more_update(updates, told, states, o, after);
        (told.push(o), states.push(after))
    }
}

/// Updates are carried out one after the other, each on the columns that the one before it left.
/// The last of them that reports a scale decides it, whatever it was before; if none does, it
/// stays. Hands back what the updates reported, and the columns between them.
pub proof fn law_last_override_is_the_scale<U: BenchmarkParameterUpdates>(
    updates: Seq<U>,
    scale: u64,
    before: Map<Seq<char>, Seq<char>>,
    new_scale: u64,
    after: Map<Seq<char>, Seq<char>>,
) -> (res: (Seq<Option<usize>>, Seq<Map<Seq<char>, Seq<char>>>))
    requires
        may_drain(updates, scale, before, new_scale, after),
    ensures
        reported(updates, res.0),
        turned(updates, res.1),
        res.1[0] == before,
        res.1[updates.len() as int] == after,
        (forall|i: int| 0 <= i < res.0.len() ==> (#[trigger] res.0[i]) is None) ==> new_scale
            == scale,
        forall|j: int|
            0 <= j < res.0.len() && (#[trigger] res.0[j]) is Some && (forall|i: int|
                j < i < res.0.len() ==> (#[trigger] res.0[i]) is None) ==> new_scale
                == res.0[j]->0,
{
    reveal(decided_by);
    lemma_reports_and_columns(updates, scale, before, new_scale, after)
}

/// Updates that come in between two rows: the next row shows the last scale that one of them
/// reported, in its column and as what every counter is divided by. Without any it shows the
/// scale from before. Hands back what the updates reported.
pub proof fn law_override_divides_the_next_row<C, U: BenchmarkParameterUpdates>(
    s: SamplerModel<C>,
    updates: Vec<U>,
    drained: SamplerModel<C>,
    replies: Seq<SamplerReply<U>>,
    row: SamplerModel<C>,
    texts: Seq<Seq<char>>,
    c: int,
) -> (overrides: Seq<Option<usize>>)
    requires
        s.stage == SamplerStage::Drain,
        may_step(s, SamplerReply::Updates(updates), drained),
        may_go(drained, replies, row),
        no_updates(replies),
        0 <= c < row.perf.counters.len(),
    ensures
        reported(updates@, overrides),
        ({
            let shown = perf_columns(row.perf, row.scale, texts)[row.perf.counters.len() as int];
            let number = perf_numbers(row.perf, row.scale)[c].measure;
            &&& number is Scaled
            &&& number->scale == row.scale
            &&& shown == ("scale"@, decimal(row.scale as nat))
            &&& (forall|i: int| 0 <= i < overrides.len() ==> (#[trigger] overrides[i]) is None)
                ==> row.scale == s.scale
            &&& forall|j: int|
                0 <= j < overrides.len() && (#[trigger] overrides[j]) is Some && (forall|i: int|
                    j < i < overrides.len() ==> (#[trigger] overrides[i]) is None) ==> row.scale
                    == overrides[j]->0
        }),
{
    let (overrides, states) = law_last_override_is_the_scale(
        updates@,
        s.scale,
        s.params,
        drained.scale,
        drained.params,
    );
    reveal_strlit("slice_us");
    reveal_strlit("t_us");
    let own = Seq::<char>::empty();
    assert("slice_us"@.len() != own.len());
    assert("t_us"@.len() != own.len());
    law_only_updates_change_columns(drained, replies, row, own);
    overrides
}

/// A sampler that was just set up has carried its first update out, on no columns at all, and
/// has taken the scale that it reported, if any. The columns of the times are there and empty,
/// and are not among those that were counted. Hands back what the update reported and left.
pub proof fn law_fresh_sampler<C, U: BenchmarkParameterUpdates>(
    s: SamplerModel<C>,
    perf: PerfModel<C>,
    scale: u64,
    init: U,
    header: bool,
    t0: u128,
) -> (res: (Option<usize>, Map<Seq<char>, Seq<char>>))
    requires
        set_up(s, perf, scale, init, header, t0),
    ensures
        call_ensures(U::get_scale, (&init,), res.0),
        init.may_turn(Map::empty(), res.1),
        res.0 is None ==> s.scale == scale,
        res.0 matches Some(o) ==> s.scale == o,
        s.params.dom() == res.1.dom().insert("slice_us"@).insert("t_us"@),
        s.params["slice_us"@].len() == 0,
        s.params["t_us"@].len() == 0,
        forall|k: Seq<char>|
            k != "slice_us"@ && k != "t_us"@ ==> #[trigger] s.params[k] == res.1[k],
        s.last_param_len == res.1.len(),
        s.perf == perf,
        s.header == header,
        s.t0 == t0,
        s.last_t == t0,
        s.stage == SamplerStage::PollStop,
{
    let params = choose|params: Map<Seq<char>, Seq<char>>| #[trigger]
        may_drain(seq![init], scale, Map::empty(), s.scale, params) && s == (SamplerModel {
            perf,
            scale: s.scale,
            params: with_times(params, Seq::empty(), Seq::empty()),
            header,
            last_param_len: params.len(),
            t0,
            last_t: t0,
            slice_us: 0,
            t_us: 0,
            stage: SamplerStage::PollStop,
        });
    let (overrides, states) = law_last_override_is_the_scale(
        seq![init],
        scale,
        Map::empty(),
        s.scale,
        params,
    );
    assert(seq![init][0] == init);
    assert(call_ensures(U::get_scale, (&seq![init][0],), overrides[0]));
    assert(init.may_turn(states[0], states[1]));
    assert(s.params.dom() =~= params.dom().insert("slice_us"@).insert("t_us"@));
    reveal_strlit("slice_us");
    reveal_strlit("t_us");
    assert("slice_us"@.len() != "t_us"@.len());
    (overrides[0], params)
}

/// A header is printed before the next row exactly if headers are asked for and the number of
/// columns is another than when the last one was due; that number is then remembered. Nothing
/// but the scale and the columns changes otherwise.
pub proof fn law_header_is_due<C, U: BenchmarkParameterUpdates>(
    s: SamplerModel<C>,
    updates: Vec<U>,
    t: SamplerModel<C>,
)
    requires
        s.stage == SamplerStage::Drain,
        may_step(s, SamplerReply::Updates(updates), t),
    ensures
        t.stage == SamplerStage::PrintHeader <==> s.header && t.params.len() != s.last_param_len,
        t.stage != SamplerStage::PrintHeader ==> t.stage == SamplerStage::Clock,
        t.stage == SamplerStage::PrintHeader ==> t.last_param_len == t.params.len(),
        t.stage != SamplerStage::PrintHeader ==> t.last_param_len == s.last_param_len,
        t.perf == s.perf,
        t.header == s.header,
        t.t0 == s.t0,
        t.last_t == s.last_t,
        t.slice_us == s.slice_us,
        t.t_us == s.t_us,
{
}

/// What follows each stage, in the order of a slice.
pub proof fn law_stage_that_follows<C, U: BenchmarkParameterUpdates>(
    s: SamplerModel<C>,
    reply: SamplerReply<U>,
    t: SamplerModel<C>,
)
    requires
        may_step(s, reply, t),
    ensures
        replies_to(reply, s.stage),
        s.stage == SamplerStage::PollStop ==> (reply == SamplerReply::<U>::Stop(true) && t.stage
            == SamplerStage::StopCounters) || (reply == SamplerReply::<U>::Stop(false) && t.stage
            == SamplerStage::Sleep),
        s.stage == SamplerStage::Sleep ==> t.stage == SamplerStage::Drain,
        s.stage == SamplerStage::Drain ==> t.stage == SamplerStage::PrintHeader || t.stage
            == SamplerStage::Clock,
        s.stage == SamplerStage::PrintHeader ==> t.stage == SamplerStage::Clock,
        s.stage == SamplerStage::Clock ==> t.stage == SamplerStage::Fetch,
        s.stage == SamplerStage::Fetch ==> (reply == SamplerReply::<U>::Fetched(true) && t.stage
            == SamplerStage::PrintRow) || (reply == SamplerReply::<U>::Fetched(false) && t.stage
            == SamplerStage::StopCounters),
        s.stage == SamplerStage::PrintRow ==> t.stage == SamplerStage::PollStop,
        s.stage == SamplerStage::StopCounters ==> t.stage == SamplerStage::Finished,
        s.stage != SamplerStage::Finished,
{
}

/// What a step leaves alone: the beginning and the wish for headers always, the counters unless
/// a row was printed, the times unless the clock was read, the columns unless updates came in or
/// a row is due, and what is known of the last header unless updates came in.
pub proof fn law_what_a_step_leaves_alone<C, U: BenchmarkParameterUpdates>(
    s: SamplerModel<C>,
    reply: SamplerReply<U>,
    t: SamplerModel<C>,
)
    requires
        may_step(s, reply, t),
    ensures
        t.t0 == s.t0,
        t.header == s.header,
        s.stage != SamplerStage::PrintRow ==> t.perf == s.perf,
        s.stage != SamplerStage::Clock ==> t.last_t == s.last_t && t.slice_us == s.slice_us
            && t.t_us == s.t_us,
        s.stage != SamplerStage::Drain && t.stage != SamplerStage::PrintRow ==> t.params
            == s.params,
        s.stage != SamplerStage::Drain ==> t.scale == s.scale && t.last_param_len
            == s.last_param_len,
{
}

/// The clock gives a slice its length and the time since sampling began, in whole microseconds,
/// as long as these fit; the next slice begins at that time.
pub proof fn law_clock_measures_the_slice<C, U: BenchmarkParameterUpdates>(
    s: SamplerModel<C>,
    now: u128,
    t: SamplerModel<C>,
)
    requires
        s.stage == SamplerStage::Clock,
        may_step(s, SamplerReply::<U>::Time(now), t),
    ensures
        t.last_t == now,
        s.last_t <= now && now - s.last_t < 1000 * 0x1_0000_0000_0000_0000 ==> 1000 * t.slice_us
            <= now - s.last_t < 1000 * t.slice_us + 1000,
        s.t0 <= now && now - s.t0 < 1000 * 0x1_0000_0000_0000_0000 ==> 1000 * t.t_us <= now - s.t0
            < 1000 * t.t_us + 1000,
        now < s.last_t ==> t.slice_us == 0,
        now < s.t0 ==> t.t_us == 0,
{
    if s.last_t <= now && now - s.last_t < 1000 * 0x1_0000_0000_0000_0000 {
        lemma_micros(s.last_t, now);
    }
    if s.t0 <= now && now - s.t0 < 1000 * 0x1_0000_0000_0000_0000 {
        lemma_micros(s.t0, now);
    }
}

/// Microseconds that do not fit lose their upper part, as numbers of that width do.
pub proof fn law_long_times_wrap(from: u128, to: u128)
    requires
        from <= to,
    ensures
        micros(from, to) == (to - from) / 1000 % 0x1_0000_0000_0000_0000,
{
    let q = ((to - from) as u128 / 1000) as u128;
    assert(q as u64 == q % 0x1_0000_0000_0000_0000u128) by (bit_vector);
}

/// A row is due with the columns of the times set to what the clock gave, and all others as
/// they were.
pub proof fn law_row_sets_the_times_only<C, U: BenchmarkParameterUpdates>(
    s: SamplerModel<C>,
    reply: SamplerReply<U>,
    row: SamplerModel<C>,
    k: Seq<char>,
)
    requires
        may_step(s, reply, row),
        row.stage == SamplerStage::PrintRow,
    ensures
        digits_value(row.params["slice_us"@]) == s.slice_us,
        digits_value(row.params["t_us"@]) == s.t_us,
        k != "slice_us"@ && k != "t_us"@ ==> row.params[k] == s.params[k],
        row.params.dom() == s.params.dom().insert("slice_us"@).insert("t_us"@),
{
    law_rows_show_times(s, reply, row);
    law_decimal_reads_back(s.slice_us as nat);
    law_decimal_reads_back(s.t_us as nat);
    assert(row.params.dom() =~= s.params.dom().insert("slice_us"@).insert("t_us"@));
}

/// The columns of a sampler: all parameters in the order of their names, and then those of the
/// counters under its scale.
pub proof fn law_columns_of_a_sampler<C>(s: SamplerModel<C>, texts: Seq<Seq<char>>, i: int)
    requires
        0 <= i < listing(s.params).len() + s.perf.counters.len() + 4,
    ensures
        ({
            let p = listing(s.params).len() as int;
            let n = s.perf.counters.len() as int;
            let (name, value) = sampler_columns(s, texts)[i];
            &&& sampler_columns(s, texts).len() == p + n + 4
            &&& i < p ==> (name, value) == listing(s.params)[i]
            &&& p <= i < p + n ==> name == s.perf.counters[i - p].0 && value == texts[i - p]
            &&& i == p + n ==> name == "scale"@ && value == decimal(s.scale as nat)
            &&& i == p + n + 1 ==> name == "IPC"@ && value == texts[n]
            &&& i == p + n + 2 ==> name == "CPUs"@ && value == texts[n + 1]
            &&& i == p + n + 3 ==> name == "GHz"@ && value == texts[n + 2]
        }),
{
}

/// A header goes by the texts that are given, or by empty ones.
pub proof fn law_texts_of_a_header<C>(s: SamplerModel<C>, texts: Vec<String>, i: int)
    ensures
        header_texts(s, Some(texts)).len() == texts@.len(),
        0 <= i < texts@.len() ==> header_texts(s, Some(texts))[i] == texts@[i]@,
        header_texts(s, None).len() == s.perf.counters.len() + 3,
        0 <= i < s.perf.counters.len() + 3 ==> header_texts(s, None)[i].len() == 0,
{
}

/// Each stage takes the reply that it asks for, whatever that says, and the end takes none.
pub proof fn law_replies_of_the_sampler<U>(
    stage: SamplerStage,
    stop: bool,
    updates: Vec<U>,
    now: u128,
    read: bool,
)
    ensures
        replies_to(SamplerReply::<U>::Stop(stop), stage) <==> stage == SamplerStage::PollStop,
        replies_to(SamplerReply::<U>::Slept, stage) <==> stage == SamplerStage::Sleep,
        replies_to(SamplerReply::Updates(updates), stage) <==> stage == SamplerStage::Drain,
        replies_to(SamplerReply::<U>::Printed, stage) <==> stage == SamplerStage::PrintHeader
            || stage == SamplerStage::PrintRow,
        replies_to(SamplerReply::<U>::Time(now), stage) <==> stage == SamplerStage::Clock,
        replies_to(SamplerReply::<U>::Fetched(read), stage) <==> stage == SamplerStage::Fetch,
        replies_to(SamplerReply::<U>::Stopped, stage) <==> stage == SamplerStage::StopCounters,
{
}

} // verus!

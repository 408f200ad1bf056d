//! Runs over the counters of a group, which start, stop or read them.
//!
//! The counters themselves are driven from outside: a run says which command comes
//! next, and is told how it went.

use vstd::prelude::*;

use crate::counter::{CounterState, Reading};
use crate::perf::PerfModel;

verus! {

/// Where a run over the counters stands.
#[derive(Debug, Clone, Copy, PartialEq, Eq, Structural)]
pub enum Stage {
    /// Start: a counter is to be set back.
    Reset(usize),
    /// Start: the counter is to be switched on.
    Enable(usize),
    /// Start: the counter is to be read for the first time.
    ReadStart(usize),
    /// Start: all counters run, the time is to be taken.
    StartClock,
    /// A start that failed: a counter is to be read for the last time.
    UndoRead(usize),
    /// A start that failed: the counter is to be switched off.
    UndoDisable(usize),
    /// Stop: the time is to be taken.
    StopClock,
    /// Stop: a counter is to be read for the last time.
    StopRead(usize),
    /// Stop: the counter is to be switched off.
    StopDisable(usize),
    /// Fetch: the time is to be taken.
    FetchClock,
    /// Fetch: a counter is to be read.
    FetchRead(usize),
    /// There is nothing left to do.
    Finished,
}

/// What is to be done next.
#[derive(Debug, Clone, Copy, PartialEq, Eq, Structural)]
pub enum Command {
    /// Take the time.
    Clock,
    /// Set the counter back.
    Reset(usize),
    /// Switch the counter on.
    Enable(usize),
    /// Read the counter.
    Read(usize),
    /// Switch the counter off.
    Disable(usize),
}

/// How a command went.
pub enum Reply<E> {
    /// The time that was taken, in nanoseconds.
    Time(u128),
    /// The counter was set back, switched on or switched off.
    Done,
    /// The counter was read.
    Value(Reading),
    /// The command failed.
    Failed(E),
}

/// A run over the counters of a group, and the last error in it.
pub struct CounterRun<E> {
    /// Where the run stands.
    pub stage: Stage,
    /// The last error that counts.
    pub error: Option<E>,
}

/// The command of a stage.
pub open spec fn command_of(stage: Stage) -> Option<Command> {
    match stage {
        Stage::Reset(i) => Some(Command::Reset(i)),
        Stage::Enable(i) => Some(Command::Enable(i)),
        Stage::ReadStart(i) => Some(Command::Read(i)),
        Stage::StartClock => Some(Command::Clock),
        Stage::UndoRead(i) => Some(Command::Read(i)),
        Stage::UndoDisable(i) => Some(Command::Disable(i)),
        Stage::StopClock => Some(Command::Clock),
        Stage::StopRead(i) => Some(Command::Read(i)),
        Stage::StopDisable(i) => Some(Command::Disable(i)),
        Stage::FetchClock => Some(Command::Clock),
        Stage::FetchRead(i) => Some(Command::Read(i)),
        Stage::Finished => None,
    }
}

/// The stage speaks of one of `n` counters, or of none.
pub open spec fn fits(stage: Stage, n: nat) -> bool {
    match command_of(stage) {
        Some(Command::Reset(i)) => i < n,
        Some(Command::Enable(i)) => i < n,
        Some(Command::Read(i)) => i < n,
        Some(Command::Disable(i)) => i < n,
        _ => true,
    }
}

/// The reply is one that the command can get.
pub open spec fn answers<E>(reply: Reply<E>, stage: Stage) -> bool {
    match command_of(stage) {
        Some(Command::Clock) => reply is Time,
        Some(Command::Read(_)) => reply is Value || reply is Failed,
        Some(_) => reply is Done || reply is Failed,
        None => false,
    }
}

/// The last error that counts after a reply: that of the reply, if it is one.
pub open spec fn noted<E>(error: Option<E>, reply: Reply<E>) -> Option<E> {
    match reply {
        Reply::Failed(e) => Some(e),
        _ => error,
    }
}

/// After counter `i` of `n` was started, or failed to.
pub open spec fn after_start<E>(i: usize, n: nat, error: Option<E>) -> Stage {
    if i + 1 < n {
        Stage::Reset((i + 1) as usize)
    } else if error is Some {
        Stage::UndoRead(0)
    } else {
        Stage::StartClock
    }
}

/// The run over `n` counters after a reply.
///
/// A counter that fails is left alone and the run goes on with the next. A start in
/// which some counter failed is undone; errors in doing so do not count.
pub open spec fn next_run<E>(run: CounterRun<E>, reply: Reply<E>, n: nat) -> CounterRun<E> {
    let error = noted(run.error, reply);
    let failed = reply is Failed;
    match run.stage {
        Stage::Reset(i) => CounterRun {
            stage: if failed {
                after_start(i, n, error)
            } else {
                Stage::Enable(i)
            },
            error,
        },
        Stage::Enable(i) => CounterRun {
            stage: if failed {
                after_start(i, n, error)
            } else {
                Stage::ReadStart(i)
            },
            error,
        },
        Stage::ReadStart(i) => CounterRun { stage: after_start(i, n, error), error },
        Stage::StartClock => CounterRun { stage: Stage::Finished, error },
        Stage::UndoRead(i) => CounterRun {
            stage: if !failed {
                Stage::UndoDisable(i)
            } else if i + 1 < n {
                Stage::UndoRead((i + 1) as usize)
            } else {
                Stage::Finished
            },
            error: run.error,
        },
        Stage::UndoDisable(i) => CounterRun {
            stage: if i + 1 < n {
                Stage::UndoRead((i + 1) as usize)
            } else {
                Stage::Finished
            },
            error: run.error,
        },
        Stage::StopClock => CounterRun {
            stage: if 0 < n {
                Stage::StopRead(0)
            } else {
                Stage::Finished
            },
            error,
        },
        Stage::StopRead(i) => CounterRun {
            stage: if !failed {
                Stage::StopDisable(i)
            } else if i + 1 < n {
                Stage::StopRead((i + 1) as usize)
            } else {
                Stage::Finished
            },
            error,
        },
        Stage::StopDisable(i) => CounterRun {
            stage: if i + 1 < n {
                Stage::StopRead((i + 1) as usize)
            } else {
                Stage::Finished
            },
            error,
        },
        Stage::FetchClock => CounterRun {
            stage: if 0 < n {
                Stage::FetchRead(0)
            } else {
                Stage::Finished
            },
            error,
        },
        Stage::FetchRead(i) => CounterRun {
            stage: if i + 1 < n {
                Stage::FetchRead((i + 1) as usize)
            } else {
                Stage::Finished
            },
            error,
        },
        Stage::Finished => run,
    }
}

/// The group with a new first reading of counter `i`.
pub open spec fn with_start<C>(perf: PerfModel<C>, i: int, r: Reading) -> PerfModel<C> {
    let (name, state) = perf.counters[i];
    PerfModel {
        counters: perf.counters.update(i, (name, CounterState { start: r, ..state })),
        ..perf
    }
}

/// The group with a new last reading of counter `i`.
pub open spec fn with_end<C>(perf: PerfModel<C>, i: int, r: Reading) -> PerfModel<C> {
    let (name, state) = perf.counters[i];
    PerfModel {
        counters: perf.counters.update(i, (name, CounterState { end: r, ..state })),
        ..perf
    }
}

/// The group after a reply: it takes down times and readings, and nothing else.
pub open spec fn next_perf<C, E>(perf: PerfModel<C>, stage: Stage, reply: Reply<E>) -> PerfModel<
    C,
> {
    match (stage, reply) {
        (Stage::ReadStart(i), Reply::Value(r)) => with_start(perf, i as int, r),
        (Stage::UndoRead(i), Reply::Value(r)) => with_end(perf, i as int, r),
        (Stage::StopRead(i), Reply::Value(r)) => with_end(perf, i as int, r),
        (Stage::FetchRead(i), Reply::Value(r)) => with_end(perf, i as int, r),
        (Stage::StartClock, Reply::Time(t)) => PerfModel { t_start: t, ..perf },
        (Stage::StopClock, Reply::Time(t)) => PerfModel { t_stop: t, ..perf },
        (Stage::FetchClock, Reply::Time(t)) => PerfModel { t_stop: t, ..perf },
        _ => perf,
    }
}

/// The run that starts `n` counters.
pub open spec fn start_run<E>(n: nat) -> CounterRun<E> {
    CounterRun {
        stage: if 0 < n {
            Stage::Reset(0)
        } else {
            Stage::StartClock
        },
        error: None,
    }
}

/// The run that stops the counters.
pub open spec fn stop_run<E>() -> CounterRun<E> {
    CounterRun { stage: Stage::StopClock, error: None }
}

/// The run that reads the counters while they go on.
pub open spec fn fetch_run<E>() -> CounterRun<E> {
    CounterRun { stage: Stage::FetchClock, error: None }
}

impl<E> CounterRun<E> {
    /// What is to be done next; `None` when the run is over.
    pub fn command(&self) -> (res: Option<Command>)
        ensures
            res == command_of(self.stage),
    {
        match self.stage {
            Stage::Reset(i) => Some(Command::Reset(i)),
            Stage::Enable(i) => Some(Command::Enable(i)),
            Stage::ReadStart(i) => Some(Command::Read(i)),
            Stage::StartClock => Some(Command::Clock),
            Stage::UndoRead(i) => Some(Command::Read(i)),
            Stage::UndoDisable(i) => Some(Command::Disable(i)),
            Stage::StopClock => Some(Command::Clock),
            Stage::StopRead(i) => Some(Command::Read(i)),
            Stage::StopDisable(i) => Some(Command::Disable(i)),
            Stage::FetchClock => Some(Command::Clock),
            Stage::FetchRead(i) => Some(Command::Read(i)),
            Stage::Finished => None,
        }
    }

    /// How the run went: the last error that counts, if there was one.
    pub fn result(self) -> (res: Result<(), E>)
        requires
            self.stage == Stage::Finished,
        ensures
            self.error is None ==> res == Ok::<(), E>(()),
            self.error matches Some(e) ==> res == Err::<(), E>(e),
    {
        match self.error {
            Some(e) => Err(e),
            None => Ok(()),
        }
    }
}

////////////////////////////////////////////////////////////////////////////////
// Whole runs

/// A group and a run over it after the replies.
pub open spec fn run_through<C, E>(
    perf: PerfModel<C>,
    run: CounterRun<E>,
    replies: Seq<Reply<E>>,
) -> (PerfModel<C>, CounterRun<E>)
    decreases replies.len(),
{
    if replies.len() == 0 {
        (perf, run)
    } else {
        let (p, r) = run_through(perf, run, replies.drop_last());
        (next_perf(p, r.stage, replies.last()), next_run(r, replies.last(), p.counters.len()))
    }
}

/// The stage to which reply `j` was given.
pub open spec fn stage_at<C, E>(
    perf: PerfModel<C>,
    run: CounterRun<E>,
    replies: Seq<Reply<E>>,
    j: int,
) -> Stage {
    run_through(perf, run, replies.take(j)).1.stage
}

/// Each reply is one that its command can get.
pub open spec fn well_answered<C, E>(
    perf: PerfModel<C>,
    run: CounterRun<E>,
    replies: Seq<Reply<E>>,
) -> bool
    decreases replies.len(),
{
    if replies.len() == 0 {
        fits(run.stage, perf.counters.len())
    } else {
        let head = replies.drop_last();
        &&& well_answered(perf, run, head)
        &&& answers(replies.last(), run_through(perf, run, head).1.stage)
    }
}

/// The two groups have the same counters under the same names, in the same order.
pub open spec fn same_counters<C>(a: PerfModel<C>, b: PerfModel<C>) -> bool {
    &&& a.counters.len() == b.counters.len()
    &&& forall|i: int|
        #![trigger a.counters[i]]
        #![trigger b.counters[i]]
        0 <= i < a.counters.len() ==> {
            &&& a.counters[i].0 == b.counters[i].0
            &&& a.counters[i].1.counter == b.counters[i].1.counter
        }
}

/// One reply keeps the counters, and the run stays within them.
proof fn lemma_step_keeps_counters<C, E>(
    perf: PerfModel<C>,
    run: CounterRun<E>,
    reply: Reply<E>,
)
    requires
        perf.counters.len() <= usize::MAX,
        fits(run.stage, perf.counters.len()),
        answers(reply, run.stage),
    ensures
        same_counters(perf, next_perf(perf, run.stage, reply)),
        fits(next_run(run, reply, perf.counters.len()).stage, perf.counters.len()),
        0 <= replies_left(
            next_run(run, reply, perf.counters.len()).stage,
            perf.counters.len() as int,
        ) < replies_left(run.stage, perf.counters.len() as int),
{
}

/// A run keeps the counters, their names and their order, and never leaves them.
pub proof fn law_run_keeps_counters<C, E>(
    perf: PerfModel<C>,
    run: CounterRun<E>,
    replies: Seq<Reply<E>>,
)
    requires
        perf.counters.len() <= usize::MAX,
        well_answered(perf, run, replies),
    ensures
        same_counters(perf, run_through(perf, run, replies).0),
        fits(run_through(perf, run, replies).1.stage, perf.counters.len()),
    decreases replies.len(),
{
    if replies.len() > 0 {
        let head = replies.drop_last();
        law_run_keeps_counters(perf, run, head);
        let (p, r) = run_through(perf, run, head);
        lemma_step_keeps_counters(p, r, replies.last());
    }
}

/// The group but for the counters themselves: names, readings and times.
pub open spec fn without_handles<C>(perf: PerfModel<C>) -> PerfModel<()> {
    PerfModel {
        counters: perf.counters.map_values(
            |c: (Seq<char>, CounterState<C>)|
                (c.0, CounterState { counter: (), start: c.1.start, end: c.1.end }),
        ),
        t_start: perf.t_start,
        t_stop: perf.t_stop,
    }
}

/// The reply was taken down; then the counters themselves may have been used.
pub open spec fn taken_down<C, E>(
    perf: PerfModel<C>,
    run: CounterRun<E>,
    reply: Reply<E>,
    after: PerfModel<C>,
    left: CounterRun<E>,
) -> bool {
    &&& without_handles(after) == without_handles(next_perf(perf, run.stage, reply))
    &&& left == next_run(run, reply, perf.counters.len())
}

/// A group and a run over it may come to be `after` and `left` on the replies, while the
/// counters themselves are used in between.
pub open spec fn driven<C, E>(
    perf: PerfModel<C>,
    run: CounterRun<E>,
    replies: Seq<Reply<E>>,
    after: PerfModel<C>,
    left: CounterRun<E>,
) -> bool
    decreases replies.len(),
{
    if replies.len() == 0 {
        without_handles(after) == without_handles(perf) && left == run
    } else {
        exists|p: PerfModel<C>, r: CounterRun<E>|
            driven(perf, run, replies.drop_last(), p, r) && #[trigger] taken_down(
                p,
                r,
                replies.last(),
                after,
                left,
            )
    }
}

/// What is done to the counters themselves does not matter to names, readings and times:
/// these, and the run, are what the replies make of them.
pub proof fn law_handles_do_not_matter<C, E>(
    perf: PerfModel<C>,
    run: CounterRun<E>,
    replies: Seq<Reply<E>>,
    after: PerfModel<C>,
    left: CounterRun<E>,
)
    requires
        perf.counters.len() <= usize::MAX,
        well_answered(without_handles(perf), run, replies),
        driven(perf, run, replies, after, left),
    ensures
        (without_handles(after), left) == run_through(without_handles(perf), run, replies),
    decreases replies.len(),
{
    if replies.len() > 0 {
        let head = replies.drop_last();
        let (p, r) = choose|p: PerfModel<C>, r: CounterRun<E>|
            driven(perf, run, head, p, r) && #[trigger] taken_down(
                p,
                r,
                replies.last(),
                after,
                left,
            );
        law_handles_do_not_matter(perf, run, head, p, r);
        law_run_keeps_counters(without_handles(perf), run, head);
        let (q, t) = run_through(without_handles(perf), run, head);
        assert(p.counters.len() == q.counters.len());
        let kept = without_handles(next_perf(p, r.stage, replies.last()));
        let told = next_perf(q, r.stage, replies.last());
        assert(kept.counters =~= told.counters);
    }
}

/// The most replies that a run over `n` counters can still take.
pub open spec fn replies_left(stage: Stage, n: int) -> int {
    match stage {
        Stage::Reset(i) => 3 * (n - i) + 2 * n + 1,
        Stage::Enable(i) => 3 * (n - i) + 2 * n,
        Stage::ReadStart(i) => 3 * (n - i) + 2 * n - 1,
        Stage::StartClock => 1,
        Stage::UndoRead(i) => 2 * (n - i),
        Stage::UndoDisable(i) => 2 * (n - i) - 1,
        Stage::StopClock => 2 * n + 1,
        Stage::StopRead(i) => 2 * (n - i),
        Stage::StopDisable(i) => 2 * (n - i) - 1,
        Stage::FetchClock => n + 1,
        Stage::FetchRead(i) => n - i,
        Stage::Finished => 0,
    }
}

/// Every run ends: each reply brings it nearer to its end.
pub proof fn law_run_ends<C, E>(perf: PerfModel<C>, run: CounterRun<E>, replies: Seq<Reply<E>>)
    requires
        perf.counters.len() <= usize::MAX,
        well_answered(perf, run, replies),
    ensures
        replies.len() + replies_left(
            run_through(perf, run, replies).1.stage,
            perf.counters.len() as int,
        ) <= replies_left(run.stage, perf.counters.len() as int),
        replies_left(run_through(perf, run, replies).1.stage, perf.counters.len() as int) >= 0,
    decreases replies.len(),
{
    if replies.len() > 0 {
        let head = replies.drop_last();
        law_run_ends(perf, run, head);
        law_run_keeps_counters(perf, run, head);
        let (p, r) = run_through(perf, run, head);
        lemma_step_keeps_counters(p, r, replies.last());
    }
}

/// Starting takes at most five replies a counter and one more; stopping two a counter and
/// one more; reading one a counter and one more.
pub proof fn law_run_lengths<C, E>(perf: PerfModel<C>, replies: Seq<Reply<E>>)
    requires
        perf.counters.len() <= usize::MAX,
    ensures
        well_answered(perf, start_run::<E>(perf.counters.len()), replies) ==> replies.len() <= 5
            * perf.counters.len() + 1,
        well_answered(perf, stop_run::<E>(), replies) ==> replies.len() <= 2 * perf.counters.len()
            + 1,
        well_answered(perf, fetch_run::<E>(), replies) ==> replies.len() <= perf.counters.len()
            + 1,
{
    if well_answered(perf, start_run::<E>(perf.counters.len()), replies) {
        law_run_ends(perf, start_run::<E>(perf.counters.len()), replies);
    }
    if well_answered(perf, stop_run::<E>(), replies) {
        law_run_ends(perf, stop_run::<E>(), replies);
    }
    if well_answered(perf, fetch_run::<E>(), replies) {
        law_run_ends(perf, fetch_run::<E>(), replies);
    }
}

/// An error counts unless it comes while a failed start is undone.
pub open spec fn error_counts(stage: Stage) -> bool {
    !(stage is UndoRead) && !(stage is UndoDisable)
}

/// The error that a run reports is that of the last command that failed, leaving out
/// those that undo a failed start; it reports none exactly if none failed.
pub proof fn law_last_error_is_reported<C, E>(
    perf: PerfModel<C>,
    run: CounterRun<E>,
    replies: Seq<Reply<E>>,
)
    requires
        well_answered(perf, run, replies),
        run.error is None,
    ensures
        match run_through(perf, run, replies).1.error {
            Some(e) => exists|j: int|
                #![trigger replies[j]]
                {
                    &&& 0 <= j < replies.len()
                    &&& replies[j] == Reply::Failed(e)
                    &&& error_counts(stage_at(perf, run, replies, j))
                    &&& forall|k: int|
                        #![trigger replies[k]]
                        j < k < replies.len() && error_counts(stage_at(perf, run, replies, k))
                            ==> !(replies[k] is Failed)
                },
            None => forall|k: int|
                #![trigger replies[k]]
                0 <= k < replies.len() && error_counts(stage_at(perf, run, replies, k)) ==> !(
                replies[k] is Failed),
        },
    decreases replies.len(),
{
    if replies.len() > 0 {
        let head = replies.drop_last();
        let n = replies.len() - 1;
        law_last_error_is_reported(perf, run, head);
        assert(replies.take(n) =~= head);
        assert forall|k: int| 0 <= k < n implies #[trigger] stage_at(perf, run, replies, k)
            == stage_at(perf, run, head, k) by {
            assert(replies.take(k) =~= head.take(k));
        }
        assert forall|k: int| 0 <= k < n implies #[trigger] replies[k] == head[k] by {}
        let before = run_through(perf, run, head).1;
        assert(stage_at(perf, run, replies, n) == before.stage);
        if before.error is Some && !(replies.last() is Failed && error_counts(before.stage)) {
            let e = before.error->0;
            let j = choose|j: int|
                #![trigger head[j]]
                {
                    &&& 0 <= j < head.len()
                    &&& head[j] == Reply::Failed(e)
                    &&& error_counts(stage_at(perf, run, head, j))
                    &&& forall|k: int|
                        #![trigger head[k]]
                        j < k < head.len() && error_counts(stage_at(perf, run, head, k)) ==> !(
                        head[k] is Failed)
                };
            assert(replies[j] == Reply::Failed(e));
            assert forall|k: int|
                #![trigger replies[k]]
                j < k < replies.len() && error_counts(stage_at(perf, run, replies, k)) implies !(
            replies[k] is Failed) by {
                if k < n {
                    assert(head[k] == replies[k]);
                }
            }
        } else if replies.last() is Failed && error_counts(before.stage) {
            assert(replies[n] == replies.last());
        } else {
            assert forall|k: int|
                #![trigger replies[k]]
                0 <= k < replies.len() && error_counts(
                    stage_at(perf, run, replies, k),
                ) implies !(replies[k] is Failed) by {
                if k < n {
                    assert(head[k] == replies[k]);
                }
            }
        }
    }
}

/// No command failed.
pub open spec fn no_failure<E>(replies: Seq<Reply<E>>) -> bool {
    forall|k: int| #![trigger replies[k]] 0 <= k < replies.len() ==> !(replies[k] is Failed)
}

/// The stages of a start, with what is known of errors and times there.
proof fn lemma_start_stages<C, E>(perf: PerfModel<C>, replies: Seq<Reply<E>>)
    requires
        perf.counters.len() <= usize::MAX,
        well_answered(perf, start_run::<E>(perf.counters.len()), replies),
    ensures
        ({
            let (p, r) = run_through(perf, start_run::<E>(perf.counters.len()), replies);
            &&& p.t_stop == perf.t_stop
            &&& !(r.stage == Stage::Finished && r.error is None) ==> p.t_start == perf.t_start
            &&& r.error is None <==> no_failure(replies)
            &&& match r.stage {
                Stage::Reset(_) => true,
                Stage::Enable(_) => true,
                Stage::ReadStart(_) => true,
                Stage::StartClock => r.error is None,
                Stage::UndoRead(_) => r.error is Some,
                Stage::UndoDisable(_) => r.error is Some,
                Stage::Finished => true,
                _ => false,
            }
        }),
    decreases replies.len(),
{
    if replies.len() > 0 {
        let head = replies.drop_last();
        let run = start_run::<E>(perf.counters.len());
        lemma_start_stages(perf, head);
        law_run_keeps_counters(perf, run, head);
        assert(forall|k: int| #![trigger replies[k]] 0 <= k < head.len() ==> replies[k] == head[k]);
        assert(forall|k: int| #![trigger head[k]] 0 <= k < head.len() ==> replies[k] == head[k]);
        assert(replies[replies.len() - 1] == replies.last());
    }
}

/// Starting succeeds exactly if no command failed.
pub proof fn law_start_succeeds<C, E>(perf: PerfModel<C>, replies: Seq<Reply<E>>)
    requires
        perf.counters.len() <= usize::MAX,
        well_answered(perf, start_run::<E>(perf.counters.len()), replies),
    ensures
        run_through(perf, start_run::<E>(perf.counters.len()), replies).1.error is None
            <==> no_failure(replies),
{
    lemma_start_stages(perf, replies);
}

/// Where a start stands after `k` replies when nothing failed.
pub open spec fn clean_start_stage(k: int, n: int) -> Stage {
    if k < 3 * n {
        if k % 3 == 0 {
            Stage::Reset((k / 3) as usize)
        } else if k % 3 == 1 {
            Stage::Enable((k / 3) as usize)
        } else {
            Stage::ReadStart((k / 3) as usize)
        }
    } else if k == 3 * n {
        Stage::StartClock
    } else {
        Stage::Finished
    }
}

/// A start in which nothing fails: each counter in turn is set back, switched on and
/// read; then the time is taken.
pub proof fn law_clean_start<C, E>(perf: PerfModel<C>, replies: Seq<Reply<E>>)
    requires
        perf.counters.len() <= usize::MAX,
        well_answered(perf, start_run::<E>(perf.counters.len()), replies),
        no_failure(replies),
    ensures
        ({
            let n = perf.counters.len() as int;
            let (p, r) = run_through(perf, start_run::<E>(perf.counters.len()), replies);
            &&& replies.len() <= 3 * n + 1
            &&& r.stage == clean_start_stage(replies.len() as int, n)
            &&& p.t_stop == perf.t_stop
            &&& p.t_start == if replies.len() == 3 * n + 1 {
                replies[3 * n]->Time_0
            } else {
                perf.t_start
            }
            &&& p.counters.len() == n
            &&& forall|i: int|
                #![trigger p.counters[i]]
                0 <= i < n ==> p.counters[i] == (
                    perf.counters[i].0,
                    CounterState {
                        start: if 3 * i + 2 < replies.len() {
                            replies[3 * i + 2]->Value_0
                        } else {
                            perf.counters[i].1.start
                        },
                        ..perf.counters[i].1
                    },
                )
        }),
    decreases replies.len(),
{
    let n = perf.counters.len() as int;
    let run = start_run::<E>(perf.counters.len());
    if replies.len() > 0 {
        let head = replies.drop_last();
        let k = head.len() as int;
        assert(forall|j: int| #![trigger replies[j]] 0 <= j < k ==> replies[j] == head[j]);
        assert forall|j: int| #![trigger head[j]] 0 <= j < k implies !(head[j] is Failed) by {
            assert(!(replies[j] is Failed));
        }
        law_clean_start(perf, head);
        lemma_start_stages(perf, head);
        assert(!(replies[k] is Failed));
        let (p, r) = run_through(perf, run, head);
        let (q, t) = run_through(perf, run, replies);
        if k < 3 * n {
            let i = k / 3;
            assert(0 <= i < n);
            if k % 3 == 2 {
                assert(3 * i + 2 == k);
                assert(q == with_start(p, i, replies[k]->Value_0));
            }
        }
    } else {
        assert forall|i: int| #![trigger perf.counters[i]] 0 <= i < n implies perf.counters[i] == (
            perf.counters[i].0,
            CounterState { start: perf.counters[i].1.start, ..perf.counters[i].1 },
        ) by {}
    }
}

/// The stages of the earlier replies do not depend on the last one.
proof fn lemma_earlier_stages<C, E>(
    perf: PerfModel<C>,
    run: CounterRun<E>,
    replies: Seq<Reply<E>>,
)
    requires
        replies.len() > 0,
    ensures
        forall|j: int|
            0 <= j < replies.len() ==> #[trigger] stage_at(perf, run, replies, j) == stage_at(
                perf,
                run,
                replies.drop_last(),
                j,
            ),
        stage_at(perf, run, replies, replies.len() - 1) == run_through(
            perf,
            run,
            replies.drop_last(),
        ).1.stage,
{
    let head = replies.drop_last();
    assert forall|j: int| 0 <= j < replies.len() implies #[trigger] stage_at(perf, run, replies, j)
        == stage_at(perf, run, head, j) by {
        assert(replies.take(j) =~= head.take(j));
    }
    assert(head.take(head.len() as int) =~= head);
}

/// Counter `i` was dealt with in undoing a start: it was read for the last time and, if
/// that went well, switched off.
pub open spec fn undone<C, E>(
    perf: PerfModel<C>,
    run: CounterRun<E>,
    replies: Seq<Reply<E>>,
    i: int,
) -> bool {
    exists|j: int| #[trigger] undone_at(perf, run, replies, i, j)
}

/// Counter `i` was dealt with at reply `j`.
pub open spec fn undone_at<C, E>(
    perf: PerfModel<C>,
    run: CounterRun<E>,
    replies: Seq<Reply<E>>,
    i: int,
    j: int,
) -> bool {
    &&& 0 <= j < replies.len()
    &&& stage_at(perf, run, replies, j) == Stage::UndoRead(i as usize)
    &&& replies[j] is Value ==> j + 1 < replies.len() && stage_at(perf, run, replies, j + 1)
        == Stage::UndoDisable(i as usize)
}

/// How far undoing a start has come.
proof fn lemma_undone_so_far<C, E>(perf: PerfModel<C>, replies: Seq<Reply<E>>)
    requires
        perf.counters.len() <= usize::MAX,
        well_answered(perf, start_run::<E>(perf.counters.len()), replies),
    ensures
        ({
            let run = start_run::<E>(perf.counters.len());
            let r = run_through(perf, run, replies).1;
            let done: int = match r.stage {
                Stage::UndoRead(m) => m as int,
                Stage::UndoDisable(m) => m as int,
                Stage::Finished => if r.error is Some {
                    perf.counters.len() as int
                } else {
                    0
                },
                _ => 0,
            };
            &&& forall|i: int| 0 <= i < done ==> #[trigger] undone(perf, run, replies, i)
            &&& r.stage matches Stage::UndoDisable(m) ==> {
                &&& replies.len() > 0
                &&& replies.last() is Value
                &&& stage_at(perf, run, replies, replies.len() - 1) == Stage::UndoRead(m)
            }
        }),
    decreases replies.len(),
{
    if replies.len() > 0 {
        let run = start_run::<E>(perf.counters.len());
        let head = replies.drop_last();
        let last = replies.len() - 1;
        lemma_undone_so_far(perf, head);
        lemma_start_stages(perf, head);
        law_run_keeps_counters(perf, run, head);
        lemma_earlier_stages(perf, run, replies);
        let r = run_through(perf, run, head).1;
        if let Stage::UndoRead(m) = r.stage {
            if replies.last() is Failed {
                assert(undone_at(perf, run, replies, m as int, last));
            }
        }
        if let Stage::UndoDisable(m) = r.stage {
            lemma_earlier_stages(perf, run, head);
            assert(head[last - 1] == replies[last - 1]);
            assert(undone_at(perf, run, replies, m as int, last - 1));
        }
        assert forall|i: int|
            0 <= i < perf.counters.len() && undone(perf, run, head, i) implies #[trigger] undone(
            perf,
            run,
            replies,
            i,
        ) by {
            let j = choose|j: int| #[trigger] undone_at(perf, run, head, i, j);
            assert(head[j] == replies[j]);
            assert(undone_at(perf, run, replies, i, j));
        }
    }
}

/// Counter `i` was tried from reply `j` on: it was set back and, if that went well, switched
/// on and, if that went well too, read.
pub open spec fn tried_at<C, E>(
    perf: PerfModel<C>,
    run: CounterRun<E>,
    replies: Seq<Reply<E>>,
    i: int,
    j: int,
) -> bool {
    &&& 0 <= j < replies.len()
    &&& stage_at(perf, run, replies, j) == Stage::Reset(i as usize)
    &&& !(replies[j] is Failed) ==> {
        &&& j + 1 < replies.len()
        &&& stage_at(perf, run, replies, j + 1) == Stage::Enable(i as usize)
        &&& !(replies[j + 1] is Failed) ==> {
            &&& j + 2 < replies.len()
            &&& stage_at(perf, run, replies, j + 2) == Stage::ReadStart(i as usize)
        }
    }
}

/// How many counters a start has tried to set back.
spec fn counters_tried(stage: Stage, n: int) -> int {
    match stage {
        Stage::Reset(m) => m as int,
        Stage::Enable(m) => m + 1,
        Stage::ReadStart(m) => m + 1,
        _ => n,
    }
}

/// Some reply was given when counter `i` was to be set back.
spec fn reset_asked<C, E>(
    perf: PerfModel<C>,
    run: CounterRun<E>,
    replies: Seq<Reply<E>>,
    i: int,
) -> bool {
    exists|j: int|
        0 <= j < replies.len() && #[trigger] stage_at(perf, run, replies, j) == Stage::Reset(
            i as usize,
        )
}

/// How far a start has come with setting its counters back.
proof fn lemma_tried_so_far<C, E>(perf: PerfModel<C>, replies: Seq<Reply<E>>, i: int)
    requires
        perf.counters.len() <= usize::MAX,
        well_answered(perf, start_run::<E>(perf.counters.len()), replies),
        0 <= i < perf.counters.len(),
        i < counters_tried(
            run_through(perf, start_run::<E>(perf.counters.len()), replies).1.stage,
            perf.counters.len() as int,
        ),
    ensures
        reset_asked(perf, start_run::<E>(perf.counters.len()), replies, i),
    decreases replies.len(),
{
    let run = start_run::<E>(perf.counters.len());
    if replies.len() > 0 {
        let head = replies.drop_last();
        let last = replies.len() - 1;
        lemma_start_stages(perf, head);
        law_run_keeps_counters(perf, run, head);
        lemma_earlier_stages(perf, run, replies);
        let stage = run_through(perf, run, head).1.stage;
        if i < counters_tried(stage, perf.counters.len() as int) {
            lemma_tried_so_far(perf, head, i);
            let j = choose|j: int|
                0 <= j < head.len() && #[trigger] stage_at(perf, run, head, j) == Stage::Reset(
                    i as usize,
                );
            assert(stage_at(perf, run, replies, j) == Stage::Reset(i as usize));
        } else {
            assert(stage == Stage::Reset(i as usize));
            assert(stage_at(perf, run, replies, last) == stage);
        }
    }
}

/// The stage after reply `j` follows from the one at which it was given.
proof fn lemma_next_stage<C, E>(
    perf: PerfModel<C>,
    run: CounterRun<E>,
    replies: Seq<Reply<E>>,
    j: int,
)
    requires
        0 <= j < replies.len(),
    ensures
        ({
            let (p, r) = run_through(perf, run, replies.take(j));
            &&& r.stage == stage_at(perf, run, replies, j)
            &&& stage_at(perf, run, replies, j + 1) == next_run(
                r,
                replies[j],
                p.counters.len(),
            ).stage
        }),
        j + 1 == replies.len() ==> stage_at(perf, run, replies, j + 1) == run_through(
            perf,
            run,
            replies,
        ).1.stage,
{
    assert(replies.take(j + 1).drop_last() =~= replies.take(j));
    assert(replies.take(j + 1).last() == replies[j]);
    if j + 1 == replies.len() {
        assert(replies.take(j + 1) =~= replies);
    }
}

/// Counter `i` was tried.
pub open spec fn tried<C, E>(
    perf: PerfModel<C>,
    run: CounterRun<E>,
    replies: Seq<Reply<E>>,
    i: int,
) -> bool {
    exists|j: int| #[trigger] tried_at(perf, run, replies, i, j)
}

/// No counter is left to be tried at the stage of a start.
pub open spec fn all_tried(stage: Stage) -> bool {
    !(stage is Reset) && !(stage is Enable) && !(stage is ReadStart)
}

/// A start tries every counter, whether or not others fail: before it does anything else, each
/// is set back and, if that goes well, switched on and, if that goes well too, read.
pub proof fn law_every_counter_is_tried<C, E>(perf: PerfModel<C>, replies: Seq<Reply<E>>, i: int)
    requires
        perf.counters.len() <= usize::MAX,
        well_answered(perf, start_run::<E>(perf.counters.len()), replies),
        all_tried(run_through(perf, start_run::<E>(perf.counters.len()), replies).1.stage),
        0 <= i < perf.counters.len(),
    ensures
        tried(perf, start_run::<E>(perf.counters.len()), replies, i),
{
    let run = start_run::<E>(perf.counters.len());
    lemma_tried_so_far(perf, replies, i);
    let j = choose|j: int|
        0 <= j < replies.len() && #[trigger] stage_at(perf, run, replies, j) == Stage::Reset(
            i as usize,
        );
    lemma_next_stage(perf, run, replies, j);
    if j + 1 < replies.len() {
        lemma_next_stage(perf, run, replies, j + 1);
    }
    assert(tried_at(perf, run, replies, i, j));
}

/// The earlier replies were given to their commands as well.
proof fn lemma_earlier_replies<C, E>(
    perf: PerfModel<C>,
    run: CounterRun<E>,
    replies: Seq<Reply<E>>,
    k: int,
)
    requires
        well_answered(perf, run, replies),
        0 <= k <= replies.len(),
    ensures
        well_answered(perf, run, replies.take(k)),
    decreases replies.len(),
{
    if k == replies.len() {
        assert(replies.take(k) =~= replies);
    } else {
        lemma_earlier_replies(perf, run, replies.drop_last(), k);
        assert(replies.drop_last().take(k) =~= replies.take(k));
    }
}

/// A start that fails is undone: every counter is read for the last time and, if that goes
/// well, switched off. Before any of that, every counter was tried. The times of the start and
/// of the stop stay what they were.
pub proof fn law_failed_start_is_undone<C, E>(perf: PerfModel<C>, replies: Seq<Reply<E>>)
    requires
        perf.counters.len() <= usize::MAX,
        well_answered(perf, start_run::<E>(perf.counters.len()), replies),
        run_through(perf, start_run::<E>(perf.counters.len()), replies).1.stage == Stage::Finished,
        !no_failure(replies),
    ensures
        run_through(perf, start_run::<E>(perf.counters.len()), replies).0.t_start == perf.t_start,
        run_through(perf, start_run::<E>(perf.counters.len()), replies).0.t_stop == perf.t_stop,
        forall|i: int, k: int|
            #![trigger tried(perf, start_run::<E>(perf.counters.len()), replies.take(k), i)]
            0 <= i < perf.counters.len() && 0 <= k < replies.len() && !error_counts(
                stage_at(perf, start_run::<E>(perf.counters.len()), replies, k),
            ) ==> tried(perf, start_run::<E>(perf.counters.len()), replies.take(k), i),
        forall|i: int|
            0 <= i < perf.counters.len() ==> #[trigger] undone(
                perf,
                start_run::<E>(perf.counters.len()),
                replies,
                i,
            ),
{
    let run = start_run::<E>(perf.counters.len());
    lemma_start_stages(perf, replies);
    lemma_undone_so_far(perf, replies);
    assert forall|i: int, k: int|
        #![trigger tried(perf, run, replies.take(k), i)]
        0 <= i < perf.counters.len() && 0 <= k < replies.len() && !error_counts(
            stage_at(perf, run, replies, k),
        ) implies tried(perf, run, replies.take(k), i) by {
        lemma_earlier_replies(perf, run, replies, k);
        law_every_counter_is_tried(perf, replies.take(k), i);
    }
}

/// The counter state `after` is `before` with the last reading that was asked for in
/// `stage`, or `before` itself if that failed.
pub open spec fn end_taken<C, E>(
    perf: PerfModel<C>,
    run: CounterRun<E>,
    replies: Seq<Reply<E>>,
    stage: Stage,
    before: CounterState<C>,
    after: CounterState<C>,
) -> bool {
    exists|j: int|
        #![trigger replies[j]]
        {
            &&& 0 <= j < replies.len()
            &&& stage_at(perf, run, replies, j) == stage
            &&& after == match replies[j] {
                Reply::Value(r) => CounterState { end: r, ..before },
                _ => before,
            }
        }
}

/// What was taken stays taken.
proof fn lemma_end_stays_taken<C, E>(
    perf: PerfModel<C>,
    run: CounterRun<E>,
    replies: Seq<Reply<E>>,
    stage: Stage,
    before: CounterState<C>,
    after: CounterState<C>,
)
    requires
        replies.len() > 0,
        end_taken(perf, run, replies.drop_last(), stage, before, after),
    ensures
        end_taken(perf, run, replies, stage, before, after),
{
    lemma_earlier_stages(perf, run, replies);
    let head = replies.drop_last();
    let j = choose|j: int|
        #![trigger head[j]]
        {
            &&& 0 <= j < head.len()
            &&& stage_at(perf, run, head, j) == stage
            &&& after == match head[j] {
                Reply::Value(r) => CounterState { end: r, ..before },
                _ => before,
            }
        };
    assert(replies[j] == head[j]);
}

/// The run that stops the counters, or the one that reads them while they go on.
pub open spec fn reading_run<E>(fetch: bool) -> CounterRun<E> {
    if fetch {
        fetch_run()
    } else {
        stop_run()
    }
}

/// The stage in which such a run reads counter `i`.
pub open spec fn reading_stage(fetch: bool, i: int) -> Stage {
    if fetch {
        Stage::FetchRead(i as usize)
    } else {
        Stage::StopRead(i as usize)
    }
}

/// How many counters such a run has read.
spec fn counters_read(stage: Stage, n: int) -> int {
    match stage {
        Stage::StopRead(m) => m as int,
        Stage::StopDisable(m) => m + 1,
        Stage::FetchRead(m) => m as int,
        Stage::Finished => n,
        _ => 0,
    }
}

/// The stage is one of such a run.
spec fn is_reading_stage(fetch: bool, stage: Stage) -> bool {
    match stage {
        Stage::StopClock => !fetch,
        Stage::StopRead(_) => !fetch,
        Stage::StopDisable(_) => !fetch,
        Stage::FetchClock => fetch,
        Stage::FetchRead(_) => fetch,
        Stage::Finished => true,
        _ => false,
    }
}

/// The times in such a run.
proof fn lemma_reading_stages<C, E>(perf: PerfModel<C>, fetch: bool, replies: Seq<Reply<E>>)
    requires
        perf.counters.len() <= usize::MAX,
        well_answered(perf, reading_run::<E>(fetch), replies),
    ensures
        ({
            let (p, r) = run_through(perf, reading_run::<E>(fetch), replies);
            &&& is_reading_stage(fetch, r.stage)
            &&& p.t_start == perf.t_start
            &&& r.stage is StopClock || r.stage is FetchClock <==> replies.len() == 0
            &&& replies.len() > 0 ==> p.t_stop == replies[0]->Time_0
        }),
    decreases replies.len(),
{
    if replies.len() > 0 {
        let head = replies.drop_last();
        lemma_reading_stages(perf, fetch, head);
        law_run_keeps_counters(perf, reading_run::<E>(fetch), head);
        if head.len() > 0 {
            assert(head[0] == replies[0]);
        }
    }
}

/// What one reply does to counter `i` in such a run.
proof fn lemma_reading_step<C, E>(
    perf: PerfModel<C>,
    run: CounterRun<E>,
    fetch: bool,
    reply: Reply<E>,
    i: int,
)
    requires
        perf.counters.len() <= usize::MAX,
        fits(run.stage, perf.counters.len()),
        answers(reply, run.stage),
        is_reading_stage(fetch, run.stage),
        0 <= i < perf.counters.len(),
    ensures
        ({
            let n = perf.counters.len() as int;
            let now = run.stage == reading_stage(fetch, i);
            let after = next_perf(perf, run.stage, reply).counters[i];
            let stage = next_run(run, reply, perf.counters.len()).stage;
            &&& after.0 == perf.counters[i].0
            &&& now ==> after.1 == match reply {
                Reply::Value(r) => CounterState { end: r, ..perf.counters[i].1 },
                _ => perf.counters[i].1,
            }
            &&& now ==> i == counters_read(run.stage, n)
            &&& !now ==> after == perf.counters[i]
            &&& i < counters_read(stage, n) <==> i < counters_read(run.stage, n) || now
        }),
{
}

/// How far such a run has come with counter `i`.
proof fn lemma_read_so_far<C, E>(
    perf: PerfModel<C>,
    fetch: bool,
    replies: Seq<Reply<E>>,
    i: int,
)
    requires
        perf.counters.len() <= usize::MAX,
        well_answered(perf, reading_run::<E>(fetch), replies),
        0 <= i < perf.counters.len(),
    ensures
        ({
            let run = reading_run::<E>(fetch);
            let (p, r) = run_through(perf, run, replies);
            if i < counters_read(r.stage, perf.counters.len() as int) {
                end_taken(
                    perf,
                    run,
                    replies,
                    reading_stage(fetch, i),
                    perf.counters[i].1,
                    p.counters[i].1,
                )
            } else {
                p.counters[i] == perf.counters[i]
            }
        }),
    decreases replies.len(),
{
    let run = reading_run::<E>(fetch);
    if replies.len() > 0 {
        let head = replies.drop_last();
        let (p, r) = run_through(perf, run, head);
        lemma_read_so_far(perf, fetch, head, i);
        law_run_keeps_counters(perf, run, head);
        lemma_reading_stages(perf, fetch, head);
        lemma_reading_step(p, r, fetch, replies.last(), i);
        lemma_earlier_stages(perf, run, replies);
        if r.stage == reading_stage(fetch, i) {
            assert(replies[replies.len() - 1] == replies.last());
        } else if i < counters_read(r.stage, perf.counters.len() as int) {
            lemma_end_stays_taken(
                perf,
                run,
                replies,
                reading_stage(fetch, i),
                perf.counters[i].1,
                p.counters[i].1,
            );
        }
    }
}

/// Stopping the counters, and reading them while they go on, takes the time first. Then
/// each counter is read for the last time, and keeps the reading it had if that fails;
/// first readings and the time of the start stay.
pub proof fn law_every_counter_is_read<C, E>(
    perf: PerfModel<C>,
    fetch: bool,
    replies: Seq<Reply<E>>,
)
    requires
        perf.counters.len() <= usize::MAX,
        well_answered(perf, reading_run::<E>(fetch), replies),
        run_through(perf, reading_run::<E>(fetch), replies).1.stage == Stage::Finished,
    ensures
        ({
            let p = run_through(perf, reading_run::<E>(fetch), replies).0;
            &&& p.t_start == perf.t_start
            &&& p.t_stop == replies[0]->Time_0
            &&& same_counters(perf, p)
            &&& forall|i: int|
                #![trigger p.counters[i]]
                0 <= i < perf.counters.len() ==> end_taken(
                    perf,
                    reading_run::<E>(fetch),
                    replies,
                    reading_stage(fetch, i),
                    perf.counters[i].1,
                    p.counters[i].1,
                )
        }),
{
    let run = reading_run::<E>(fetch);
    let p = run_through(perf, run, replies).0;
    lemma_reading_stages(perf, fetch, replies);
    law_run_keeps_counters(perf, run, replies);
    assert forall|i: int|
        #![trigger p.counters[i]]
        0 <= i < perf.counters.len() implies end_taken(
        perf,
        run,
        replies,
        reading_stage(fetch, i),
        perf.counters[i].1,
        p.counters[i].1,
    ) by {
        lemma_read_so_far(perf, fetch, replies, i);
    }
}

/// Counter `i` was read for the last time at reply `j` and, if that went well, switched off.
pub open spec fn switched_off_at<C, E>(
    perf: PerfModel<C>,
    replies: Seq<Reply<E>>,
    i: int,
    j: int,
) -> bool {
    &&& 0 <= j < replies.len()
    &&& stage_at(perf, stop_run::<E>(), replies, j) == Stage::StopRead(i as usize)
    &&& replies[j] is Value ==> j + 1 < replies.len() && stage_at(
        perf,
        stop_run::<E>(),
        replies,
        j + 1,
    ) == Stage::StopDisable(i as usize)
}

/// Stopping switches every counter off whose last reading could be taken.
pub proof fn law_stop_switches_off<C, E>(perf: PerfModel<C>, replies: Seq<Reply<E>>, i: int)
    requires
        perf.counters.len() <= usize::MAX,
        well_answered(perf, stop_run::<E>(), replies),
        run_through(perf, stop_run::<E>(), replies).1.stage == Stage::Finished,
        0 <= i < perf.counters.len(),
    ensures
        exists|j: int| #[trigger] switched_off_at(perf, replies, i, j),
{
    let run = stop_run::<E>();
    let stage = Stage::StopRead(i as usize);
    law_every_counter_is_read(perf, false, replies);
    let p = run_through(perf, run, replies).0;
    let (before, after) = (perf.counters[i].1, p.counters[i].1);
    assert(end_taken(perf, run, replies, stage, before, after));
    let j = choose|j: int|
        #![trigger replies[j]]
        {
            &&& 0 <= j < replies.len()
            &&& stage_at(perf, run, replies, j) == stage
            &&& after == match replies[j] {
                Reply::Value(r) => CounterState { end: r, ..before },
                _ => before,
            }
        };
    assert(replies.take(j + 1).drop_last() =~= replies.take(j));
    assert(replies.take(j + 1).last() == replies[j]);
    if j + 1 == replies.len() {
        assert(replies.take(j + 1) =~= replies);
    }
    assert(switched_off_at(perf, replies, i, j));
}

/// What is done to counter `i` at each stage that speaks of it; the time is taken at the others,
/// and nothing at the end.
pub proof fn law_commands_of_stages(i: usize)
    ensures
        command_of(Stage::Reset(i)) == Some(Command::Reset(i)),
        command_of(Stage::Enable(i)) == Some(Command::Enable(i)),
        command_of(Stage::ReadStart(i)) == Some(Command::Read(i)),
        command_of(Stage::UndoRead(i)) == Some(Command::Read(i)),
        command_of(Stage::UndoDisable(i)) == Some(Command::Disable(i)),
        command_of(Stage::StopRead(i)) == Some(Command::Read(i)),
        command_of(Stage::StopDisable(i)) == Some(Command::Disable(i)),
        command_of(Stage::FetchRead(i)) == Some(Command::Read(i)),
        command_of(Stage::StartClock) == Some(Command::Clock),
        command_of(Stage::StopClock) == Some(Command::Clock),
        command_of(Stage::FetchClock) == Some(Command::Clock),
        command_of(Stage::Finished) is None,
{
}

/// Whatever is done to a counter may fail; the time can always be taken. A run that is over
/// takes no reply.
pub proof fn law_replies_that_fit<E>(stage: Stage, e: E, t: u128, r: Reading)
    ensures
        answers(Reply::Time::<E>(t), stage) <==> command_of(stage) == Some(Command::Clock),
        answers(Reply::Failed(e), stage) <==> command_of(stage) is Some && command_of(stage)
            != Some(Command::Clock),
        answers(Reply::Value::<E>(r), stage) <==> command_of(stage) matches Some(
            Command::Read(_),
        ),
        stage == Stage::Finished ==> !answers(Reply::Done::<E>, stage),
{
}

/// Each reply is taken down where it belongs: a first reading as the start of its counter, a
/// last reading as the end of its counter, a time as that of the start or of the stop. All else
/// stays.
pub proof fn law_reply_is_taken_down<C, E>(
    perf: PerfModel<C>,
    stage: Stage,
    reply: Reply<E>,
    i: int,
)
    requires
        perf.counters.len() <= usize::MAX,
        fits(stage, perf.counters.len()),
        0 <= i < perf.counters.len(),
    ensures
        ({
            let after = next_perf(perf, stage, reply);
            let (was, is) = (perf.counters[i], after.counters[i]);
            let last = stage == Stage::UndoRead(i as usize) || stage == Stage::StopRead(i as usize)
                || stage == Stage::FetchRead(i as usize);
            &&& after.counters.len() == perf.counters.len()
            &&& is.0 == was.0
            &&& is.1.counter == was.1.counter
            &&& stage == Stage::ReadStart(i as usize) && reply is Value ==> is.1.start
                == reply->Value_0
            &&& !(stage == Stage::ReadStart(i as usize) && reply is Value) ==> is.1.start
                == was.1.start
            &&& last && reply is Value ==> is.1.end == reply->Value_0
            &&& !(last && reply is Value) ==> is.1.end == was.1.end
        }),
{
}

/// The time of the start is taken when all counters run, that of the stop before the first is
/// read; no other reply changes them.
pub proof fn law_times_are_taken_down<C, E>(perf: PerfModel<C>, stage: Stage, reply: Reply<E>)
    ensures
        ({
            let after = next_perf(perf, stage, reply);
            let stop = stage == Stage::StopClock || stage == Stage::FetchClock;
            &&& stage == Stage::StartClock && reply is Time ==> after.t_start == reply->Time_0
            &&& !(stage == Stage::StartClock && reply is Time) ==> after.t_start == perf.t_start
            &&& stop && reply is Time ==> after.t_stop == reply->Time_0
            &&& !(stop && reply is Time) ==> after.t_stop == perf.t_stop
        }),
{
}

/// A failure is remembered in place of an earlier one, except while a failed start is undone;
/// nothing else changes what is remembered.
pub proof fn law_failure_is_remembered<E>(run: CounterRun<E>, reply: Reply<E>, n: nat)
    requires
        answers(reply, run.stage),
    ensures
        ({
            let undoing = run.stage is UndoRead || run.stage is UndoDisable;
            let after = next_run(run, reply, n);
            &&& reply is Failed && !undoing ==> after.error == Some(reply->Failed_0)
            &&& !(reply is Failed) || undoing ==> after.error == run.error
        }),
{
}

/// Nothing more is done to a counter that failed: a start goes on with the next counter, or
/// begins to undo if there is none; undoing, stopping and fetching go on with the next counter,
/// or are over.
pub proof fn law_failed_counter_is_left_alone<E>(run: CounterRun<E>, e: E, i: usize, n: nat)
    requires
        i < n <= usize::MAX,
    ensures
        ({
            let next = next_run(run, Reply::Failed(e), n).stage;
            let more = i + 1 < n;
            let then_i = (i + 1) as usize;
            &&& run.stage == Stage::Reset(i) || run.stage == Stage::Enable(i) || run.stage
                == Stage::ReadStart(i) ==> next == if more {
                Stage::Reset(then_i)
            } else {
                Stage::UndoRead(0)
            }
            &&& run.stage == Stage::UndoRead(i) || run.stage == Stage::UndoDisable(i) ==> next
                == if more {
                Stage::UndoRead(then_i)
            } else {
                Stage::Finished
            }
            &&& run.stage == Stage::StopRead(i) || run.stage == Stage::StopDisable(i) ==> next
                == if more {
                Stage::StopRead(then_i)
            } else {
                Stage::Finished
            }
            &&& run.stage == Stage::FetchRead(i) ==> next == if more {
                Stage::FetchRead(then_i)
            } else {
                Stage::Finished
            }
        }),
{
}

/// A counter that could be read in stopping or undoing is switched off next.
pub proof fn law_counter_is_switched_off_once_read<E>(
    run: CounterRun<E>,
    r: Reading,
    i: usize,
    n: nat,
)
    ensures
        run.stage == Stage::StopRead(i) ==> command_of(
            next_run(run, Reply::Value(r), n).stage,
        ) == Some(Command::Disable(i)),
        run.stage == Stage::UndoRead(i) ==> command_of(
            next_run(run, Reply::Value(r), n).stage,
        ) == Some(Command::Disable(i)),
        run.stage == Stage::FetchRead(i) ==> command_of(
            next_run(run, Reply::Value(r), n).stage,
        ) != Some(Command::Disable(i)),
{
}

/// Starting begins with setting the first counter back, or takes the time if there is none;
/// stopping and fetching begin with taking the time.
pub proof fn law_first_commands<E>(n: nat)
    ensures
        command_of(start_run::<E>(n).stage) == Some(
            if n > 0 {
                Command::Reset(0)
            } else {
                Command::Clock
            },
        ),
        command_of(stop_run::<E>().stage) == Some(Command::Clock),
        command_of(fetch_run::<E>().stage) == Some(Command::Clock),
        start_run::<E>(n).error is None,
        stop_run::<E>().error is None,
        fetch_run::<E>().error is None,
{
}

/// Stopping and fetching succeed exactly if nothing failed. They set no counter back and switch
/// none on, and fetching switches none off.
pub proof fn law_stop_and_fetch<C, E>(perf: PerfModel<C>, fetch: bool, replies: Seq<Reply<E>>)
    requires
        perf.counters.len() <= usize::MAX,
        well_answered(
            perf,
            if fetch {
                fetch_run::<E>()
            } else {
                stop_run::<E>()
            },
            replies,
        ),
    ensures
        ({
            let run = if fetch {
                fetch_run::<E>()
            } else {
                stop_run::<E>()
            };
            let left = run_through(perf, run, replies).1;
            &&& left.error is None <==> forall|k: int|
                #![trigger replies[k]]
                0 <= k < replies.len() ==> !(replies[k] is Failed)
            &&& !(command_of(left.stage) matches Some(Command::Reset(_)))
            &&& !(command_of(left.stage) matches Some(Command::Enable(_)))
            &&& fetch ==> !(command_of(left.stage) matches Some(Command::Disable(_)))
        }),
    decreases replies.len(),
{
    lemma_reading_stages(perf, fetch, replies);
    if replies.len() > 0 {
        let head = replies.drop_last();
        law_stop_and_fetch(perf, fetch, head);
        lemma_reading_stages(perf, fetch, head);
        assert(forall|k: int| #![trigger replies[k]] 0 <= k < head.len() ==> replies[k] == head[k]);
        assert(forall|k: int| #![trigger head[k]] 0 <= k < head.len() ==> replies[k] == head[k]);
        assert(replies[replies.len() - 1] == replies.last());
    }
}

/// A new reading of one counter changes that reading of that counter, and nothing else.
pub proof fn law_one_reading_changes<C>(perf: PerfModel<C>, i: int, j: int, r: Reading)
    requires
        0 <= i < perf.counters.len(),
        0 <= j < perf.counters.len(),
    ensures
        with_start(perf, i, r).counters[i].1.start == r,
        with_start(perf, i, r).counters[i].1.end == perf.counters[i].1.end,
        with_end(perf, i, r).counters[i].1.end == r,
        with_end(perf, i, r).counters[i].1.start == perf.counters[i].1.start,
        i != j ==> with_start(perf, i, r).counters[j] == perf.counters[j],
        i != j ==> with_end(perf, i, r).counters[j] == perf.counters[j],
{
}

/// A stage that speaks of a counter fits a group that has it; the others fit any group.
pub proof fn law_stages_that_fit(i: usize, n: nat)
    ensures
        fits(Stage::Reset(i), n) <==> i < n,
        fits(Stage::Enable(i), n) <==> i < n,
        fits(Stage::ReadStart(i), n) <==> i < n,
        fits(Stage::UndoRead(i), n) <==> i < n,
        fits(Stage::UndoDisable(i), n) <==> i < n,
        fits(Stage::StopRead(i), n) <==> i < n,
        fits(Stage::StopDisable(i), n) <==> i < n,
        fits(Stage::FetchRead(i), n) <==> i < n,
        fits(Stage::StartClock, n),
        fits(Stage::StopClock, n),
        fits(Stage::FetchClock, n),
        fits(Stage::Finished, n),
{
}

/// What follows when nothing fails: a start sets a counter back, switches it on, reads it, and
/// goes on with the next; after the last it takes the time, or undoes what it did if an earlier
/// counter failed.
pub proof fn law_start_goes_on<E>(run: CounterRun<E>, r: Reading, i: usize, n: nat)
    requires
        i < n <= usize::MAX,
    ensures
        run.stage == Stage::Reset(i) ==> next_run(run, Reply::Done, n).stage == Stage::Enable(i),
        run.stage == Stage::Enable(i) ==> next_run(run, Reply::Done, n).stage
            == Stage::ReadStart(i),
        run.stage == Stage::ReadStart(i) ==> next_run(run, Reply::Value(r), n).stage == if i + 1
            < n {
            Stage::Reset((i + 1) as usize)
        } else if run.error is Some {
            Stage::UndoRead(0)
        } else {
            Stage::StartClock
        },
{
}

} // verus!

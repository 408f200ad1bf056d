//! The events to count, and how the counters for them are set up.

use vstd::prelude::*;
use vstd::string::*;

pub use perfcnt::linux::PerfCounterBuilderLinux as Builder;
pub use perfcnt::linux::{CacheId, CacheOpId, CacheOpResultId};
pub use perfcnt::linux::{HardwareEventType, SoftwareEventType};

verus! {

////////////////////////////////////////////////////////////////////////////////
// Counter builders

/// What a counter builder can be told: all that it holds.
#[derive(Debug, Clone, Copy, PartialEq, Eq, Structural)]
pub enum Setting {
    /// The class of the event.
    Kind,
    /// The event within its class.
    Config,
    /// The descriptor of the group's leader.
    Group,
    /// The process that is watched.
    Pid,
    /// The processor that is watched.
    Cpu,
    /// Whether events in user space are left out.
    ExcludeUser,
    /// Whether child tasks are counted as well.
    Inherit,
    /// Whether the counter starts out switched off.
    Disabled,
    /// Whether a reading holds the time for which the counter was enabled.
    ReadTimeEnabled,
    /// Whether a reading holds the time for which the counter was running.
    ReadTimeRunning,
    /// Whether a reading holds the identity of the counter.
    ReadId,
    /// Whether one reading holds a whole group.
    ReadGroup,
    /// The other switches of the counter, such as leaving out the kernel, as one number.
    OtherSwitches,
    /// The period or the frequency of samples.
    SamplePeriod,
    /// What a sample holds.
    SampleType,
    /// How many events make for a wakeup.
    WakeupEvents,
    /// The flags with which the counter is opened.
    OpenFlags,
}

/// `perfcnt::linux::PerfCounterBuilderLinux`: the description of a counter that is
/// not open yet.
#[verifier::external_type_specification]
#[verifier::external_body]
pub struct ExBuilder(perfcnt::linux::PerfCounterBuilderLinux);

/// `perfcnt::linux::HardwareEventType`: the events of the processor.
#[verifier::external_type_specification]
pub struct ExHardwareEventType(perfcnt::linux::HardwareEventType);

/// `perfcnt::linux::SoftwareEventType`: the events of the kernel.
#[verifier::external_type_specification]
pub struct ExSoftwareEventType(perfcnt::linux::SoftwareEventType);

/// `perfcnt::linux::CacheId`: a cache.
#[verifier::external_type_specification]
pub struct ExCacheId(perfcnt::linux::CacheId);

/// `perfcnt::linux::CacheOpId`: a kind of cache access.
#[verifier::external_type_specification]
pub struct ExCacheOpId(perfcnt::linux::CacheOpId);

/// `perfcnt::linux::CacheOpResultId`: how a cache access ended.
#[verifier::external_type_specification]
pub struct ExCacheOpResultId(perfcnt::linux::CacheOpResultId);

/// What a counter builder was told. `Kind`, `Config`, `Group`, `Pid` and `Cpu` always
/// have a value. Of the others, one that is on or off is there, with the value 1, once it was
/// switched on; one that is a number is there, with its value, unless that is 0.
pub uninterp spec fn builder_settings(builder: Builder) -> Map<Setting, int>;

/// The number of a hardware event.
pub open spec fn hardware_config(event: HardwareEventType) -> int {
    match event {
        HardwareEventType::CPUCycles => 0,
        HardwareEventType::Instructions => 1,
        HardwareEventType::CacheReferences => 2,
        HardwareEventType::CacheMisses => 3,
        HardwareEventType::BranchInstructions => 4,
        HardwareEventType::BranchMisses => 5,
        HardwareEventType::BusCycles => 6,
        HardwareEventType::StalledCyclesFrontend => 7,
        HardwareEventType::StalledCyclesBackend => 8,
        HardwareEventType::RefCPUCycles => 9,
    }
}

/// The number of a software event.
pub open spec fn software_config(event: SoftwareEventType) -> int {
    match event {
        SoftwareEventType::CpuClock => 0,
        SoftwareEventType::TaskClock => 1,
        SoftwareEventType::PageFaults => 2,
        SoftwareEventType::ContextSwitches => 3,
        SoftwareEventType::CpuMigrations => 4,
        SoftwareEventType::PageFaultsMin => 5,
        SoftwareEventType::PageFaultsMaj => 6,
        SoftwareEventType::AlignmentFaults => 7,
        SoftwareEventType::EmulationFaults => 8,
    }
}

/// The number of a cache event: the cache, the access and its end, a byte each.
pub open spec fn cache_config(cache: CacheId, op: CacheOpId, end: CacheOpResultId) -> int {
    let c: int = match cache {
        CacheId::L1D => 0,
        CacheId::L1I => 1,
        CacheId::LL => 2,
        CacheId::DTLB => 3,
        CacheId::ITLB => 4,
        CacheId::BPU => 5,
        CacheId::NODE => 6,
    };
    let o: int = match op {
        CacheOpId::Read => 0,
        CacheOpId::Write => 1,
        CacheOpId::Prefetch => 2,
    };
    let e: int = match end {
        CacheOpResultId::Access => 0,
        CacheOpResultId::Miss => 1,
    };
    c + 0x100 * o + 0x10000 * e
}

/// The settings of a builder for the event `config` of the class `kind`, and
/// nothing else asked for: no group, the calling process, any processor.
pub open spec fn counting(kind: int, config: int) -> Map<Setting, int> {
    Map::empty().insert(Setting::Kind, kind).insert(Setting::Config, config).insert(
        Setting::Group,
        -1,
    ).insert(Setting::Pid, 0).insert(Setting::Cpu, -1)
}

/// Counting a hardware event, which is class 0.
pub open spec fn counting_hardware(event: HardwareEventType) -> Map<Setting, int> {
    counting(0, hardware_config(event))
}

/// Counting a software event, which is class 1.
pub open spec fn counting_software(event: SoftwareEventType) -> Map<Setting, int> {
    counting(1, software_config(event))
}

/// Counting a cache event, which is class 3.
pub open spec fn counting_cache(
    cache: CacheId,
    op: CacheOpId,
    end: CacheOpResultId,
) -> Map<Setting, int> {
    counting(3, cache_config(cache, op, end))
}

/// `PerfCounterBuilderLinux::from_hardware_event`: a builder for the event, with
/// everything else as in an empty description.
pub assume_specification[ perfcnt::linux::PerfCounterBuilderLinux::from_hardware_event ](
    event: perfcnt::linux::HardwareEventType,
) -> (res: perfcnt::linux::PerfCounterBuilderLinux)
    ensures
        builder_settings(res) == counting_hardware(event),
;

/// `PerfCounterBuilderLinux::from_software_event`: a builder for the event, with
/// everything else as in an empty description.
pub assume_specification[ perfcnt::linux::PerfCounterBuilderLinux::from_software_event ](
    event: perfcnt::linux::SoftwareEventType,
) -> (res: perfcnt::linux::PerfCounterBuilderLinux)
    ensures
        builder_settings(res) == counting_software(event),
;

/// `PerfCounterBuilderLinux::from_cache_event`: a builder for the event, with
/// everything else as in an empty description.
pub assume_specification[ perfcnt::linux::PerfCounterBuilderLinux::from_cache_event ](
    cache_id: perfcnt::linux::CacheId,
    cache_op_id: perfcnt::linux::CacheOpId,
    cache_op_result_id: perfcnt::linux::CacheOpResultId,
) -> (res: perfcnt::linux::PerfCounterBuilderLinux)
    ensures
        builder_settings(res) == counting_cache(cache_id, cache_op_id, cache_op_result_id),
;

/// `PerfCounterBuilderLinux::exclude_user`: switches the flag on and hands the
/// builder back.
pub assume_specification<'a>[ perfcnt::linux::PerfCounterBuilderLinux::exclude_user ](
    builder: &'a mut perfcnt::linux::PerfCounterBuilderLinux,
) -> (res: &'a mut perfcnt::linux::PerfCounterBuilderLinux)
    ensures
        builder_settings(*res) == builder_settings(*old(builder)).insert(Setting::ExcludeUser, 1),
        *final(builder) == *final(res),
;

/// `PerfCounterBuilderLinux::on_cpu`: sets the processor and hands the builder back.
pub assume_specification<'a>[ perfcnt::linux::PerfCounterBuilderLinux::on_cpu ](
    builder: &'a mut perfcnt::linux::PerfCounterBuilderLinux,
    cpu: isize,
) -> (res: &'a mut perfcnt::linux::PerfCounterBuilderLinux)
    ensures
        builder_settings(*res) == builder_settings(*old(builder)).insert(Setting::Cpu, cpu as int),
        *final(builder) == *final(res),
;

/// `PerfCounterBuilderLinux::for_pid`: sets the process and hands the builder back.
pub assume_specification<'a>[ perfcnt::linux::PerfCounterBuilderLinux::for_pid ](
    builder: &'a mut perfcnt::linux::PerfCounterBuilderLinux,
    pid: i32,
) -> (res: &'a mut perfcnt::linux::PerfCounterBuilderLinux)
    ensures
        builder_settings(*res) == builder_settings(*old(builder)).insert(Setting::Pid, pid as int),
        *final(builder) == *final(res),
;

/// `PerfCounterBuilderLinux::inherit`: switches the flag on and hands the builder
/// back.
pub assume_specification<'a>[ perfcnt::linux::PerfCounterBuilderLinux::inherit ](
    builder: &'a mut perfcnt::linux::PerfCounterBuilderLinux,
) -> (res: &'a mut perfcnt::linux::PerfCounterBuilderLinux)
    ensures
        builder_settings(*res) == builder_settings(*old(builder)).insert(Setting::Inherit, 1),
        *final(builder) == *final(res),
;

/// `PerfCounterBuilderLinux::disable`: switches the flag on and hands the builder
/// back.
pub assume_specification<'a>[ perfcnt::linux::PerfCounterBuilderLinux::disable ](
    builder: &'a mut perfcnt::linux::PerfCounterBuilderLinux,
) -> (res: &'a mut perfcnt::linux::PerfCounterBuilderLinux)
    ensures
        builder_settings(*res) == builder_settings(*old(builder)).insert(Setting::Disabled, 1),
        *final(builder) == *final(res),
;

/// `PerfCounterBuilderLinux::enable_read_format_time_enabled`: switches the flag on
/// and hands the builder back.
pub assume_specification<'a>[ perfcnt::linux::PerfCounterBuilderLinux::enable_read_format_time_enabled ](
    builder: &'a mut perfcnt::linux::PerfCounterBuilderLinux,
) -> (res: &'a mut perfcnt::linux::PerfCounterBuilderLinux)
    ensures
        builder_settings(*res) == builder_settings(*old(builder)).insert(Setting::ReadTimeEnabled, 1),
        *final(builder) == *final(res),
;

/// `PerfCounterBuilderLinux::enable_read_format_time_running`: switches the flag on
/// and hands the builder back.
pub assume_specification<'a>[ perfcnt::linux::PerfCounterBuilderLinux::enable_read_format_time_running ](
    builder: &'a mut perfcnt::linux::PerfCounterBuilderLinux,
) -> (res: &'a mut perfcnt::linux::PerfCounterBuilderLinux)
    ensures
        builder_settings(*res) == builder_settings(*old(builder)).insert(Setting::ReadTimeRunning, 1),
        *final(builder) == *final(res),
;

/// `PerfCounterBuilderLinux::enable_read_format_id`: switches the flag on and hands
/// the builder back.
pub assume_specification<'a>[ perfcnt::linux::PerfCounterBuilderLinux::enable_read_format_id ](
    builder: &'a mut perfcnt::linux::PerfCounterBuilderLinux,
) -> (res: &'a mut perfcnt::linux::PerfCounterBuilderLinux)
    ensures
        builder_settings(*res) == builder_settings(*old(builder)).insert(Setting::ReadId, 1),
        *final(builder) == *final(res),
;

/// The settings with which every counter is opened, put over those of its event:
/// any processor, the calling process and its children, switched off at first,
/// and readings with both times and the identity.
pub open spec fn finalized(settings: Map<Setting, int>) -> Map<Setting, int> {
    settings.insert(Setting::Cpu, -1).insert(Setting::Pid, 0).insert(Setting::Inherit, 1).insert(
        Setting::Disabled,
        1,
    ).insert(Setting::ReadTimeEnabled, 1).insert(Setting::ReadTimeRunning, 1).insert(
        Setting::ReadId,
        1,
    )
}

/// Finalizes a builder, so that the counter can be opened.
pub fn finalize_builder(builder: &mut Builder)
    ensures
        builder_settings(*final(builder)) == finalized(builder_settings(*old(builder))),
{
    builder.on_cpu(-1)  // all cpus
        .for_pid(0)  // calling process
        .inherit().disable()  // start disabled
        .enable_read_format_time_enabled()  // multiplexing counters
        .enable_read_format_time_running().enable_read_format_id();
}

////////////////////////////////////////////////////////////////////////////////
// Events

/// An event to count: its name, and the builder of its counter.
pub type NamedBuilder = (Seq<char>, Builder);

/// An event to count: its name, and what the builder of its counter was told.
pub type EventModel = (Seq<char>, Map<Setting, int>);

/// An event with its name taken as characters.
pub open spec fn named_builder(event: (&'static str, Builder)) -> NamedBuilder {
    (event.0@, event.1)
}

/// The events with the characters of their names.
pub open spec fn named_builders(events: Seq<(&'static str, Builder)>) -> Seq<NamedBuilder> {
    events.map_values(|e: (&'static str, Builder)| named_builder(e))
}

/// What the builders of the events were told.
pub open spec fn event_models(events: Seq<NamedBuilder>) -> Seq<EventModel> {
    events.map_values(|e: NamedBuilder| (e.0, builder_settings(e.1)))
}

/// The names of the events.
pub open spec fn event_names(events: Seq<NamedBuilder>) -> Seq<Seq<char>> {
    events.map_values(|e: NamedBuilder| e.0)
}

/// The events that are counted unless others are asked for.
pub open spec fn default_events() -> Seq<EventModel> {
    seq![
        ("cycles"@, counting_hardware(HardwareEventType::CPUCycles)),
        ("kcycles"@, counting_hardware(HardwareEventType::CPUCycles).insert(Setting::ExcludeUser, 1)),
        ("instructions"@, counting_hardware(HardwareEventType::Instructions)),
        ("L1-misses"@, counting_cache(CacheId::L1D, CacheOpId::Read, CacheOpResultId::Miss)),
        ("LLC-misses"@, counting_hardware(HardwareEventType::CacheMisses)),
        ("branch-misses"@, counting_hardware(HardwareEventType::BranchMisses)),
        ("task-clock"@, counting_software(SoftwareEventType::TaskClock)),
    ]
}

/// A list of events, each with the name of its column.
pub struct Events {
    list: Vec<(&'static str, Builder)>,
}

impl View for Events {
    type V = Seq<NamedBuilder>;

    closed spec fn view(&self) -> Seq<NamedBuilder> {
        named_builders(self.list@)
    }
}

impl Default for Events {
    fn default() -> (res: Self)
        ensures
            event_models(res@) == default_events(),
    {
        let mut kernel = Builder::from_hardware_event(HardwareEventType::CPUCycles);
        kernel.exclude_user();
        let mut list: Vec<(&'static str, Builder)> = Vec::new();
        list.push(("cycles", Builder::from_hardware_event(HardwareEventType::CPUCycles)));
        list.push(("kcycles", kernel));
        list.push(("instructions", Builder::from_hardware_event(HardwareEventType::Instructions)));
        list.push(
            (
                "L1-misses",
                Builder::from_cache_event(CacheId::L1D, CacheOpId::Read, CacheOpResultId::Miss),
            ),
        );
        list.push(("LLC-misses", Builder::from_hardware_event(HardwareEventType::CacheMisses)));
        list.push(("branch-misses", Builder::from_hardware_event(HardwareEventType::BranchMisses)));
        list.push(("task-clock", Builder::from_software_event(SoftwareEventType::TaskClock)));
        let res = Events { list };
        assert(event_models(res@) =~= default_events());
        res
    }
}

impl Events {
    /// These events and one more.
    pub fn add(self, name: &'static str, ev: Builder) -> (res: Self)
        ensures
            res@ == self@.push((name@, ev)),
    {
        let mut list = self.list;
        list.push((name, ev));
        let res = Events { list };
        assert(res@ =~= self@.push((name@, ev)));
        res
    }

    /// These events and more.
    pub fn add_all(self, evts: Vec<(&'static str, Builder)>) -> (res: Self)
        ensures
            res@ == self@ + named_builders(evts@),
    {
        let mut list = self.list;
        let mut more = evts;
        list.append(&mut more);
        let res = Events { list };
        assert(res@ =~= self@ + named_builders(evts@));
        res
    }

    /// The number of events.
    pub fn len(&self) -> (res: usize)
        ensures
            res == self@.len(),
    {
        self.list.len()
    }

    /// Goes over the events.
    pub fn iter(&self) -> (res: std::slice::Iter<'_, (&'static str, Builder)>)
        ensures
            named_builders(vstd::std_specs::slice::into_iter_elts(res)) == self@,
    {
        let res = self.list.iter();
        assert(vstd::std_specs::slice::into_iter_elts(res) =~= self.list@);
        res
    }

    /// Hands the events out.
    pub fn into_iter(self) -> (res: std::vec::IntoIter<(&'static str, Builder)>)
        ensures
            named_builders(vstd::std_specs::vec::into_iter_elts(res)) == self@,
    {
        self.list.into_iter()
    }

    /// The name of the event at `i`.
    pub fn name(&self, i: usize) -> (res: &'static str)
        requires
            i < self@.len(),
        ensures
            res@ == self@[i as int].0,
    {
        self.list[i].0
    }

    /// The event at `i`, to be changed.
    pub fn get_mut(&mut self, i: usize) -> (res: &mut (&'static str, Builder))
        requires
            i < old(self)@.len(),
        ensures
            named_builder(*res) == old(self)@[i as int],
            final(self)@ == old(self)@.update(i as int, named_builder(*final(res))),
    {
        let res = &mut self.list[i];
        res
    }
}

////////////////////////////////////////////////////////////////////////////////
// Laws

/// What finalizing sets.
pub open spec fn is_set_by_finalizing(setting: Setting) -> bool {
    match setting {
        Setting::Cpu => true,
        Setting::Pid => true,
        Setting::Inherit => true,
        Setting::Disabled => true,
        Setting::ReadTimeEnabled => true,
        Setting::ReadTimeRunning => true,
        Setting::ReadId => true,
        _ => false,
    }
}

/// Finalizing a builder keeps the event that it counts and all else that it does not set, and
/// doing it again changes nothing.
pub proof fn law_finalizing_keeps_the_event(settings: Map<Setting, int>)
    ensures
        forall|s: Setting|
            !is_set_by_finalizing(s) ==> {
                &&& #[trigger] finalized(settings).contains_key(s) <==> settings.contains_key(s)
                &&& finalized(settings)[s] == settings[s]
            },
        finalized(finalized(settings)) == finalized(settings),
{
    assert(finalized(finalized(settings)) =~= finalized(settings));
}

/// A finalized counter watches the calling process and its children on any processor, starts
/// out switched off, and is read with both times and its identity, whatever it was told before.
pub proof fn law_finalized_settings(settings: Map<Setting, int>)
    ensures
        finalized(settings).contains_pair(Setting::Cpu, -1),
        finalized(settings).contains_pair(Setting::Pid, 0),
        finalized(settings).contains_pair(Setting::Inherit, 1),
        finalized(settings).contains_pair(Setting::Disabled, 1),
        finalized(settings).contains_pair(Setting::ReadTimeEnabled, 1),
        finalized(settings).contains_pair(Setting::ReadTimeRunning, 1),
        finalized(settings).contains_pair(Setting::ReadId, 1),
{
}

/// A finalized counter counts what it counted before: its event, its group, what is left out,
/// and how it is sampled are as they were.
pub proof fn law_finalizing_leaves_the_rest(settings: Map<Setting, int>, s: Setting)
    requires
        s != Setting::Cpu,
        s != Setting::Pid,
        s != Setting::Inherit,
        s != Setting::Disabled,
        s != Setting::ReadTimeEnabled,
        s != Setting::ReadTimeRunning,
        s != Setting::ReadId,
    ensures
        finalized(settings).contains_key(s) <==> settings.contains_key(s),
        finalized(settings)[s] == settings[s],
{
}

/// Each default event counts what its name says, and only `kcycles` leaves user space out.
pub proof fn law_default_events_count_what_they_say(i: int)
    requires
        0 <= i < default_events().len(),
    ensures
        default_events().len() == 7,
        ({
            let (name, settings) = default_events()[i];
            let kind = settings[Setting::Kind];
            let config = settings[Setting::Config];
            &&& settings.contains_key(Setting::Kind)
            &&& settings.contains_key(Setting::Config)
            &&& i == 0 ==> name == "cycles"@ && kind == 0 && config == 0
            &&& i == 1 ==> name == "kcycles"@ && kind == 0 && config == 0
            &&& i == 2 ==> name == "instructions"@ && kind == 0 && config == 1
            &&& i == 3 ==> name == "L1-misses"@ && kind == 3 && config == 0x10000
            &&& i == 4 ==> name == "LLC-misses"@ && kind == 0 && config == 3
            &&& i == 5 ==> name == "branch-misses"@ && kind == 0 && config == 5
            &&& i == 6 ==> name == "task-clock"@ && kind == 1 && config == 1
            &&& settings.contains_key(Setting::ExcludeUser) <==> i == 1
            &&& i == 1 ==> settings[Setting::ExcludeUser] == 1
            &&& settings.contains_pair(Setting::Group, -1)
            &&& settings.contains_pair(Setting::Pid, 0)
            &&& settings.contains_pair(Setting::Cpu, -1)
            &&& settings.dom().subset_of(
                set![
                    Setting::Kind,
                    Setting::Config,
                    Setting::Group,
                    Setting::Pid,
                    Setting::Cpu,
                    Setting::ExcludeUser,
                ],
            )
        }),
{
}

/// Two different names never stand for the same default event, nor one name for two.
pub proof fn law_default_events_differ(i: int, j: int)
    requires
        0 <= i < j < default_events().len(),
    ensures
        default_events()[i].0 != default_events()[j].0,
        default_events()[i].1 != default_events()[j].1,
{
    reveal_strlit("cycles");
    reveal_strlit("kcycles");
    reveal_strlit("instructions");
    reveal_strlit("L1-misses");
    reveal_strlit("LLC-misses");
    reveal_strlit("branch-misses");
    reveal_strlit("task-clock");
    law_default_events_count_what_they_say(i);
    law_default_events_count_what_they_say(j);
    let (a, b) = (default_events()[i].0, default_events()[j].0);
    assert(a.len() != b.len() || a[1] != b[1]);
}

/// A cache event is told by its three parts: each can be had back from its number.
pub proof fn law_cache_event_parts(cache: CacheId, op: CacheOpId, end: CacheOpResultId)
    ensures
        cache_config(cache, op, end) % 0x100 == match cache {
            CacheId::L1D => 0int,
            CacheId::L1I => 1,
            CacheId::LL => 2,
            CacheId::DTLB => 3,
            CacheId::ITLB => 4,
            CacheId::BPU => 5,
            CacheId::NODE => 6,
        },
        cache_config(cache, op, end) / 0x100 % 0x100 == match op {
            CacheOpId::Read => 0int,
            CacheOpId::Write => 1,
            CacheOpId::Prefetch => 2,
        },
        cache_config(cache, op, end) / 0x10000 == match end {
            CacheOpResultId::Access => 0int,
            CacheOpResultId::Miss => 1,
        },
{
}

/// Different hardware events have different numbers, and so have different software events.
pub proof fn law_events_are_told_apart(
    a: HardwareEventType,
    b: HardwareEventType,
    c: SoftwareEventType,
    d: SoftwareEventType,
)
    ensures
        hardware_config(a) == hardware_config(b) ==> a == b,
        software_config(c) == software_config(d) ==> c == d,
        0 <= hardware_config(a) < 10,
        0 <= software_config(c) < 9,
{
}

/// Events keep their names and their very builders, in their order.
pub proof fn law_named_builders(events: Seq<(&'static str, Builder)>)
    ensures
        named_builders(events).len() == events.len(),
        event_models(named_builders(events)).len() == events.len(),
        forall|i: int|
            #![trigger events[i]]
            0 <= i < events.len() ==> {
                &&& named_builders(events)[i].0 == events[i].0@
                &&& named_builders(events)[i].1 == events[i].1
                &&& event_names(named_builders(events))[i] == events[i].0@
                &&& event_models(named_builders(events))[i].0 == events[i].0@
                &&& event_models(named_builders(events))[i].1 == builder_settings(events[i].1)
            },
{
}

} // verus!

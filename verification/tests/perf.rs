use perf_event_block::{Builder, Command, CounterDelta, CounterRun, CounterState, Events, HardwareEventType};
use perf_event_block::{Measure, Number, Opening, PerfEvent, Reading, Reply, Stage, TransposedWriter};

/// A counter that gains `speed` with each reading, and fails at some commands.
struct Fake {
    speed: u64,
    reads: u64,
    log: Vec<&'static str>,
    failing: Vec<&'static str>,
}

impl Fake {
    fn new(speed: u64) -> Fake {
        Fake { speed, reads: 0, log: Vec::new(), failing: Vec::new() }
    }

    fn does(&mut self, what: &'static str) -> Result<(), String> {
        self.log.push(what);
        if self.failing.contains(&what) {
            Err(format!("{} {}", what, self.speed))
        } else {
            Ok(())
        }
    }

    fn read(&mut self) -> Result<Reading, String> {
        self.does("read")?;
        self.reads += 1;
        Ok(Reading {
            value: self.speed * self.reads,
            time_enabled: 20 * self.reads,
            time_running: 10 * self.reads,
            id: self.speed,
        })
    }
}

fn told(done: Result<(), String>) -> Reply<String> {
    match done {
        Ok(()) => Reply::Done,
        Err(e) => Reply::Failed(e),
    }
}

/// Carries a run out. The clock gains a microsecond each time it is read.
fn drive(perf: &mut PerfEvent<Fake>, mut run: CounterRun<String>, clock: &mut u128) -> Result<(), String> {
    while let Some(command) = run.command() {
        let reply = match command {
            Command::Clock => {
                *clock += 1000;
                Reply::Time(*clock)
            }
            Command::Reset(i) => told(perf.counter_mut(i).does("reset")),
            Command::Enable(i) => told(perf.counter_mut(i).does("enable")),
            Command::Disable(i) => told(perf.counter_mut(i).does("disable")),
            Command::Read(i) => match perf.counter_mut(i).read() {
                Ok(r) => Reply::Value(r),
                Err(e) => Reply::Failed(e),
            },
        };
        run = perf.step(run, reply);
    }
    run.result()
}

/// Opens a counter for each of the events; the speeds are 100, 200 and so on.
fn open(mut events: Events) -> PerfEvent<Fake> {
    let mut opening = Opening::new();
    while let Some(i) = opening.next(&mut events) {
        opening.opened(&events, Ok(Fake::new(100 * (i as u64 + 1))));
    }
    group(opening, 0, 0)
}

fn group(opening: Opening<Fake, String>, t_start: u128, t_stop: u128) -> PerfEvent<Fake> {
    match opening.finish(t_start, t_stop) {
        Ok(perf) => perf,
        Err(e) => panic!("{}", e),
    }
}

fn two() -> PerfEvent<Fake> {
    let mut perf = group(Opening::new(), 5, 7);
    assert!(perf.register_counter(Ok::<Fake, String>(Fake::new(100)), "a").is_ok());
    assert!(perf.register_counter(Ok::<Fake, String>(Fake::new(200)), "b").is_ok());
    perf
}

fn texts(n: usize) -> Vec<String> {
    let mut res = Vec::new();
    for i in 0..n {
        res.push(format!("{}.00", i));
    }
    res
}

#[test]
fn manual_usage() {
    let mut perf = open(Events::default());
    let mut clock: u128 = 0;
    let run = perf.start_counters();
    drive(&mut perf, run, &mut clock).expect("error starting counters");
    let scale: u64 = 1000 * 1000 * 1000;
    let mut res: u64 = 1;
    let mut i: u64 = 1;
    while i < scale {
        std::hint::black_box(res += i);
        i += 1;
    }
    let run = perf.stop_counters();
    drive(&mut perf, run, &mut clock).expect("error stopping counters");
    assert_eq!(res, 499_999_999_500_000_001);
    assert!(perf.is_in_order());
    assert_eq!(perf.numbers(scale).len(), 10);
    assert_eq!(
        perf.print_columns(scale, true, &texts(10)),
        "cycles, kcycles, instructions, L1-misses, LLC-misses, branch-misses, task-clock,      scale,  IPC, CPUs,  GHz, \n  \
           0.00,    1.00,         2.00,      3.00,       4.00,          5.00,       6.00, 1000000000, 7.00, 8.00, 9.00, \n"
    );
}

#[test]
fn counters_are_started_and_stopped_in_turn() {
    let mut perf = two();
    let mut clock: u128 = 0;
    let run = perf.start_counters();
    assert_eq!(drive(&mut perf, run, &mut clock), Ok(()));
    assert_eq!(perf.counter_mut(0).log, vec!["reset", "enable", "read"]);
    let run = perf.stop_counters();
    assert_eq!(drive(&mut perf, run, &mut clock), Ok(()));
    assert_eq!(perf.counter_mut(1).log, vec!["reset", "enable", "read", "read", "disable"]);
    assert_eq!(perf.duration_us(), 1000);
    assert_eq!(perf.duration(), Measure::Seconds { nanos: 1000 });
    assert_eq!(perf.counter(0), CounterDelta { value: 100, time_enabled: 20, time_running: 10 });
    assert_eq!(perf.try_get("b"), Some(CounterDelta { value: 200, time_enabled: 20, time_running: 10 }));
}

#[test]
fn commands_of_a_start() {
    let perf = two();
    let run: CounterRun<String> = perf.start_counters();
    assert_eq!(run.stage, Stage::Reset(0));
    assert_eq!(run.command(), Some(Command::Reset(0)));
    let empty = group(Opening::new(), 0, 0);
    let run: CounterRun<String> = empty.start_counters();
    assert_eq!(run.command(), Some(Command::Clock));
}

#[test]
fn run_without_counters_takes_the_time() {
    let mut perf = group(Opening::new(), 0, 0);
    let mut clock: u128 = 41;
    let run = perf.start_counters();
    assert_eq!(drive(&mut perf, run, &mut clock), Ok(()));
    let run = perf.stop_counters();
    assert_eq!(drive(&mut perf, run, &mut clock), Ok(()));
    assert_eq!(clock, 2041);
    assert_eq!(perf.duration_us(), 1000);
}

#[test]
fn failed_reset_undoes_the_start() {
    let mut perf = two();
    perf.counter_mut(0).failing.push("reset");
    let mut clock: u128 = 100;
    let run = perf.start_counters();
    assert_eq!(drive(&mut perf, run, &mut clock), Err(String::from("reset 100")));
    // What failed is left alone, and the next counter is tried all the same.
    assert_eq!(perf.counter_mut(0).log, vec!["reset", "read", "disable"]);
    assert_eq!(perf.counter_mut(1).log, vec!["reset", "enable", "read", "read", "disable"]);
    // No time was taken.
    assert_eq!(clock, 100);
    assert_eq!(perf.duration_us(), 2);
}

#[test]
fn failed_enable_and_first_reading() {
    let mut perf = two();
    perf.counter_mut(0).failing.push("enable");
    perf.counter_mut(1).failing.push("read");
    let mut clock: u128 = 0;
    let run = perf.start_counters();
    // The last error is reported; what fails in undoing does not count.
    assert_eq!(drive(&mut perf, run, &mut clock), Err(String::from("read 200")));
    assert_eq!(perf.counter_mut(0).log, vec!["reset", "enable", "read", "disable"]);
    assert_eq!(perf.counter_mut(1).log, vec!["reset", "enable", "read", "read"]);
}

#[test]
fn errors_in_undoing_do_not_count() {
    let mut perf = two();
    perf.counter_mut(0).failing.push("reset");
    perf.counter_mut(1).failing.push("disable");
    let mut clock: u128 = 0;
    let run = perf.start_counters();
    assert_eq!(drive(&mut perf, run, &mut clock), Err(String::from("reset 100")));
}

#[test]
fn failed_stop_goes_on_with_the_others() {
    let mut perf = two();
    let mut clock: u128 = 0;
    let run = perf.start_counters();
    assert_eq!(drive(&mut perf, run, &mut clock), Ok(()));
    perf.counter_mut(0).failing.push("read");
    let run = perf.stop_counters();
    assert_eq!(drive(&mut perf, run, &mut clock), Err(String::from("read 100")));
    // Not read, so not switched off.
    assert_eq!(perf.counter_mut(0).log, vec!["reset", "enable", "read", "read"]);
    assert_eq!(perf.counter_mut(1).log, vec!["reset", "enable", "read", "read", "disable"]);
    assert!(!perf.is_in_order());
    assert!(!perf.is_named_in_order("a"));
    assert!(perf.is_named_in_order("b"));
    assert_eq!(perf.get("b"), Measure::Counter(Some(CounterDelta { value: 200, time_enabled: 20, time_running: 10 })));
}

#[test]
fn last_error_of_a_stop_is_reported() {
    let mut perf = two();
    perf.counter_mut(0).failing.push("disable");
    perf.counter_mut(1).failing.push("disable");
    let mut clock: u128 = 0;
    let run = perf.stop_counters();
    assert_eq!(drive(&mut perf, run, &mut clock), Err(String::from("disable 200")));
}

#[test]
fn fetching_leaves_the_counters_on() {
    let mut perf = two();
    let mut clock: u128 = 0;
    let run = perf.start_counters();
    assert_eq!(drive(&mut perf, run, &mut clock), Ok(()));
    let run = perf.fetch_current_counters();
    assert_eq!(drive(&mut perf, run, &mut clock), Ok(()));
    assert_eq!(perf.counter_mut(0).log, vec!["reset", "enable", "read", "read"]);
    assert_eq!(perf.duration_us(), 1000);
    perf.counter_mut(1).failing.push("read");
    let run = perf.fetch_current_counters();
    assert_eq!(drive(&mut perf, run, &mut clock), Err(String::from("read 200")));
}

#[test]
fn slices_add_up() {
    let mut perf = two();
    let mut clock: u128 = 0;
    let run = perf.start_counters();
    assert_eq!(drive(&mut perf, run, &mut clock), Ok(()));
    let mut seen: u64 = 0;
    let mut time: u128 = 0;
    for _ in 0..3 {
        let run = perf.fetch_current_counters();
        assert_eq!(drive(&mut perf, run, &mut clock), Ok(()));
        seen += perf.counter(1).value;
        time += perf.duration_us();
        perf.advance_counter_start_to_end();
        assert_eq!(perf.counter(1).value, 0);
        assert_eq!(perf.duration_us(), 0);
    }
    assert_eq!(seen, 600);
    assert_eq!(time, 3000);
}

#[test]
fn opening_finishes_at_the_first_failure() {
    let mut events = Events::default();
    let mut opening: Opening<Fake, String> = Opening::new();
    assert_eq!(opening.next(&mut events), Some(0));
    opening.opened(&events, Ok(Fake::new(1)));
    assert_eq!(opening.next(&mut events), Some(1));
    opening.opened(&events, Err(String::from("no access")));
    // Nothing is tried after that.
    assert_eq!(opening.next(&mut events), None);
    match opening.finish(0, 0) {
        Ok(_) => panic!("opened"),
        Err(e) => assert_eq!(e, "no access"),
    }
}

#[test]
fn opening_is_over_when_all_are_open() {
    let mut events = Events::default();
    let mut opening: Opening<Fake, String> = Opening::new();
    for i in 0..7 {
        assert_eq!(opening.next(&mut events), Some(i));
        opening.opened(&events, Ok(Fake::new(1)));
    }
    assert_eq!(opening.next(&mut events), None);
    assert_eq!(group(opening, 0, 0).len(), 7);
}

#[test]
fn opened_counters_have_the_names_of_the_events() {
    let events = Events::default().add("refs", Builder::from_hardware_event(HardwareEventType::CacheReferences));
    let perf = open(events);
    assert_eq!(perf.len(), 8);
    assert!(perf.try_get("refs").is_some());
    assert!(perf.try_get("kcycles").is_some());
    assert_eq!(perf.try_get("unknown"), None);
    assert_eq!(perf.longest_name(), 13);
}

#[test]
fn nothing_to_count_if_opening_failed() {
    let failed: Result<PerfEvent<Fake>, String> = Err(String::from("no access"));
    let (perf, error) = PerfEvent::new_or_empty(failed, 10, 30);
    assert_eq!(error, Some(String::from("no access")));
    assert_eq!(perf.len(), 0);
    assert_eq!(perf.duration_us(), 20);
    let (perf, error) = PerfEvent::new_or_empty(Ok::<PerfEvent<Fake>, String>(two()), 10, 30);
    assert_eq!(error, None);
    assert_eq!(perf.len(), 2);
    assert_eq!(perf.duration_us(), 2);
}

#[test]
fn counter_that_cannot_be_opened_is_not_registered() {
    let mut perf = two();
    let failed: Result<Fake, String> = Err(String::from("busy"));
    assert_eq!(perf.register_counter(failed, "c"), Err(String::from("busy")));
    assert_eq!(perf.len(), 2);
}

#[test]
fn first_counter_of_a_name_counts() {
    let mut perf = two();
    assert!(perf.register_counter(Ok::<Fake, String>(Fake::new(300)), "a").is_ok());
    let mut clock: u128 = 0;
    let run = perf.start_counters();
    assert_eq!(drive(&mut perf, run, &mut clock), Ok(()));
    let run = perf.stop_counters();
    assert_eq!(drive(&mut perf, run, &mut clock), Ok(()));
    assert_eq!(perf.try_get("a").map(|d| d.value), Some(100));
    assert_eq!(perf.counter(2).value, 300);
}

#[test]
fn derived_numbers() {
    let mut perf = open(Events::default());
    let mut clock: u128 = 0;
    let run = perf.start_counters();
    assert_eq!(drive(&mut perf, run, &mut clock), Ok(()));
    let run = perf.stop_counters();
    assert_eq!(drive(&mut perf, run, &mut clock), Ok(()));
    let of = |value: u64| CounterDelta { value, time_enabled: 20, time_running: 10 };
    assert_eq!(perf.ipc(), Measure::Ratio { num: Some(of(300)), den: Some(of(100)) });
    assert_eq!(perf.cpus(), Measure::PerTime { num: Some(of(700)), nanos: 1000 });
    assert_eq!(perf.ghz(), Measure::Ratio { num: Some(of(100)), den: Some(of(700)) });
    let numbers = perf.numbers(50);
    assert_eq!(numbers.len(), 10);
    assert_eq!(numbers[1], Number { measure: Measure::Scaled { delta: of(200), scale: 50 }, decimals: 2 });
    assert_eq!(numbers[7], Number { measure: perf.ipc(), decimals: 2 });
    assert_eq!(numbers[8], Number { measure: perf.cpus(), decimals: 2 });
    assert_eq!(numbers[9], Number { measure: perf.ghz(), decimals: 2 });
}

#[test]
fn derived_numbers_without_their_counters() {
    let perf = two();
    assert_eq!(perf.ipc(), Measure::Ratio { num: None, den: None });
    assert_eq!(perf.cpus(), Measure::PerTime { num: None, nanos: 2 });
    assert_eq!(perf.get("cycles"), Measure::Counter(None));
}

#[test]
fn clock_that_goes_backwards() {
    let perf = group(Opening::new(), 10, 3);
    assert_eq!(perf.duration_us(), 0);
}

#[test]
fn columns_of_a_group() {
    let perf = two();
    assert_eq!(
        perf.print_columns(12, false, &texts(5)),
        "0.00, 1.00,    12, 2.00, 3.00, 4.00, \n"
    );
    assert_eq!(
        perf.print_columns(12, true, &texts(5)),
        "   a,    b, scale,  IPC, CPUs,  GHz, \n0.00, 1.00,    12, 2.00, 3.00, 4.00, \n"
    );
    let mut wr = TransposedWriter { maxlen: 5, output: String::new() };
    perf.write_columns(12, &texts(5), &mut wr);
    assert_eq!(
        wr.output,
        "a     : 0.00\nb     : 1.00\nscale : 12\nIPC   : 2.00\nCPUs  : 3.00\nGHz   : 4.00\n"
    );
}

#[test]
fn reading_of_one_counter() {
    let mut state = CounterState::from(3);
    assert_eq!(state.start, CounterState::<i32>::empty_read_format());
    assert_eq!(state.counter, 3);
    assert_eq!(state.read(), CounterDelta { value: 0, time_enabled: 0, time_running: 0 });
    state.end = Reading { value: 9, time_enabled: 8, time_running: 7, id: 6 };
    assert!(state.is_in_order());
    assert_eq!(state.read(), CounterDelta { value: 9, time_enabled: 8, time_running: 7 });
    state.start = Reading { value: 4, time_enabled: 8, time_running: 8, id: 6 };
    assert!(!state.is_in_order());
}

use perf_event_block::{BenchmarkParameters, Builder, CacheId, CacheOpId, CacheOpResultId, Command, CounterRun};
use perf_event_block::{Events, Measure, Number, Opening, PerfEvent, PerfEventBlock, PrintMode, Reading, Reply, Report};
use perf_event_block::SoftwareEventType;

/// Carries a run out on counters that count how often they were read. The clock gains a
/// millisecond each time it is read.
fn drive(perf: &mut PerfEvent<u64>, mut run: CounterRun<String>, clock: &mut u128) -> Result<(), String> {
    while let Some(command) = run.command() {
        let reply = match command {
            Command::Clock => {
                *clock += 1_000_000;
                Reply::Time(*clock)
            }
            Command::Read(i) => {
                let reads = perf.counter_mut(i);
                *reads += 1;
                Reply::Value(Reading { value: *reads, time_enabled: *reads, time_running: *reads, id: 0 })
            }
            _ => Reply::Done,
        };
        run = perf.step(run, reply);
    }
    run.result()
}

fn open(mut events: Events) -> PerfEvent<u64> {
    let mut opening = Opening::new();
    while let Some(_) = opening.next(&mut events) {
        opening.opened(&events, Ok(0));
    }
    group(opening, 0, 0)
}

fn group(opening: Opening<u64, String>, t_start: u128, t_stop: u128) -> PerfEvent<u64> {
    match opening.finish(t_start, t_stop) {
        Ok(perf) => perf,
        Err(e) => panic!("{}", e),
    }
}

fn small() -> PerfEvent<u64> {
    let mut perf = group(Opening::new(), 1000, 2500);
    assert!(perf.register_counter(Ok::<u64, String>(0), "cycles").is_ok());
    perf
}

fn small_texts() -> Vec<String> {
    vec![
        String::from("0.000002"),
        String::from("7.00"),
        String::from("NaN"),
        String::from("NaN"),
        String::from("NaN"),
    ]
}

fn start(block: &mut PerfEventBlock<u64>, clock: &mut u128) {
    let run = block.instance().start_counters();
    drive(block.instance(), run, clock).expect("Error starting counters");
}

fn stop(block: &mut PerfEventBlock<u64>, clock: &mut u128) {
    let run = block.instance().stop_counters();
    assert!(drive(block.instance(), run, clock).is_ok());
}

fn filled(block: &PerfEventBlock<u64>) -> Vec<String> {
    let mut res = Vec::new();
    for number in block.numbers() {
        res.push(format!("{:.1$}", 1.5f64, number.decimals));
    }
    res
}

#[test]
fn long_computation_with_black_box() {
    let mut clock: u128 = 0;
    let mut block = PerfEventBlock::default_params(1000, open(Events::default()), true);
    start(&mut block, &mut clock);
    block.measure(|p: &mut PerfEventBlock<u64>| {
        let mut res: u64 = 1;
        for i in 1..(1000 * p.scale()) {
            p.black_box(res += i);
        }
        p.param("res", res.to_string());
    });
    stop(&mut block, &mut clock);
    let texts = filled(&block);
    assert_eq!(
        block.print(&texts),
        "\n         res, time_sec, cycles, kcycles, instructions, L1-misses, LLC-misses, branch-misses, task-clock, scale,  IPC, CPUs,  GHz, \
         \n499999500001, 1.500000,   1.50,    1.50,         1.50,      1.50,       1.50,          1.50,       1.50,  1000, 1.50, 1.50, 1.50, \n"
    );
}

#[test]
fn custom_events() {
    let events = Events::default().add_all(vec![
        ("tlb-miss", Builder::from_cache_event(CacheId::DTLB, CacheOpId::Read, CacheOpResultId::Miss)),
        ("page-faults", Builder::from_software_event(SoftwareEventType::PageFaults)),
    ]);
    let mut clock: u128 = 0;
    let mut block = PerfEventBlock::new(1000 * 1000, open(events), BenchmarkParameters::default(), true);
    start(&mut block, &mut clock);
    block.measure(|p: &mut PerfEventBlock<u64>| {
        let mut res: u64 = 1;
        for i in 1..p.scale() {
            p.black_box(res += i);
        }
        p.param("res", res.to_string());
    });
    stop(&mut block, &mut clock);
    let texts = filled(&block);
    let printed = block.print(&texts);
    assert!(printed.starts_with("\n         res, time_sec, cycles, "));
    assert!(printed.contains(", task-clock, tlb-miss, page-faults,   scale,  IPC, "));
    assert!(printed.contains("\n499999500001, 1.500000,   1.50, "));
    assert!(printed.ends_with(", 1000000, 1.50, 1.50, 1.50, \n"));
}

#[test]
fn block_without_a_header() {
    let block = PerfEventBlock::new(3, small(), BenchmarkParameters::default().with("q", "Q1"), false);
    assert_eq!(block.print(&small_texts()), "Q1, 0.000002,   7.00,     3, NaN,  NaN, NaN, \n");
}

#[test]
fn header_only_adds() {
    let params = BenchmarkParameters::default().with("q", "Q1");
    let with = PerfEventBlock::new(3, small(), params.clone(), true).print(&small_texts());
    let without = PerfEventBlock::new(3, small(), params, false).print(&small_texts());
    assert_eq!(with, format!("\n q, time_sec, cycles, scale, IPC, CPUs, GHz, \n{}", without));
}

#[test]
fn transposed_block() {
    let params = BenchmarkParameters::default().with("query", "Q1");
    let block = PerfEventBlock::new(3, small(), params, PrintMode::Transposed);
    // The room is that of the longest name of a parameter or counter.
    assert_eq!(
        block.print(&small_texts()),
        "query  : Q1\ntime_sec: 0.000002\ncycles : 7.00\nscale  : 3\nIPC    : NaN\nCPUs   : NaN\nGHz    : NaN\n\n"
    );
}

#[test]
fn disabled_block_prints_nothing() {
    let mut block = PerfEventBlock::with_defaults(small());
    assert_eq!(block.scale(), 1);
    assert!(block.prints());
    block.disable_print();
    assert!(!block.prints());
    assert_eq!(block.print(&small_texts()), "");
    // No texts are needed then.
    assert_eq!(block.print(&Vec::new()), "");
}

#[test]
fn default_block_has_a_header() {
    let block = PerfEventBlock::with_defaults(small());
    assert_eq!(
        block.print(&small_texts()),
        "\ntime_sec, cycles, scale, IPC, CPUs, GHz, \n0.000002,   7.00,     1, NaN,  NaN, NaN, \n"
    );
}

#[test]
fn parameters_can_be_chained() {
    let mut block = PerfEventBlock::default_params(1, small(), false);
    block.param("b", "1").param("a", "2").params(vec![("b", "3")]);
    block.finalize_with(vec![("c", "4")]);
    assert_eq!(block.print(&small_texts()), "2, 3, 4, 0.000002,   7.00,     1, NaN,  NaN, NaN, \n");
}

#[test]
fn measure_hands_the_result_back() {
    let mut block = PerfEventBlock::with_defaults(small());
    let res = block.measure(|p: &mut PerfEventBlock<u64>| {
        p.disable_print();
        p.black_box(42)
    });
    assert_eq!(res, 42);
    assert_eq!(block.print(&small_texts()), "");
}

#[test]
fn numbers_of_a_block() {
    let mut clock: u128 = 0;
    let mut block = PerfEventBlock::default_params(10, small(), false);
    start(&mut block, &mut clock);
    stop(&mut block, &mut clock);
    let numbers = block.numbers();
    assert_eq!(numbers.len(), 5);
    assert_eq!(numbers[0], Number { measure: Measure::Seconds { nanos: 1_000_000 }, decimals: 6 });
    assert_eq!(numbers[1].decimals, 2);
    if let Measure::Counter(Some(delta)) = block.counter("cycles") {
        assert_eq!(delta.value, 1);
        assert_eq!(numbers[1].measure, Measure::Scaled { delta, scale: 10 });
    } else {
        panic!("no counter");
    }
    assert_eq!(block.counter("unknown"), Measure::Counter(None));
}

#[test]
fn stopped_block_is_printed() {
    let block = PerfEventBlock::new(3, small(), BenchmarkParameters::default(), false);
    assert_eq!(
        block.report(Ok::<(), String>(()), &small_texts()),
        Report::Output(String::from("0.000002,   7.00,     3, NaN,  NaN, NaN, \n"))
    );
}

#[test]
fn block_that_cannot_be_stopped_is_not_printed() {
    let block = PerfEventBlock::with_defaults(small());
    assert_eq!(
        block.report(Err(String::from("gone")), &Vec::new()),
        Report::Error(String::from("Error stopping counters\n"))
    );
}

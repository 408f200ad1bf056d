use perf_event_block::{effective_period, BenchmarkParameterUpdates, BenchmarkParameters, Command, CounterRun};
use perf_event_block::{Opening, PerfEvent, Reading, Reply, Sampler, SamplerReply, SamplerStage};

fn counters() -> PerfEvent<u64> {
    let opening: Opening<u64, String> = Opening::new();
    let mut perf = match opening.finish(0, 0) {
        Ok(perf) => perf,
        Err(e) => panic!("{}", e),
    };
    assert!(perf.register_counter(Ok::<u64, String>(0), "n").is_ok());
    perf
}

/// Carries a run out on counters that gain five with each reading.
fn drive(perf: &mut PerfEvent<u64>, mut run: CounterRun<String>, now: u128) -> Result<(), String> {
    while let Some(command) = run.command() {
        let reply = match command {
            Command::Clock => Reply::Time(now),
            Command::Read(i) => {
                let value = perf.counter_mut(i);
                *value += 5;
                Reply::Value(Reading { value: *value, time_enabled: *value, time_running: *value, id: 0 })
            }
            _ => Reply::Done,
        };
        run = perf.step(run, reply);
    }
    run.result()
}

/// The values of the counters, divided by nothing.
fn texts(sampler: &Sampler<u64>, perf_value: u64) -> Vec<String> {
    assert_eq!(sampler.numbers().len(), 4);
    vec![perf_value.to_string(), String::from("-"), String::from("-"), String::from("-")]
}

/// One slice that ends at `now`, with the updates; hands back what it printed.
fn slice<U: BenchmarkParameterUpdates>(sampler: &mut Sampler<u64>, updates: Vec<U>, now: u128) -> String {
    let mut out = String::new();
    assert_eq!(sampler.stage(), SamplerStage::PollStop);
    sampler.step(SamplerReply::<U>::Stop(false));
    assert_eq!(sampler.stage(), SamplerStage::Sleep);
    sampler.step(SamplerReply::<U>::Slept);
    assert_eq!(sampler.stage(), SamplerStage::Drain);
    sampler.step(SamplerReply::Updates(updates));
    if sampler.stage() == SamplerStage::PrintHeader {
        assert_eq!(sampler.header_numbers().map(|n| n.len()), Some(4));
        let shown = texts(sampler, 0);
        out.push_str(&sampler.header_text(&Some(shown)));
        sampler.step(SamplerReply::<U>::Printed);
    }
    assert_eq!(sampler.stage(), SamplerStage::Clock);
    sampler.step(SamplerReply::<U>::Time(now));
    assert_eq!(sampler.stage(), SamplerStage::Fetch);
    let run = sampler.perf().fetch_current_counters();
    assert!(drive(sampler.perf(), run, now).is_ok());
    sampler.step(SamplerReply::<U>::Fetched(true));
    assert_eq!(sampler.stage(), SamplerStage::PrintRow);
    let gained = sampler.perf().counter(0).value;
    let shown = texts(sampler, gained);
    out.push_str(&sampler.row_text(&shown));
    sampler.step(SamplerReply::<U>::Printed);
    out
}

fn begin(header: bool) -> Sampler<u64> {
    let init = BenchmarkParameters::default().with("phase", "init");
    Sampler::new(counters(), 2, init, header, 1000)
}

#[test]
fn period_has_a_lower_bound() {
    assert_eq!(effective_period(0), 1000);
    assert_eq!(effective_period(999), 1000);
    assert_eq!(effective_period(1000), 1000);
    assert_eq!(effective_period(250_000_000), 250_000_000);
}

#[test]
fn rows_show_slices() {
    let mut sampler = begin(true);
    let none: Vec<BenchmarkParameters> = Vec::new();
    assert_eq!(
        slice(&mut sampler, none.clone(), 3_001_000),
        "phase, slice_us, t_us, n, scale, IPC, CPUs, GHz, \n init,     3000, 3000, 5,     2,   -,    -,   -, \n"
    );
    // Each row shows what was gained since the row before, below the same header.
    assert_eq!(
        slice(&mut sampler, none.clone(), 4_501_999),
        " init,     1500, 4500, 5,     2,   -,    -,   -, \n"
    );
    assert_eq!(
        slice(&mut sampler, none, 4_502_000),
        " init,        0, 4501, 5,     2,   -,    -,   -, \n"
    );
}

#[test]
fn no_header_unless_asked_for() {
    let mut sampler = begin(false);
    let none: Vec<BenchmarkParameters> = Vec::new();
    assert_eq!(
        slice(&mut sampler, none, 2_000),
        " init,        1,    1, 5,     2,   -,    -,   -, \n"
    );
}

#[test]
fn updates_are_applied_before_the_next_row() {
    let mut sampler = begin(true);
    let none: Vec<BenchmarkParameters> = Vec::new();
    slice(&mut sampler, none, 2_000);
    // The same columns: no new header.
    assert_eq!(
        slice(
            &mut sampler,
            vec![
                BenchmarkParameters::default().with("phase", "warmup"),
                BenchmarkParameters::default().with("phase", "run"),
            ],
            3_000
        ),
        "  run,        1,    2, 5,     2,   -,    -,   -, \n"
    );
    // One more column: a new header.
    assert_eq!(
        slice(&mut sampler, vec![BenchmarkParameters::default().with("done", "true")], 4_000),
        "done, phase, slice_us, t_us, n, scale, IPC, CPUs, GHz, \ntrue,   run,        1,    3, 5,     2,   -,    -,   -, \n"
    );
}

#[test]
fn columns_of_the_times_from_the_beginning_need_no_header() {
    let init = BenchmarkParameters::new(vec![("slice_us", "x"), ("t_us", "y")]);
    let mut sampler = Sampler::new(counters(), 1, init, true, 0);
    let none: Vec<BenchmarkParameters> = Vec::new();
    assert_eq!(slice(&mut sampler, none, 7_000), "       7,    7, 5,     1,   -,    -,   -, \n");
}

/// An update that changes the scale, and numbers the phases.
struct Phase {
    number: u64,
    scale: Option<usize>,
}

impl BenchmarkParameterUpdates for Phase {
    fn apply(self, params: &mut BenchmarkParameters) {
        params.set("phase", self.number.to_string());
    }

    fn get_scale(&self) -> Option<usize> {
        self.scale
    }
}

#[test]
fn update_can_change_the_scale() {
    let mut sampler = Sampler::new(counters(), 1, Phase { number: 0, scale: Some(10) }, false, 0);
    let none: Vec<Phase> = Vec::new();
    assert_eq!(slice(&mut sampler, none, 1_000), "    0,        1,    1, 5,    10,   -,    -,   -, \n");
    assert_eq!(
        slice(&mut sampler, vec![Phase { number: 1, scale: Some(20) }, Phase { number: 2, scale: None }], 2_000),
        "    2,        1,    2, 5,    20,   -,    -,   -, \n"
    );
}

#[test]
fn request_to_stop() {
    let mut sampler = begin(true);
    sampler.step(SamplerReply::<BenchmarkParameters>::Stop(true));
    assert_eq!(sampler.stage(), SamplerStage::StopCounters);
    sampler.step(SamplerReply::<BenchmarkParameters>::Stopped);
    assert_eq!(sampler.stage(), SamplerStage::Finished);
}

#[test]
fn failed_reading_ends_the_sampling() {
    let mut sampler = begin(false);
    sampler.step(SamplerReply::<BenchmarkParameters>::Stop(false));
    sampler.step(SamplerReply::<BenchmarkParameters>::Slept);
    sampler.step(SamplerReply::<BenchmarkParameters>::Updates(Vec::new()));
    sampler.step(SamplerReply::<BenchmarkParameters>::Time(5));
    sampler.step(SamplerReply::<BenchmarkParameters>::Fetched(false));
    assert_eq!(sampler.stage(), SamplerStage::StopCounters);
}

#[test]
fn slice_lengths_lose_less_than_a_microsecond_each() {
    let mut sampler = begin(false);
    let none: Vec<BenchmarkParameters> = Vec::new();
    assert_eq!(slice(&mut sampler, none.clone(), 2_600), " init,        1,    1, 5,     2,   -,    -,   -, \n");
    assert_eq!(slice(&mut sampler, none, 4_500), " init,        1,    3, 5,     2,   -,    -,   -, \n");
}

#[test]
fn header_before_the_second_reading_goes_by_the_names() {
    let mut perf = counters();
    let run = perf.start_counters();
    assert!(drive(&mut perf, run, 0).is_ok());
    let init = BenchmarkParameters::default().with("phase", "init");
    let mut sampler = Sampler::new(perf, 2, init, true, 0);
    sampler.step(SamplerReply::<BenchmarkParameters>::Stop(false));
    sampler.step(SamplerReply::<BenchmarkParameters>::Slept);
    sampler.step(SamplerReply::<BenchmarkParameters>::Updates(Vec::new()));
    assert_eq!(sampler.stage(), SamplerStage::PrintHeader);
    assert!(sampler.header_numbers().is_none());
    assert_eq!(sampler.header_text(&None), "phase, slice_us, t_us, n, scale, IPC, CPUs, GHz, \n");
}

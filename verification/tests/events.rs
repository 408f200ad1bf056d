use perf_event_block::{finalize_builder, Builder, CacheId, CacheOpId, CacheOpResultId, Events};
use perf_event_block::{HardwareEventType, SoftwareEventType};

fn names(events: &Events) -> Vec<&'static str> {
    let mut res = Vec::new();
    for (name, _) in events.iter() {
        res.push(*name);
    }
    res
}

#[test]
fn default_events_in_order() {
    let events = Events::default();
    assert_eq!(events.len(), 7);
    assert_eq!(
        names(&events),
        vec!["cycles", "kcycles", "instructions", "L1-misses", "LLC-misses", "branch-misses", "task-clock"]
    );
}

#[test]
fn events_are_added_at_the_end() {
    let events = Events::default()
        .add("refs", Builder::from_hardware_event(HardwareEventType::CacheReferences))
        .add_all(vec![
            ("tlb-miss", Builder::from_cache_event(CacheId::DTLB, CacheOpId::Read, CacheOpResultId::Miss)),
            ("page-faults", Builder::from_software_event(SoftwareEventType::PageFaults)),
        ]);
    assert_eq!(events.len(), 10);
    assert_eq!(events.name(7), "refs");
    assert_eq!(names(&events)[8..], ["tlb-miss", "page-faults"]);
    let mut handed_out = Vec::new();
    for (name, _) in events.into_iter() {
        handed_out.push(name);
    }
    assert_eq!(handed_out.len(), 10);
    assert_eq!(handed_out[0], "cycles");
    assert_eq!(handed_out[9], "page-faults");
}

#[test]
fn event_can_be_changed_in_place() {
    let mut events = Events::default();
    let event = events.get_mut(1);
    event.0 = "renamed";
    finalize_builder(&mut event.1);
    assert_eq!(names(&events)[0..3], ["cycles", "renamed", "instructions"]);
    assert_eq!(events.len(), 7);
}

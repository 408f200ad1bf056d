use perf_event_block::{BenchmarkParameterUpdates, BenchmarkParameters};

/// Header and values of the columns, side by side.
fn shown(params: &BenchmarkParameters) -> (String, String) {
    let mut cols = (String::new(), String::new());
    params.write_columns(&mut cols);
    cols
}

#[test]
fn columns_come_in_the_order_of_their_names() {
    let mut params = BenchmarkParameters::default();
    params.set("query", "Q1");
    params.set("Z", "1");
    params.set("ä", "2");
    params.set("data", "tpch");
    let (hdr, dat) = shown(&params);
    assert_eq!(hdr, "Z, data, query,  ä, ");
    assert_eq!(dat, "1, tpch,    Q1,  2, ");
}

#[test]
fn order_of_setting_does_not_matter() {
    let a = BenchmarkParameters::default().with("x", "1").with("y", "2");
    let b = BenchmarkParameters::default().with("y", "2").with("x", "1");
    assert_eq!(shown(&a), shown(&b));
}

#[test]
fn later_setting_wins() {
    let mut params = BenchmarkParameters::default().with("k", "first");
    params.set(String::from("k"), String::from("second"));
    assert_eq!(params.len(), 1);
    assert_eq!(shown(&params), (String::from("     k, "), String::from("second, ")));
}

#[test]
fn setting_all_is_setting_in_turn() {
    let mut params = BenchmarkParameters::new(vec![("b", "1"), ("a", "2"), ("b", "3")]);
    assert_eq!(params.len(), 2);
    assert_eq!(shown(&params), (String::from("a, b, "), String::from("2, 3, ")));
    params.set_all(vec![("c", String::from("4")), ("a", String::from("5"))]);
    assert_eq!(params.len(), 3);
    assert_eq!(shown(&params), (String::from("a, b, c, "), String::from("5, 3, 4, ")));
}

#[test]
fn setting_in_two_parts_is_setting_all() {
    let all = BenchmarkParameters::new(vec![("a", "1"), ("b", "2"), ("a", "3")]);
    let mut parts = BenchmarkParameters::new(vec![("a", "1"), ("b", "2")]);
    parts.set_all(vec![("a", "3")]);
    assert_eq!(shown(&all), shown(&parts));
}

#[test]
fn no_columns() {
    let params = BenchmarkParameters::default();
    assert_eq!(params.len(), 0);
    assert_eq!(params.longest_name(), 0);
    assert_eq!(shown(&params), (String::new(), String::new()));
}

#[test]
fn longest_name_is_in_bytes() {
    let params = BenchmarkParameters::new(vec![("abc", ""), ("ää", "long value")]);
    assert_eq!(params.longest_name(), 4);
}

#[test]
fn clone_has_the_same_columns() {
    let params = BenchmarkParameters::new(vec![("b", "1"), ("a", "2")]);
    let mut copy = params.clone();
    assert_eq!(shown(&copy), shown(&params));
    copy.set("c", "3");
    assert_eq!(params.len(), 2);
}

#[test]
fn update_merges_and_overwrites() {
    let mut params = BenchmarkParameters::new(vec![("phase", "init"), ("kept", "1")]);
    let update = BenchmarkParameters::default().with("phase", "warmup").with("new", "2");
    assert_eq!(update.get_scale(), None);
    update.clone().apply(&mut params);
    let once = shown(&params);
    assert_eq!(once, (String::from("kept, new,  phase, "), String::from("   1,   2, warmup, ")));
    update.apply(&mut params);
    assert_eq!(shown(&params), once);
}

use perf_event_block::print::IntoPrintMode;
use perf_event_block::{ColumnWriter, PrintMode, TransposedWriter};

#[test]
fn cells_are_as_wide_as_the_longer_of_name_and_value() {
    let mut cols = (String::new(), String::new());
    cols.write_str("query", "Q1");
    cols.write_u64("n", 1000);
    cols.write_str("same", "1234");
    assert_eq!(cols.0, "query,    n, same, ");
    assert_eq!(cols.1, "   Q1, 1000, 1234, ");
}

#[test]
fn width_is_counted_in_bytes() {
    let mut cols = (String::new(), String::new());
    cols.write_str("größe", "1");
    cols.write_str("x", "日本");
    assert_eq!(cols.0, "  größe,      x, ");
    assert_eq!(cols.1, "      1,     日本, ");
    assert_eq!(cols.0.chars().count(), cols.1.chars().count());
}

#[test]
fn empty_name_and_value() {
    let mut cols = (String::new(), String::new());
    cols.write_str("", "");
    assert_eq!(cols, (String::from(", "), String::from(", ")));
}

#[test]
fn one_column_per_line() {
    let mut wr = TransposedWriter { maxlen: 5, output: String::new() };
    wr.write_str("query", "Q1");
    wr.write_u64("n", 42);
    wr.write_str("longer than that", "x");
    assert_eq!(wr.output, "query : Q1\nn     : 42\nlonger than that: x\n");
}

#[test]
fn name_of_the_full_width_gets_no_blank() {
    let mut wr = TransposedWriter { maxlen: 2, output: String::new() };
    wr.write_str("abc", "1");
    wr.write_str("ab", "2");
    assert_eq!(wr.output, "abc: 1\nab : 2\n");
}

#[test]
fn print_modes() {
    assert_eq!(PrintMode::default(), PrintMode::Regular(true));
    assert_eq!(PrintMode::from(false), PrintMode::Regular(false));
    assert_eq!(true.into_print_mode(), PrintMode::Regular(true));
    assert_eq!(PrintMode::Transposed.into_print_mode(), PrintMode::Transposed);
}

/// A writer that only keeps what it was given.
struct Kept(Vec<(String, String)>);

impl ColumnWriter for Kept {
    fn write_str(&mut self, name: &str, val: &str) {
        self.0.push((name.to_string(), val.to_string()));
    }
}

#[test]
fn numbers_are_written_in_decimal() {
    let mut kept = Kept(Vec::new());
    kept.write_u64("scale", 0);
    kept.write_u64("scale", u64::MAX);
    assert_eq!(kept.0[0], (String::from("scale"), String::from("0")));
    assert_eq!(kept.0[1].1, "18446744073709551615");
}

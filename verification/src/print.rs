//! Column writers: side by side under a header, or one column per line.

use vstd::prelude::*;
use vstd::string::*;

use crate::params::Column;
use crate::text::{blanks, byte_len, decimal, left_aligned, missing, right_aligned};
use crate::text::{bytes_in, decimal_text, push_blanks, push_right_aligned};
use crate::text::lemma_chars_within_bytes;

verus! {

/// How a block prints what it measured.
#[derive(Debug, Clone, Copy, PartialEq, Eq, Structural)]
pub enum PrintMode {
    /// Columns side by side; `true` puts a header above them.
    Regular(bool),
    /// One column per line.
    Transposed,
    /// Nothing is printed.
    Disabled,
}

impl Default for PrintMode {
    fn default() -> (res: Self)
        ensures
            res == PrintMode::Regular(true),
    {
        PrintMode::Regular(true)
    }
}

impl From<bool> for PrintMode {
    fn from(value: bool) -> (res: Self) {
        PrintMode::Regular(value)
    }
}

impl vstd::std_specs::convert::FromSpecImpl<bool> for PrintMode {
    open spec fn obeys_from_spec() -> bool {
        true
    }

    open spec fn from_spec(v: bool) -> PrintMode {
        PrintMode::Regular(v)
    }
}

/// What a print mode can be given as: the mode itself, or whether to print a header.
pub trait IntoPrintMode: Sized {
    /// The mode that is meant.
    spec fn print_mode(self) -> PrintMode;

    /// Turns the value into a print mode.
    fn into_print_mode(self) -> (res: PrintMode)
        ensures
            res == self.print_mode(),
    ;
}

impl IntoPrintMode for PrintMode {
    open spec fn print_mode(self) -> PrintMode {
        self
    }

    fn into_print_mode(self) -> (res: PrintMode) {
        self
    }
}

impl IntoPrintMode for bool {
    open spec fn print_mode(self) -> PrintMode {
        PrintMode::Regular(self)
    }

    fn into_print_mode(self) -> (res: PrintMode) {
        PrintMode::from(self)
    }
}

/// Takes columns one after the other.
pub trait ColumnWriter: Sized {
    /// Writing the column `col` may turn the writer `before` into `after`. A writer that says
    /// nothing here promises nothing.
    open spec fn may_write(before: Self, col: Column, after: Self) -> bool {
        true
    }

    /// Writes one column.
    fn write_str(&mut self, name: &str, val: &str)
        ensures
            Self::may_write(*old(self), (name@, val@), *final(self)),
    ;

    /// Writes one column that holds a number.
    fn write_u64(&mut self, name: &str, val: u64)
        ensures
            Self::may_write(*old(self), (name@, decimal(val as nat)), *final(self)),
    {
        let text = decimal_text(val);
        self.write_str(name, text.as_str());
    }
}

/// Writing the columns one after the other may turn the writer `before` into `after`.
pub open spec fn may_write_all<W: ColumnWriter>(before: W, cols: Seq<Column>, after: W) -> bool
    decreases cols.len(),
{
    if cols.len() == 0 {
        before == after
    } else {
        exists|mid: W|
            may_write_all(before, cols.drop_last(), mid) && #[trigger] W::may_write(
                mid,
                cols.last(),
                after,
            )
    }
}

/// Writing some columns and then more writes them all.
pub proof fn lemma_write_more<W: ColumnWriter>(
    before: W,
    cols: Seq<Column>,
    mid: W,
    more: Seq<Column>,
    after: W,
)
    requires
        may_write_all(before, cols, mid),
        may_write_all(mid, more, after),
    ensures
        may_write_all(before, cols + more, after),
    decreases more.len(),
{
    if more.len() == 0 {
        assert(cols + more =~= cols);
    } else {
        let last = choose|last: W|
            may_write_all(mid, more.drop_last(), last) && #[trigger] W::may_write(
                last,
                more.last(),
                after,
            );
        lemma_write_more(before, cols, mid, more.drop_last(), last);
        assert((cols + more).drop_last() =~= cols + more.drop_last());
        assert((cols + more).last() == more.last());
    }
}

/// Writing some columns and then one more writes them all.
pub proof fn lemma_write_one_more<W: ColumnWriter>(
    before: W,
    cols: Seq<Column>,
    mid: W,
    col: Column,
    after: W,
)
    requires
        may_write_all(before, cols, mid),
        W::may_write(mid, col, after),
    ensures
        may_write_all(before, cols.push(col), after),
{
    assert(cols.push(col).drop_last() =~= cols);
    assert(cols.push(col).last() == col);
}

////////////////////////////////////////////////////////////////////////////////
// Side by side

/// The width of a column: the longer of its name and its value, in bytes.
pub open spec fn column_width(col: Column) -> nat {
    if byte_len(col.0) >= byte_len(col.1) {
        byte_len(col.0)
    } else {
        byte_len(col.1)
    }
}

/// What a column adds to the header.
pub open spec fn header_cell(col: Column) -> Seq<char> {
    right_aligned(col.0, column_width(col)) + ", "@
}

/// What a column adds to the line of values.
pub open spec fn data_cell(col: Column) -> Seq<char> {
    right_aligned(col.1, column_width(col)) + ", "@
}

/// The header above the columns.
pub open spec fn header_line(cols: Seq<Column>) -> Seq<char>
    decreases cols.len(),
{
    if cols.len() == 0 {
        Seq::empty()
    } else {
        header_line(cols.drop_last()) + header_cell(cols.last())
    }
}

/// The line of values.
pub open spec fn data_line(cols: Seq<Column>) -> Seq<char>
    decreases cols.len(),
{
    if cols.len() == 0 {
        Seq::empty()
    } else {
        data_line(cols.drop_last()) + data_cell(cols.last())
    }
}

/// A header and the line of values below it.
impl ColumnWriter for (String, String) {
    open spec fn may_write(before: Self, col: Column, after: Self) -> bool {
        &&& after.0@ == before.0@ + header_cell(col)
        &&& after.1@ == before.1@ + data_cell(col)
    }

    fn write_str(&mut self, name: &str, val: &str) {
        let ghost col = (name@, val@);
        let ghost (hdr, dat) = (self.0@, self.1@);
        let n: usize = bytes_in(name);
        let v: usize = bytes_in(val);
        let width: usize = if n >= v {
            n
        } else {
            v
        };
        push_right_aligned(&mut self.0, name, width);
        self.0.append(", ");
        push_right_aligned(&mut self.1, val, width);
        self.1.append(", ");
        assert(self.0@ =~= hdr + header_cell(col));
        assert(self.1@ =~= dat + data_cell(col));
    }
}

/// What was written after the columns is fixed.
pub proof fn lemma_side_by_side(
    before: (String, String),
    cols: Seq<Column>,
    after: (String, String),
)
    requires
        may_write_all(before, cols, after),
    ensures
        after.0@ == before.0@ + header_line(cols),
        after.1@ == before.1@ + data_line(cols),
    decreases cols.len(),
{
    if cols.len() == 0 {
        assert(before.0@ + header_line(cols) =~= before.0@);
        assert(before.1@ + data_line(cols) =~= before.1@);
    } else {
        let mid = choose|mid: (String, String)|
            may_write_all(before, cols.drop_last(), mid) && #[trigger] <(
                String,
                String,
            ) as ColumnWriter>::may_write(mid, cols.last(), after);
        lemma_side_by_side(before, cols.drop_last(), mid);
        assert(after.0@ =~= before.0@ + header_line(cols));
        assert(after.1@ =~= before.1@ + data_line(cols));
    }
}

////////////////////////////////////////////////////////////////////////////////
// One column per line

/// What a column looks like on a line of its own: the name in a field of
/// `maxlen + 1` characters, then its value.
pub open spec fn transposed_line(maxlen: nat, col: Column) -> Seq<char> {
    left_aligned(col.0, maxlen + 1) + ": "@ + col.1 + "\n"@
}

/// The columns below each other.
pub open spec fn transposed_lines(maxlen: nat, cols: Seq<Column>) -> Seq<char>
    decreases cols.len(),
{
    if cols.len() == 0 {
        Seq::empty()
    } else {
        transposed_lines(maxlen, cols.drop_last()) + transposed_line(maxlen, cols.last())
    }
}

/// Writes each column on a line of its own.
pub struct TransposedWriter {
    /// The length of the longest name that the values are to line up behind.
    pub maxlen: usize,
    /// What was written.
    pub output: String,
}

impl ColumnWriter for TransposedWriter {
    open spec fn may_write(before: Self, col: Column, after: Self) -> bool {
        &&& after.maxlen == before.maxlen
        &&& after.output@ == before.output@ + transposed_line(before.maxlen as nat, col)
    }

    fn write_str(&mut self, name: &str, val: &str) {
        let ghost before = self.output@;
        let len: usize = name.unicode_len();
        self.output.append(name);
        if len <= self.maxlen {
            push_blanks(&mut self.output, self.maxlen - len);
            push_blanks(&mut self.output, 1);
        }
        proof {
            let room = missing(name@, (self.maxlen + 1) as nat);
            if len <= self.maxlen {
                assert(blanks((self.maxlen - len) as nat) + blanks(1) =~= blanks(room));
            }
            assert(self.output@ =~= before + left_aligned(name@, (self.maxlen + 1) as nat));
        }
        self.output.append(": ");
        self.output.append(val);
        self.output.append("\n");
        assert(self.output@ =~= before + transposed_line(self.maxlen as nat, (name@, val@)));
    }
}

/// What was written after the columns is fixed.
pub proof fn lemma_transposed(before: TransposedWriter, cols: Seq<Column>, after: TransposedWriter)
    requires
        may_write_all(before, cols, after),
    ensures
        after.maxlen == before.maxlen,
        after.output@ == before.output@ + transposed_lines(before.maxlen as nat, cols),
    decreases cols.len(),
{
    if cols.len() == 0 {
        assert(before.output@ + transposed_lines(before.maxlen as nat, cols) =~= before.output@);
    } else {
        let mid = choose|mid: TransposedWriter|
            may_write_all(before, cols.drop_last(), mid) && #[trigger] TransposedWriter::may_write(
                mid,
                cols.last(),
                after,
            );
        lemma_transposed(before, cols.drop_last(), mid);
        assert(after.output@ =~= before.output@ + transposed_lines(before.maxlen as nat, cols));
    }
}

////////////////////////////////////////////////////////////////////////////////
// Laws

/// In the header and in the line of values a column takes the same room: its width, a
/// comma and a blank.
pub proof fn law_cells_take_the_same_room(col: Column)
    ensures
        header_cell(col).len() == column_width(col) + 2,
        data_cell(col).len() == column_width(col) + 2,
{
    lemma_chars_within_bytes(col.0);
    lemma_chars_within_bytes(col.1);
    reveal_strlit(", ");
}

/// Columns line up: what comes before column `k` is as long in the header as in the line
/// of values, and so are the two lines.
pub proof fn law_columns_line_up(cols: Seq<Column>, k: int)
    requires
        0 <= k <= cols.len(),
    ensures
        header_line(cols).len() == data_line(cols).len(),
        header_line(cols.take(k)).len() == data_line(cols.take(k)).len(),
        header_line(cols.take(k)).is_prefix_of(header_line(cols)),
        data_line(cols.take(k)).is_prefix_of(data_line(cols)),
    decreases cols.len(),
{
    if cols.len() > 0 {
        law_cells_take_the_same_room(cols.last());
        let head = cols.drop_last();
        if k < cols.len() {
            law_columns_line_up(head, k);
            assert(cols.take(k) =~= head.take(k));
        } else {
            law_columns_line_up(head, head.len() as int);
            assert(cols.take(k) =~= cols);
        }
    }
    if k == cols.len() {
        assert(cols.take(k) =~= cols);
    }
}

/// Values line up behind names that are not too long: the name takes `maxlen + 1`
/// characters, and the value stands behind a colon and a blank.
pub proof fn law_transposed_values_line_up(maxlen: nat, col: Column)
    requires
        byte_len(col.0) <= maxlen,
    ensures
        transposed_line(maxlen, col).take(maxlen as int + 1) == left_aligned(col.0, maxlen + 1),
        transposed_line(maxlen, col).skip(maxlen as int + 1) == ": "@ + col.1 + "\n"@,
{
    lemma_chars_within_bytes(col.0);
    assert(left_aligned(col.0, maxlen + 1).len() == maxlen + 1);
    assert(transposed_line(maxlen, col).take(maxlen as int + 1) =~= left_aligned(
        col.0,
        maxlen + 1,
    ));
    assert(transposed_line(maxlen, col).skip(maxlen as int + 1) =~= ": "@ + col.1 + "\n"@);
}

/// A print mode is taken as it is given; a mere yes or no asks for columns side by side, with
/// or without a header.
pub proof fn law_print_mode_that_is_meant(mode: PrintMode, header: bool)
    ensures
        mode.print_mode() == mode,
        header.print_mode() == PrintMode::Regular(header),
{
}

/// The width of a column is the number of bytes of its name or of its value, whichever is more.
pub proof fn law_column_width(col: Column)
    ensures
        column_width(col) >= byte_len(col.0),
        column_width(col) >= byte_len(col.1),
        column_width(col) == byte_len(col.0) || column_width(col) == byte_len(col.1),
{
}

/// A cell holds blanks, then the name or the value as it is, then a comma and a blank.
pub proof fn law_cells_hold_name_and_value(col: Column)
    ensures
        (col.0 + ", "@).is_suffix_of(header_cell(col)),
        (col.1 + ", "@).is_suffix_of(data_cell(col)),
        forall|i: int|
            0 <= i < header_cell(col).len() - col.0.len() - 2 ==> #[trigger] header_cell(col)[i]
                == ' ',
        forall|i: int|
            0 <= i < data_cell(col).len() - col.1.len() - 2 ==> #[trigger] data_cell(col)[i]
                == ' ',
{
    reveal_strlit(", ");
    let (h, d) = (header_cell(col), data_cell(col));
    let (x, y) = (col.0 + ", "@, col.1 + ", "@);
    assert(h.subrange(h.len() - x.len(), h.len() as int) =~= x);
    assert(d.subrange(d.len() - y.len(), d.len() as int) =~= y);
}

/// Both lines are made of one cell per column, in the order of the columns.
pub proof fn law_lines_are_made_of_cells(cols: Seq<Column>, k: int)
    requires
        0 <= k < cols.len(),
    ensures
        header_line(Seq::empty()) == Seq::<char>::empty(),
        data_line(Seq::empty()) == Seq::<char>::empty(),
        header_line(cols.take(k + 1)) == header_line(cols.take(k)) + header_cell(cols[k]),
        data_line(cols.take(k + 1)) == data_line(cols.take(k)) + data_cell(cols[k]),
{
    assert(cols.take(k + 1).drop_last() =~= cols.take(k));
    assert(cols.take(k + 1).last() == cols[k]);
}

/// Columns below each other take one line each, in their order: the name, blanks, a colon and
/// a blank, and the value as it is.
pub proof fn law_lines_below_each_other(maxlen: nat, cols: Seq<Column>, k: int)
    requires
        0 <= k < cols.len(),
    ensures
        transposed_lines(maxlen, Seq::empty()) == Seq::<char>::empty(),
        transposed_lines(maxlen, cols.take(k + 1)) == transposed_lines(maxlen, cols.take(k))
            + transposed_line(maxlen, cols[k]),
        cols[k].0.is_prefix_of(transposed_line(maxlen, cols[k])),
        (": "@ + cols[k].1 + "\n"@).is_suffix_of(transposed_line(maxlen, cols[k])),
        forall|i: int|
            cols[k].0.len() <= i < transposed_line(maxlen, cols[k]).len() - cols[k].1.len() - 3
                ==> #[trigger] transposed_line(maxlen, cols[k])[i] == ' ',
        transposed_line(maxlen, cols[k]).len() == cols[k].1.len() + 3 + if cols[k].0.len()
            <= maxlen {
            maxlen + 1
        } else {
            cols[k].0.len()
        },
{
    reveal_strlit(": ");
    reveal_strlit("\n");
    assert(cols.take(k + 1).drop_last() =~= cols.take(k));
    assert(cols.take(k + 1).last() == cols[k]);
    let line = transposed_line(maxlen, cols[k]);
    let tail = ": "@ + cols[k].1 + "\n"@;
    assert(line.subrange(0, cols[k].0.len() as int) =~= cols[k].0);
    assert(line.subrange(line.len() - tail.len(), line.len() as int) =~= tail);
}

/// What the two writers leave behind a column: all that was there, and then what the column
/// adds to each line.
pub proof fn law_writers_only_append(
    before: (String, String),
    after: (String, String),
    low: TransposedWriter,
    lower: TransposedWriter,
    col: Column,
)
    requires
        <(String, String) as ColumnWriter>::may_write(before, col, after),
        TransposedWriter::may_write(low, col, lower),
    ensures
        before.0@.is_prefix_of(after.0@),
        before.1@.is_prefix_of(after.1@),
        after.0@.skip(before.0@.len() as int) == header_cell(col),
        after.1@.skip(before.1@.len() as int) == data_cell(col),
        lower.maxlen == low.maxlen,
        low.output@.is_prefix_of(lower.output@),
        lower.output@.skip(low.output@.len() as int) == transposed_line(low.maxlen as nat, col),
{
    assert(after.0@.subrange(0, before.0@.len() as int) =~= before.0@);
    assert(after.1@.subrange(0, before.1@.len() as int) =~= before.1@);
    assert(after.0@.skip(before.0@.len() as int) =~= header_cell(col));
    assert(after.1@.skip(before.1@.len() as int) =~= data_cell(col));
    assert(lower.output@.subrange(0, low.output@.len() as int) =~= low.output@);
    assert(lower.output@.skip(low.output@.len() as int) =~= transposed_line(
        low.maxlen as nat,
        col,
    ));
}

} // verus!

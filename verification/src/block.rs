//! Measured blocks: a counter group together with the scale, the parameters and the
//! way in which all of it is printed.

use vstd::prelude::*;
use vstd::string::*;

use crate::counter::{Measure, Number};
use crate::params::{column_map, law_listed_value, law_listing, listing, pair_texts};
use crate::params::{set_in_turn, BenchmarkParameters, Column};
use crate::perf::{all_in_order, counter_names, elapsed, gained_by, named_in_order};
use crate::perf::{perf_columns, perf_numbers, text_views, PerfEvent, PerfModel};
use crate::print::{data_line, header_line, law_columns_line_up, lemma_side_by_side};
use crate::print::lemma_transposed;
use crate::print::{lemma_write_more, lemma_write_one_more, may_write_all, transposed_lines};
use crate::print::{ColumnWriter, IntoPrintMode, PrintMode, TransposedWriter};
use crate::text::{byte_len, decimal, law_longest, lemma_longest, lemma_longest_of_both};
use crate::text::{longest, IntoText};

verus! {

/// `std::hint::black_box`: hands its argument back.
pub assume_specification<T>[ std::hint::black_box::<T> ](dummy: T) -> (res: T)
    ensures
        res == dummy,
;

/// What a block holds.
#[verifier::ext_equal]
pub struct BlockModel<C> {
    /// The counters.
    pub inner: PerfModel<C>,
    /// What each counter is divided by.
    pub scale: u64,
    /// The additional columns.
    pub params: Map<Seq<char>, Seq<char>>,
    /// How it is printed.
    pub print_mode: PrintMode,
}

/// The numbers that are printed of a block: the time, then those of the counters.
pub open spec fn block_numbers<C>(block: BlockModel<C>) -> Seq<Number> {
    seq![
        Number { measure: Measure::Seconds { nanos: elapsed(block.inner) }, decimals: 6 },
    ] + perf_numbers(block.inner, block.scale)
}

/// The columns of a block, with the texts of their numbers: the parameters, the time,
/// and those of the counters.
pub open spec fn block_columns<C>(block: BlockModel<C>, texts: Seq<Seq<char>>) -> Seq<Column> {
    listing(block.params).push(("time_sec"@, texts[0])) + perf_columns(
        block.inner,
        block.scale,
        texts.skip(1),
    )
}

/// The length that the names of parameters and counters fit in.
pub open spec fn name_room<C>(block: BlockModel<C>) -> nat {
    longest(
        listing(block.params).map_values(|c: Column| c.0) + counter_names(block.inner.counters),
    )
}

/// What is printed of a block.
pub open spec fn printed<C>(block: BlockModel<C>, texts: Seq<Seq<char>>) -> Seq<char> {
    let cols = block_columns(block, texts);
    match block.print_mode {
        PrintMode::Regular(true) => "\n"@ + header_line(cols) + "\n"@ + data_line(cols) + "\n"@,
        PrintMode::Regular(false) => data_line(cols) + "\n"@,
        PrintMode::Transposed => transposed_lines(name_room(block), cols) + "\n"@,
        PrintMode::Disabled => Seq::empty(),
    }
}

/// So many texts are enough to print the block: one for each number, unless nothing is printed.
pub open spec fn has_texts<C>(block: BlockModel<C>, texts: nat) -> bool {
    block.print_mode != PrintMode::Disabled ==> texts == block.inner.counters.len() + 4
}

/// What is reported of a block when it ends.
#[derive(Debug, PartialEq, Eq)]
pub enum Report {
    /// The text for the standard output.
    Output(String),
    /// The text for the standard error.
    Error(String),
}

/// A measured block of code.
pub struct PerfEventBlock<C> {
    inner: PerfEvent<C>,
    scale: u64,
    params: BenchmarkParameters,
    print_mode: PrintMode,
}

impl<C> View for PerfEventBlock<C> {
    type V = BlockModel<C>;

    closed spec fn view(&self) -> BlockModel<C> {
        BlockModel {
            inner: self.inner@,
            scale: self.scale,
            params: self.params@,
            print_mode: self.print_mode,
        }
    }
}

impl<C> PerfEventBlock<C> {
    /// A block with custom counters, output columns, and scale.
    pub fn new<M: IntoPrintMode>(
        scale: u64,
        inner: PerfEvent<C>,
        params: BenchmarkParameters,
        print_mode: M,
    ) -> (res: Self)
        ensures
            res@ == (BlockModel {
                inner: inner@,
                scale,
                params: params@,
                print_mode: print_mode.print_mode(),
            }),
    {
        PerfEventBlock { inner, scale, params, print_mode: print_mode.into_print_mode() }
    }

    /// A block with custom counters and scale, and no additional columns.
    pub fn default_params<M: IntoPrintMode>(scale: u64, inner: PerfEvent<C>, print_mode: M) -> (res:
        Self)
        ensures
            res@ == (BlockModel {
                inner: inner@,
                scale,
                params: Map::empty(),
                print_mode: print_mode.print_mode(),
            }),
    {
        Self::new(scale, inner, BenchmarkParameters::default(), print_mode)
    }

    /// A block with scale 1, no additional columns, and a header.
    pub fn with_defaults(inner: PerfEvent<C>) -> (res: Self)
        ensures
            res@ == (BlockModel {
                inner: inner@,
                scale: 1,
                params: Map::empty(),
                print_mode: PrintMode::Regular(true),
            }),
    {
        Self::new(1, inner, BenchmarkParameters::default(), PrintMode::default())
    }

    /// Sets a param (output column) on this instance. Useful for adding columns after
    /// the block has been started already.
    pub fn param<K: IntoText, V: IntoText>(&mut self, k: K, v: V) -> (res: &mut Self)
        ensures
            res@ == (BlockModel {
                params: old(self)@.params.insert(k.text(), v.text()),
                ..old(self)@
            }),
            *final(self) == *final(res),
    {
        self.params.set(k, v);
        self
    }

    /// Sets multiple parameters.
    pub fn params<K: IntoText, V: IntoText>(&mut self, params: Vec<(K, V)>) -> (res: &mut Self)
        ensures
            res@ == (BlockModel {
                params: set_in_turn(old(self)@.params, pair_texts(params@)),
                ..old(self)@
            }),
            *final(self) == *final(res),
    {
        self.params.set_all(params);
        self
    }

    /// Sets some final parameters (measured externally).
    pub fn finalize_with<K: IntoText, V: IntoText>(&mut self, params: Vec<(K, V)>)
        ensures
            final(self)@ == (BlockModel {
                params: set_in_turn(old(self)@.params, pair_texts(params@)),
                ..old(self)@
            }),
    {
        self.params(params);
    }

    /// The counters of the block.
    pub fn instance(&mut self) -> (res: &mut PerfEvent<C>)
        ensures
            res@ == old(self)@.inner,
            final(self)@ == (BlockModel { inner: final(res)@, ..old(self)@ }),
    {
        &mut self.inner
    }

    /// The counter with the given name, or no number if the name is unknown. Note that
    /// this is only of use after the counters have been stopped.
    pub fn counter(&self, name: &str) -> (res: Measure)
        requires
            named_in_order(self@.inner.counters, name@),
        ensures
            res == Measure::Counter(gained_by(self@.inner.counters, name@)),
    {
        self.inner.get(name)
    }

    /// The configured scale.
    pub fn scale(&self) -> (res: u64)
        ensures
            res == self@.scale,
    {
        self.scale
    }

    /// Convenience function for measuring the content of the passed lambda: the lambda gets the
    /// block, and what it returns is handed back.
    pub fn measure<T, F: FnOnce(&mut Self) -> T>(&mut self, comp: F) -> (res: T)
        requires
            forall|block: &mut Self| *block == *old(self) ==> call_requires(comp, (block,)),
        ensures
            exists|block: &mut Self|
                *block == *old(self) && *final(block) == *final(self) && #[trigger] call_ensures(
                    comp,
                    (block,),
                    res,
                ),
    {
        comp(self)
    }

    /// Nothing is to be printed.
    pub fn disable_print(&mut self)
        ensures
            final(self)@ == (BlockModel { print_mode: PrintMode::Disabled, ..old(self)@ }),
    {
        self.print_mode = PrintMode::Disabled;
    }

    /// Whether anything is to be printed.
    pub fn prints(&self) -> (res: bool)
        ensures
            res == (self@.print_mode != PrintMode::Disabled),
    {
        match self.print_mode {
            PrintMode::Disabled => false,
            _ => true,
        }
    }

    /// Convenience access to `std::hint::black_box`.
    pub fn black_box<T>(&self, dummy: T) -> (res: T)
        ensures
            res == dummy,
    {
        std::hint::black_box(dummy)
    }

    /// Whether every counter has run forwards only.
    pub fn is_in_order(&self) -> (res: bool)
        ensures
            res == all_in_order(self@.inner.counters),
    {
        self.inner.is_in_order()
    }

    /// Whether the counter of the name has run forwards only, if there is one.
    pub fn is_named_in_order(&self, name: &str) -> (res: bool)
        ensures
            res == named_in_order(self@.inner.counters, name@),
    {
        self.inner.is_named_in_order(name)
    }

    /// The numbers that [`Self::print`] needs the texts of.
    pub fn numbers(&self) -> (res: Vec<Number>)
        requires
            all_in_order(self@.inner.counters),
        ensures
            res@ == block_numbers(self@),
    {
        let mut res: Vec<Number> = Vec::new();
        res.push(Number { measure: self.inner.duration(), decimals: 6 });
        let mut more = self.inner.numbers(self.scale);
        res.append(&mut more);
        assert(res@ =~= block_numbers(self@));
        res
    }

    /// Writes all columns. `texts` holds the numbers as they are to be printed.
    fn write_columns<W: ColumnWriter>(&self, texts: &Vec<String>, cols: &mut W)
        requires
            texts@.len() == self@.inner.counters.len() + 4,
        ensures
            may_write_all(*old(cols), block_columns(self@, text_views(texts@)), *final(cols)),
            self@.params.dom().finite(),
    {
        let ghost w0 = *cols;
        self.params.write_columns(cols);
        let ghost w1 = *cols;
        cols.write_str("time_sec", texts[0].as_str());
        let ghost w2 = *cols;
        let rest = vstd::slice::slice_subrange(texts.as_slice(), 1, texts.len());
        self.inner.write_columns(self.scale, rest, cols);
        proof {
            let names = listing(self@.params);
            let time = ("time_sec"@, text_views(texts@)[0]);
            lemma_write_one_more(w0, names, w1, time, w2);
            assert(text_views(rest@) =~= text_views(texts@).skip(1));
            lemma_write_more(
                w0,
                names.push(time),
                w2,
                perf_columns(self@.inner, self@.scale, text_views(rest@)),
                *cols,
            );
        }
    }

    /// The block as it is printed. `texts` holds the numbers as they are to be printed.
    pub fn print(&self, texts: &Vec<String>) -> (res: String)
        requires
            has_texts(self@, texts@.len()),
        ensures
            res@ == printed(self@, text_views(texts@)),
            self@.params.dom().finite(),
    {
        let ghost all = block_columns(self@, text_views(texts@));
        let mut res = String::new();
        match self.print_mode {
            PrintMode::Regular(header) => {
                let mut cols = (String::new(), String::new());
                let ghost fresh = cols;
                self.write_columns(texts, &mut cols);
                proof {
                    lemma_side_by_side(fresh, all, cols);
                    assert(fresh.0@ + header_line(all) =~= header_line(all));
                    assert(fresh.1@ + data_line(all) =~= data_line(all));
                }
                let (hdr, dat) = cols;
                if header {
                    res.append("\n");
                    res.append(hdr.as_str());
                    res.append("\n");
                }
                res.append(dat.as_str());
                res.append("\n");
                assert(res@ =~= printed(self@, text_views(texts@)));
            },
            PrintMode::Transposed => {
                let names: usize = self.params.longest_name();
                let counters: usize = self.inner.longest_name();
                let maxlen: usize = if names < counters {
                    counters
                } else {
                    names
                };
                proof {
                    lemma_longest_of_both(
                        listing(self@.params).map_values(|c: Column| c.0),
                        counter_names(self@.inner.counters),
                    );
                }
                let mut wr = TransposedWriter { maxlen, output: String::new() };
                let ghost fresh = wr;
                self.write_columns(texts, &mut wr);
                proof {
                    lemma_transposed(fresh, all, wr);
                    assert(fresh.output@ + transposed_lines(maxlen as nat, all)
                        =~= transposed_lines(maxlen as nat, all));
                }
                res.append(wr.output.as_str());
                res.append("\n");
                assert(res@ =~= printed(self@, text_views(texts@)));
            },
            PrintMode::Disabled => {
                // Nothing is listed, but there are only so many columns here as well.
                let _count: usize = self.params.len();
            },
        }
        res
    }

    /// What is reported when the block ends, given how stopping its counters went: the block as
    /// it is printed, or that they could not be stopped. `texts` holds the numbers as they are
    /// to be printed; it only matters if the counters were stopped.
    pub fn report<E>(&self, stopped: Result<(), E>, texts: &Vec<String>) -> (res: Report)
        requires
            stopped is Ok ==> has_texts(self@, texts@.len()),
        ensures
            stopped is Ok ==> (res matches Report::Output(text) && text@ == printed(
                self@,
                text_views(texts@),
            )),
            stopped is Err ==> (res matches Report::Error(text) && text@
                == "Error stopping counters\n"@),
            stopped is Ok ==> self@.params.dom().finite(),
    {
        match stopped {
            Ok(_) => Report::Output(self.print(texts)),
            Err(_) => Report::Error("Error stopping counters\n".to_owned()),
        }
    }
}

////////////////////////////////////////////////////////////////////////////////
// Laws

/// A parameter that was set is printed as a column.
pub proof fn law_param_is_printed<C>(
    block: BlockModel<C>,
    k: Seq<char>,
    v: Seq<char>,
    texts: Seq<Seq<char>>,
)
    requires
        block.params.dom().finite(),
    ensures
        exists|i: int|
            0 <= i < listing(block.params.insert(k, v)).len() && #[trigger] block_columns(
                BlockModel { params: block.params.insert(k, v), ..block },
                texts,
            )[i] == (k, v),
{
    let params = block.params.insert(k, v);
    law_listing(params);
    let cols = listing(params);
    assert(column_map(cols).contains_key(k));
    let i = choose|i: int| 0 <= i < cols.len() && #[trigger] cols[i].0 == k;
    assert(column_map(cols)[k] == v);
    assert(cols[i] == (k, v)) by {
        law_listed_value(params, i);
    }
    assert(block_columns(BlockModel { params, ..block }, texts)[i] == cols[i]);
}

/// There is one text to be printed for each number.
pub proof fn law_one_text_per_number<C>(block: BlockModel<C>)
    ensures
        block_numbers(block).len() == block.inner.counters.len() + 4,
        perf_numbers(block.inner, block.scale).len() == block.inner.counters.len() + 3,
{
}

/// Whether there is a header makes no difference to what is printed below it.
pub proof fn law_header_only_adds<C>(block: BlockModel<C>, texts: Seq<Seq<char>>)
    ensures
        printed(BlockModel { print_mode: PrintMode::Regular(true), ..block }, texts) == "\n"@
            + header_line(block_columns(block, texts)) + "\n"@ + printed(
            BlockModel { print_mode: PrintMode::Regular(false), ..block },
            texts,
        ),
{
    let cols = block_columns(block, texts);
    assert("\n"@ + header_line(cols) + "\n"@ + data_line(cols) + "\n"@ =~= "\n"@ + header_line(cols)
        + "\n"@ + (data_line(cols) + "\n"@));
}

/// When printing is disabled, nothing is printed.
pub proof fn law_disabled_prints_nothing<C>(block: BlockModel<C>, texts: Seq<Seq<char>>)
    ensures
        printed(BlockModel { print_mode: PrintMode::Disabled, ..block }, texts) == Seq::<
            char,
        >::empty(),
{
}

/// One column per line: the names of all parameters and counters fit the room that is left
/// for names.
pub proof fn law_names_fit<C>(block: BlockModel<C>)
    ensures
        forall|i: int|
            #![trigger listing(block.params)[i]]
            0 <= i < listing(block.params).len() ==> byte_len(listing(block.params)[i].0)
                <= name_room(block),
        forall|i: int|
            #![trigger block.inner.counters[i]]
            0 <= i < block.inner.counters.len() ==> byte_len(block.inner.counters[i].0)
                <= name_room(block),
{
    let params = listing(block.params).map_values(|c: Column| c.0);
    let counters = counter_names(block.inner.counters);
    let all = params + counters;
    assert forall|i: int|
        #![trigger listing(block.params)[i]]
        0 <= i < listing(block.params).len() implies byte_len(listing(block.params)[i].0)
        <= name_room(block) by {
        assert(all[i] == listing(block.params)[i].0);
        lemma_longest(all, i);
    }
    assert forall|i: int|
        #![trigger block.inner.counters[i]]
        0 <= i < block.inner.counters.len() implies byte_len(block.inner.counters[i].0)
        <= name_room(block) by {
        assert(all[params.len() + i] == block.inner.counters[i].0);
        lemma_longest(all, params.len() + i);
    }
}

/// The first number of a block is its time in seconds, to six decimals, and leads from the start
/// to the stop; the others are those of its counters under its scale.
pub proof fn law_numbers_of_a_block<C>(block: BlockModel<C>, i: int)
    requires
        0 <= i < block.inner.counters.len() + 3,
    ensures
        block_numbers(block)[0].decimals == 6,
        block_numbers(block)[0].measure matches Measure::Seconds { nanos } && {
            &&& block.inner.t_start <= block.inner.t_stop ==> block.inner.t_start + nanos
                == block.inner.t_stop
            &&& block.inner.t_start > block.inner.t_stop ==> nanos == 0
        },
        block_numbers(block)[i + 1] == perf_numbers(block.inner, block.scale)[i],
{
}

/// The columns of a block: first the parameters, then the time with the first text, then those
/// of the counters with the other texts.
pub proof fn law_columns_of_a_block<C>(block: BlockModel<C>, texts: Seq<Seq<char>>, i: int)
    requires
        texts.len() == block.inner.counters.len() + 4,
        0 <= i < listing(block.params).len() + block.inner.counters.len() + 5,
    ensures
        ({
            let p = listing(block.params).len() as int;
            let n = block.inner.counters.len() as int;
            let (name, value) = block_columns(block, texts)[i];
            &&& block_columns(block, texts).len() == p + n + 5
            &&& i < p ==> (name, value) == listing(block.params)[i]
            &&& i == p ==> name == "time_sec"@ && value == texts[0]
            &&& p < i <= p + n ==> name == block.inner.counters[i - p - 1].0 && value == texts[i
                - p]
            &&& i == p + n + 1 ==> name == "scale"@ && value == decimal(block.scale as nat)
            &&& i == p + n + 2 ==> name == "IPC"@ && value == texts[n + 1]
            &&& i == p + n + 3 ==> name == "CPUs"@ && value == texts[n + 2]
            &&& i == p + n + 4 ==> name == "GHz"@ && value == texts[n + 3]
        }),
{
}

/// Side by side, a block is printed as its values on one line of their own; a header puts an
/// empty line and a line that is as long above them.
pub proof fn law_lines_of_a_block<C>(block: BlockModel<C>, texts: Seq<Seq<char>>, header: bool)
    requires
        block.print_mode == PrintMode::Regular(header),
    ensures
        ({
            let cols = block_columns(block, texts);
            let (h, d) = (header_line(cols), data_line(cols));
            let text = printed(block, texts);
            &&& h.len() == d.len()
            &&& !header ==> text == d + "\n"@
            &&& header ==> text == "\n"@ + h + "\n"@ + d + "\n"@
        }),
{
    let cols = block_columns(block, texts);
    law_columns_line_up(cols, 0);
}

/// Below each other, a block is printed as a line per column and an empty line. The names get
/// the room of the longest name of a parameter or counter, and no more.
pub proof fn law_transposed_block<C>(block: BlockModel<C>, texts: Seq<Seq<char>>)
    requires
        block.print_mode == PrintMode::Transposed,
    ensures
        printed(block, texts) == transposed_lines(name_room(block), block_columns(block, texts))
            + "\n"@,
        listing(block.params).len() + block.inner.counters.len() == 0 ==> name_room(block) == 0,
        listing(block.params).len() + block.inner.counters.len() > 0 ==> (exists|i: int|
            0 <= i < listing(block.params).len() && byte_len(
                (#[trigger] listing(block.params)[i]).0,
            ) == name_room(block)) || (exists|i: int|
            0 <= i < block.inner.counters.len() && byte_len(
                (#[trigger] block.inner.counters[i]).0,
            ) == name_room(block)),
{
    let params = listing(block.params).map_values(|c: Column| c.0);
    let counters = counter_names(block.inner.counters);
    let all = params + counters;
    law_longest(all);
    if all.len() > 0 {
        let i = choose|i: int| 0 <= i < all.len() && byte_len(#[trigger] all[i]) == longest(all);
        if i < params.len() {
            assert(all[i] == listing(block.params)[i].0);
        } else {
            assert(all[i] == block.inner.counters[i - params.len()].0);
        }
    }
}

/// Texts are needed for every number of a block that is printed, and for none of a block that
/// is not.
pub proof fn law_texts_that_are_needed<C>(block: BlockModel<C>, texts: nat)
    ensures
        block.print_mode == PrintMode::Disabled ==> has_texts(block, texts),
        block.print_mode != PrintMode::Disabled ==> (has_texts(block, texts) <==> texts
            == block_numbers(block).len()),
{
}

} // verus!

//! Benchmark parameters: free-form columns that are printed next to the counters.

use vstd::prelude::*;
use vstd::string::*;

use crate::print::{lemma_write_one_more, may_write_all, ColumnWriter};
use crate::text::{byte_order, bytes_in, longest, text_before, IntoText, TextOrder};
use crate::text::{lemma_order_irreflexive, lemma_order_total, lemma_order_transitive};

verus! {

/// A column: its name and its value.
pub type Column = (Seq<char>, Seq<char>);

/// The columns stand in the byte order of their names, each name once.
pub open spec fn in_key_order(cols: Seq<Column>) -> bool {
    forall|i: int, j: int|
        #![trigger cols[i], cols[j]]
        0 <= i < j < cols.len() ==> text_before(cols[i].0, cols[j].0)
}

/// Some column has the name `k`.
pub open spec fn has_key(cols: Seq<Column>, k: Seq<char>) -> bool {
    exists|i: int| 0 <= i < cols.len() && #[trigger] cols[i].0 == k
}

/// What the columns say of each name.
pub open spec fn column_map(cols: Seq<Column>) -> Map<Seq<char>, Seq<char>> {
    Map::new(
        |k: Seq<char>| has_key(cols, k),
        |k: Seq<char>| cols[choose|i: int| 0 <= i < cols.len() && #[trigger] cols[i].0 == k].1,
    )
}

/// The columns of `m` in the byte order of their names.
pub open spec fn listing(m: Map<Seq<char>, Seq<char>>) -> Seq<Column> {
    choose|cols: Seq<Column>| in_key_order(cols) && #[trigger] column_map(cols) == m
}

/// Two listings of the same columns are the same.
proof fn lemma_listings_agree(a: Seq<Column>, b: Seq<Column>)
    requires
        in_key_order(a),
        in_key_order(b),
        column_map(a) == column_map(b),
    ensures
        a == b,
    decreases a.len(),
{
    lemma_column_count(a);
    lemma_column_count(b);
    if a.len() > 0 {
        let (i, j) = (a.len() - 1, b.len() - 1);
        lemma_column_value(a, i);
        lemma_column_value(b, j);
        assert(has_key(b, a[i].0));
        assert(has_key(a, b[j].0));
        let p = choose|p: int| 0 <= p < b.len() && #[trigger] b[p].0 == a[i].0;
        let q = choose|q: int| 0 <= q < a.len() && #[trigger] a[q].0 == b[j].0;
        if p < j {
            assert(text_before(b[p].0, b[j].0));
            if q < i {
                assert(text_before(a[q].0, a[i].0));
                lemma_order_transitive(a[i].0, b[j].0, a[i].0);
            }
            lemma_order_irreflexive(a[i].0);
        }
        assert(a[i] == b[j]);
        let (x, y) = (a.drop_last(), b.drop_last());
        assert(in_key_order(x));
        assert(in_key_order(y));
        lemma_last_column(a);
        lemma_last_column(b);
        lemma_listings_agree(x, y);
        assert(a =~= x.push(a[i]));
        assert(b =~= y.push(b[j]));
    } else {
        assert(a =~= b);
    }
}

/// All but the last column of an ordered listing.
proof fn lemma_last_column(cols: Seq<Column>)
    requires
        in_key_order(cols),
        cols.len() > 0,
    ensures
        column_map(cols.drop_last()) == column_map(cols).remove(cols.last().0),
{
    let head = cols.drop_last();
    let (k, v) = cols.last();
    assert(in_key_order(head));
    assert forall|j: int| 0 <= j < head.len() implies text_before(#[trigger] head[j].0, k) by {
        assert(text_before(cols[j].0, cols[cols.len() - 1].0));
    }
    assert(cols =~= head.insert(head.len() as int, (k, v)));
    lemma_insert(head, head.len() as int, k, v);
    if has_key(head, k) {
        let i = choose|i: int| 0 <= i < head.len() && #[trigger] head[i].0 == k;
        lemma_order_irreflexive(k);
    }
    assert(column_map(head) =~= column_map(cols).remove(k));
}

/// An ordered listing is the listing of its columns.
pub proof fn lemma_listing(cols: Seq<Column>)
    requires
        in_key_order(cols),
    ensures
        listing(column_map(cols)) == cols,
{
    let chosen = listing(column_map(cols));
    assert(in_key_order(chosen) && column_map(chosen) == column_map(cols));
    lemma_listings_agree(chosen, cols);
}

/// `m` after each of the columns was set in turn: where a name comes twice, the
/// later value stays.
pub open spec fn set_in_turn(m: Map<Seq<char>, Seq<char>>, cols: Seq<Column>) -> Map<
    Seq<char>,
    Seq<char>,
>
    decreases cols.len(),
{
    if cols.len() == 0 {
        m
    } else {
        set_in_turn(m, cols.drop_last()).insert(cols.last().0, cols.last().1)
    }
}

/// The texts of a list of pairs.
pub open spec fn pair_texts<K: IntoText, V: IntoText>(pairs: Seq<(K, V)>) -> Seq<Column> {
    pairs.map_values(|p: (K, V)| (p.0.text(), p.1.text()))
}

/// Free-form benchmark meta-data printed as columns.
///
/// The columns are kept in the byte order of their names; no name occurs twice.
#[derive(Debug)]
pub struct BenchmarkParameters {
    entries: Vec<(String, String)>,
}

impl View for BenchmarkParameters {
    type V = Map<Seq<char>, Seq<char>>;

    closed spec fn view(&self) -> Map<Seq<char>, Seq<char>> {
        column_map(self.columns())
    }
}

/// In an ordered listing the value of a name is that of its one column.
proof fn lemma_column_value(cols: Seq<Column>, i: int)
    requires
        in_key_order(cols),
        0 <= i < cols.len(),
    ensures
        column_map(cols).contains_key(cols[i].0),
        column_map(cols)[cols[i].0] == cols[i].1,
{
    let k = cols[i].0;
    assert(has_key(cols, k));
    let c = choose|c: int| 0 <= c < cols.len() && #[trigger] cols[c].0 == k;
    lemma_order_irreflexive(k);
    if c < i {
        assert(text_before(cols[c].0, cols[i].0));
    }
    if i < c {
        assert(text_before(cols[i].0, cols[c].0));
    }
}

/// A new value in the column at `at`.
proof fn lemma_replace(cols: Seq<Column>, at: int, v: Seq<char>)
    requires
        in_key_order(cols),
        0 <= at < cols.len(),
    ensures
        in_key_order(cols.update(at, (cols[at].0, v))),
        column_map(cols.update(at, (cols[at].0, v))) == column_map(cols).insert(cols[at].0, v),
{
    let new = cols.update(at, (cols[at].0, v));
    let want = column_map(cols).insert(cols[at].0, v);
    assert forall|k: Seq<char>| column_map(new).contains_key(k) <==> want.contains_key(k) by {
        if has_key(new, k) {
            let i = choose|i: int| 0 <= i < new.len() && #[trigger] new[i].0 == k;
            assert(cols[i].0 == k);
        }
        if has_key(cols, k) {
            let i = choose|i: int| 0 <= i < cols.len() && #[trigger] cols[i].0 == k;
            assert(new[i].0 == k);
        }
        assert(new[at].0 == cols[at].0);
    }
    assert forall|k: Seq<char>| column_map(new).contains_key(k) implies column_map(new)[k]
        == want[k] by {
        let i = choose|i: int| 0 <= i < new.len() && #[trigger] new[i].0 == k;
        lemma_column_value(new, i);
        lemma_column_value(cols, i);
        lemma_column_value(cols, at);
        if k == cols[at].0 && i != at {
            lemma_order_irreflexive(k);
            assert(new[at].0 == k);
            assert(text_before(k, k));
        }
    }
    assert(column_map(new) =~= want);
}

/// A new column at `at`, where its name belongs.
proof fn lemma_insert(cols: Seq<Column>, at: int, k: Seq<char>, v: Seq<char>)
    requires
        in_key_order(cols),
        0 <= at <= cols.len(),
        forall|j: int| 0 <= j < at ==> text_before(#[trigger] cols[j].0, k),
        forall|j: int| at <= j < cols.len() ==> text_before(k, #[trigger] cols[j].0),
    ensures
        in_key_order(cols.insert(at, (k, v))),
        column_map(cols.insert(at, (k, v))) == column_map(cols).insert(k, v),
{
    let new = cols.insert(at, (k, v));
    assert forall|i: int, j: int|
        #![trigger new[i], new[j]]
        0 <= i < j < new.len() implies text_before(new[i].0, new[j].0) by {
        let a = if i < at {
            i
        } else {
            i - 1
        };
        let b = if j < at {
            j
        } else {
            j - 1
        };
        if i != at && j != at {
            assert(text_before(cols[a].0, cols[b].0));
        }
    }
    let want = column_map(cols).insert(k, v);
    assert forall|q: Seq<char>| column_map(new).contains_key(q) <==> want.contains_key(q) by {
        if has_key(new, q) {
            let i = choose|i: int| 0 <= i < new.len() && #[trigger] new[i].0 == q;
            if i < at {
                assert(cols[i].0 == q);
            } else if i > at {
                assert(cols[i - 1].0 == q);
            }
        }
        if has_key(cols, q) {
            let i = choose|i: int| 0 <= i < cols.len() && #[trigger] cols[i].0 == q;
            if i < at {
                assert(new[i].0 == q);
            } else {
                assert(new[i + 1].0 == q);
            }
        }
        assert(new[at].0 == k);
    }
    assert forall|q: Seq<char>| column_map(new).contains_key(q) implies column_map(new)[q]
        == want[q] by {
        let i = choose|i: int| 0 <= i < new.len() && #[trigger] new[i].0 == q;
        lemma_column_value(new, i);
        lemma_order_irreflexive(k);
        if i < at {
            lemma_column_value(cols, i);
            assert(q != k);
        } else if i > at {
            lemma_column_value(cols, i - 1);
            assert(q != k);
        }
    }
    assert(column_map(new) =~= want);
}

impl BenchmarkParameters {
    /// The columns in the order in which they are printed.
    spec fn columns(&self) -> Seq<Column> {
        self.entries@.map_values(|e: (String, String)| (e.0@, e.1@))
    }

    /// The columns are in order, each name once.
    #[verifier::type_invariant]
    spec fn wf(&self) -> bool {
        in_key_order(self.columns())
    }

    /// The place of a name: where its column is, or where it belongs.
    fn place(&self, key: &str) -> (res: (usize, bool))
        ensures
            res.0 <= self.columns().len(),
            forall|j: int| 0 <= j < res.0 ==> text_before(#[trigger] self.columns()[j].0, key@),
            res.1 ==> res.0 < self.columns().len() && self.columns()[res.0 as int].0 == key@,
            !res.1 ==> forall|j: int|
                res.0 <= j < self.columns().len() ==> text_before(
                    key@,
                    #[trigger] self.columns()[j].0,
                ),
    {
        proof {
            use_type_invariant(self);
        }
        let mut i: usize = 0;
        while i < self.entries.len()
            invariant
                i <= self.entries@.len(),
                in_key_order(self.columns()),
                forall|j: int| 0 <= j < i ==> text_before(#[trigger] self.columns()[j].0, key@),
            decreases self.entries@.len() - i,
        {
            let order = byte_order(self.entries[i].0.as_str(), key);
            assert(self.columns()[i as int].0 == self.entries@[i as int].0@);
            match order {
                TextOrder::Same => {
                    return (i, true);
                },
                TextOrder::After => {
                    proof {
                        let cols = self.columns();
                        assert forall|j: int| i <= j < cols.len() implies text_before(
                            key@,
                            #[trigger] cols[j].0,
                        ) by {
                            if i < j {
                                assert(text_before(cols[i as int].0, cols[j].0));
                                lemma_order_transitive(key@, cols[i as int].0, cols[j].0);
                            }
                        }
                    }
                    return (i, false);
                },
                TextOrder::Before => {},
            }
            i += 1;
        }
        (i, false)
    }

    /// Sets the column `k` to `v`, whether or not there is one of that name.
    pub fn set<K: IntoText, V: IntoText>(&mut self, k: K, v: V)
        ensures
            final(self)@ == old(self)@.insert(k.text(), v.text()),
    {
        let key = k.into_text();
        let val = v.into_text();
        let (at, found) = self.place(key.as_str());
        let ghost cols = self.columns();
        proof {
            use_type_invariant(&*self);
        }
        let mut entries: Vec<(String, String)> = Vec::new();
        std::mem::swap(&mut entries, &mut self.entries);
        let ghost kept = entries@;
        if found {
            entries[at].1 = val;
            proof {
                lemma_replace(cols, at as int, val@);
                assert(entries@.map_values(|e: (String, String)| (e.0@, e.1@)) =~= cols.update(
                    at as int,
                    (key@, val@),
                ));
            }
        } else {
            entries.insert(at, (key, val));
            proof {
                lemma_insert(cols, at as int, key@, val@);
                assert(entries@.map_values(|e: (String, String)| (e.0@, e.1@)) =~= cols.insert(
                    at as int,
                    (key@, val@),
                ));
            }
        }
        self.entries = entries;
    }

    /// No columns.
    fn none() -> (res: Self)
        ensures
            res@ == Map::<Seq<char>, Seq<char>>::empty(),
    {
        let res = BenchmarkParameters { entries: Vec::new() };
        assert(res@ =~= Map::<Seq<char>, Seq<char>>::empty());
        res
    }

    /// The columns of the pairs, set in turn.
    pub fn new<K: IntoText, V: IntoText>(params: Vec<(K, V)>) -> (res: Self)
        ensures
            res@ == set_in_turn(Map::empty(), pair_texts(params@)),
    {
        let mut m = Self::none();
        m.set_all(params);
        m
    }

    /// These columns with the column `k` set to `v`.
    pub fn with<K: IntoText, V: IntoText>(self, k: K, v: V) -> (res: Self)
        ensures
            res@ == self@.insert(k.text(), v.text()),
    {
        let mut res = self;
        res.set(k, v);
        res
    }

    /// Sets each of the pairs in turn.
    pub fn set_all<K: IntoText, V: IntoText>(&mut self, params: Vec<(K, V)>)
        ensures
            final(self)@ == set_in_turn(old(self)@, pair_texts(params@)),
    {
        let ghost before = self@;
        let ghost texts = pair_texts(params@);
        for pair in it: params
            invariant
                it.seq() == params@,
                texts == pair_texts(params@),
                self@ == set_in_turn(before, texts.take(it.index())),
        {
            let (k, v) = pair;
            self.set(k, v);
            proof {
                let n = it.index();
                assert(texts.take(n + 1).drop_last() =~= texts.take(n));
                assert(texts.take(n + 1).last() == (k.text(), v.text()));
            }
        }
        assert(texts.take(texts.len() as int) =~= texts);
    }

    /// Writes the columns, in the order of their names.
    pub fn write_columns<W: ColumnWriter>(&self, cols: &mut W)
        ensures
            may_write_all(*old(cols), listing(self@), *final(cols)),
            self@.dom().finite(),
    {
        proof {
            use_type_invariant(self);
            lemma_listing(self.columns());
            lemma_column_count(self.columns());
        }
        let ghost before = *cols;
        let ghost all = self.columns();
        let mut i: usize = 0;
        while i < self.entries.len()
            invariant
                i <= self.entries@.len(),
                all == self.columns(),
                may_write_all(before, all.take(i as int), *cols),
            decreases self.entries@.len() - i,
        {
            let ghost mid = *cols;
            cols.write_str(self.entries[i].0.as_str(), self.entries[i].1.as_str());
            proof {
                lemma_write_one_more(before, all.take(i as int), mid, all[i as int], *cols);
                assert(all.take(i as int).push(all[i as int]) =~= all.take(i + 1));
            }
            i += 1;
        }
        assert(all.take(i as int) =~= all);
    }

    /// The length of the longest name in bytes.
    pub fn longest_name(&self) -> (res: usize)
        ensures
            res == longest(listing(self@).map_values(|c: Column| c.0)),
            self@.dom().finite(),
    {
        proof {
            use_type_invariant(self);
            lemma_listing(self.columns());
            lemma_column_count(self.columns());
        }
        let ghost names = self.columns().map_values(|c: Column| c.0);
        let mut res: usize = 0;
        let mut i: usize = 0;
        while i < self.entries.len()
            invariant
                i <= self.entries@.len(),
                names == self.columns().map_values(|c: Column| c.0),
                res == longest(names.take(i as int)),
            decreases self.entries@.len() - i,
        {
            let len: usize = bytes_in(self.entries[i].0.as_str());
            if res < len {
                res = len;
            }
            proof {
                assert(names.take(i + 1).drop_last() =~= names.take(i as int));
                assert(names.take(i + 1).last() == self.entries@[i as int].0@);
            }
            i += 1;
        }
        assert(names.take(i as int) =~= names);
        res
    }

    /// The number of columns.
    pub fn len(&self) -> (res: usize)
        ensures
            res == self@.len(),
            self@.dom().finite(),
    {
        proof {
            use_type_invariant(self);
            lemma_column_count(self.columns());
        }
        self.entries.len()
    }
}

/// There are as many names as columns.
proof fn lemma_column_count(cols: Seq<Column>)
    requires
        in_key_order(cols),
    ensures
        column_map(cols).dom().finite(),
        column_map(cols).len() == cols.len(),
{
    let names = cols.map_values(|c: Column| c.0);
    assert forall|i: int, j: int| 0 <= i < j < names.len() implies names[i] != names[j] by {
        assert(text_before(cols[i].0, cols[j].0));
        lemma_order_irreflexive(cols[i].0);
    }
    assert(names.no_duplicates());
    names.unique_seq_to_set();
    assert forall|k: Seq<char>| names.to_set().contains(k) <==> has_key(cols, k) by {
        if names.contains(k) {
            let i = choose|i: int| 0 <= i < names.len() && names[i] == k;
            assert(cols[i].0 == k);
        }
        if has_key(cols, k) {
            let i = choose|i: int| 0 <= i < cols.len() && #[trigger] cols[i].0 == k;
            assert(names[i] == k);
        }
    }
    assert(column_map(cols).dom() =~= names.to_set());
}

impl Default for BenchmarkParameters {
    fn default() -> (res: Self)
        ensures
            res@ == Map::<Seq<char>, Seq<char>>::empty(),
    {
        Self::none()
    }
}

impl Clone for BenchmarkParameters {
    fn clone(&self) -> (res: Self)
        ensures
            res@ == self@,
    {
        let mut entries: Vec<(String, String)> = Vec::new();
        let mut i: usize = 0;
        while i < self.entries.len()
            invariant
                i <= self.entries@.len(),
                entries@.len() == i,
                forall|j: int|
                    0 <= j < i ==> #[trigger] entries@[j].0@ == self.entries@[j].0@
                        && entries@[j].1@ == self.entries@[j].1@,
            decreases self.entries@.len() - i,
        {
            entries.push((self.entries[i].0.clone(), self.entries[i].1.clone()));
            i += 1;
        }
        proof {
            use_type_invariant(self);
            assert(entries@.map_values(|e: (String, String)| (e.0@, e.1@)) =~= self.columns());
        }
        BenchmarkParameters { entries }
    }
}

////////////////////////////////////////////////////////////////////////////////
// Updates

/// Message type for live benchmark-parameter updates.
///
/// Implementations should update (merge/overwrite) values in the provided
/// [`BenchmarkParameters`].
pub trait BenchmarkParameterUpdates: Send + Sized + 'static {
    /// Carrying out the update may turn the columns `before` into the columns `after`. An update
    /// that says nothing here promises nothing.
    open spec fn may_turn(
        self,
        before: Map<Seq<char>, Seq<char>>,
        after: Map<Seq<char>, Seq<char>>,
    ) -> bool {
        true
    }

    /// Carries the update out.
    fn apply(self, params: &mut BenchmarkParameters)
        ensures
            self.may_turn(old(params)@, final(params)@),
    ;

    /// Optional per-update scale override.
    ///
    /// If this returns `Some(scale)`, the sampler uses that as the new divisor
    /// when printing per-slice deltas.
    fn get_scale(&self) -> (res: Option<usize>)
        default_ensures
            res is None,
    {
        None
    }
}

impl BenchmarkParameterUpdates for BenchmarkParameters {
    /// The columns of the update are merged in and win over older ones.
    open spec fn may_turn(
        self,
        before: Map<Seq<char>, Seq<char>>,
        after: Map<Seq<char>, Seq<char>>,
    ) -> bool {
        after == before.union_prefer_right(self@)
    }

    fn apply(self, params: &mut BenchmarkParameters) {
        proof {
            use_type_invariant(&self);
            lemma_merge(params@, self.columns());
        }
        assert(pair_texts(self.entries@) =~= self.columns());
        params.set_all(self.entries);
    }
}

/// Setting the columns of an ordered listing in turn is the same as merging them
/// in at once.
proof fn lemma_merge(m: Map<Seq<char>, Seq<char>>, cols: Seq<Column>)
    requires
        in_key_order(cols),
    ensures
        set_in_turn(m, cols) == m.union_prefer_right(column_map(cols)),
    decreases cols.len(),
{
    if cols.len() == 0 {
        assert(m.union_prefer_right(column_map(cols)) =~= m);
    } else {
        let head = cols.drop_last();
        let (k, v) = cols.last();
        assert(in_key_order(head));
        lemma_merge(m, head);
        assert(cols =~= head.insert(head.len() as int, (k, v)));
        lemma_insert(head, head.len() as int, k, v);
        assert(m.union_prefer_right(column_map(cols)) =~= m.union_prefer_right(
            column_map(head),
        ).insert(k, v));
    }
}

////////////////////////////////////////////////////////////////////////////////
// Laws

/// Any columns can be listed: the listing is in order and holds these columns and no
/// others.
pub proof fn law_listing(m: Map<Seq<char>, Seq<char>>)
    requires
        m.dom().finite(),
    ensures
        in_key_order(listing(m)),
        column_map(listing(m)) == m,
        listing(m).len() == m.len(),
    decreases m.len(),
{
    if m.len() == 0 {
        let cols = Seq::<Column>::empty();
        assert(m.dom() =~= Set::empty());
        assert(column_map(cols) =~= m);
        lemma_listing(cols);
    } else {
        let k = m.dom().choose();
        let rest = m.remove(k);
        law_listing(rest);
        let cols = listing(rest);
        assert(!has_key(cols, k)) by {
            assert(!column_map(cols).contains_key(k));
        }
        let at = lemma_place(cols, k, 0);
        lemma_insert(cols, at, k, m[k]);
        let all = cols.insert(at, (k, m[k]));
        assert(column_map(all) =~= m);
        lemma_listing(all);
        lemma_column_count(all);
    }
}

/// A column of the listing has the value that is set for its name.
pub proof fn law_listed_value(m: Map<Seq<char>, Seq<char>>, i: int)
    requires
        m.dom().finite(),
        0 <= i < listing(m).len(),
    ensures
        m.contains_key(listing(m)[i].0),
        m[listing(m)[i].0] == listing(m)[i].1,
{
    law_listing(m);
    lemma_column_value(listing(m), i);
}

/// There is a place for a new name in an ordered listing.
proof fn lemma_place(cols: Seq<Column>, k: Seq<char>, from: int) -> (at: int)
    requires
        in_key_order(cols),
        !has_key(cols, k),
        0 <= from <= cols.len(),
        forall|j: int| 0 <= j < from ==> text_before(#[trigger] cols[j].0, k),
    ensures
        0 <= at <= cols.len(),
        forall|j: int| 0 <= j < at ==> text_before(#[trigger] cols[j].0, k),
        forall|j: int| at <= j < cols.len() ==> text_before(k, #[trigger] cols[j].0),
    decreases cols.len() - from,
{
    if from == cols.len() {
        from
    } else {
        assert(cols[from].0 != k);
        lemma_order_total(cols[from].0, k);
        if text_before(cols[from].0, k) {
            lemma_place(cols, k, from + 1)
        } else {
            assert forall|j: int| from <= j < cols.len() implies text_before(
                k,
                #[trigger] cols[j].0,
            ) by {
                if from < j {
                    assert(text_before(cols[from].0, cols[j].0));
                    lemma_order_transitive(k, cols[from].0, cols[j].0);
                }
            }
            from
        }
    }
}

/// Setting a column again leaves only the later value.
pub proof fn law_last_setting_wins(
    m: Map<Seq<char>, Seq<char>>,
    k: Seq<char>,
    first: Seq<char>,
    second: Seq<char>,
)
    ensures
        m.insert(k, first).insert(k, second) == m.insert(k, second),
        m.insert(k, first).insert(k, second)[k] == second,
{
    assert(m.insert(k, first).insert(k, second) =~= m.insert(k, second));
}

/// The order in which different columns are set does not matter, not even for the order in
/// which they are printed.
pub proof fn law_settings_commute(
    m: Map<Seq<char>, Seq<char>>,
    k: Seq<char>,
    v: Seq<char>,
    l: Seq<char>,
    w: Seq<char>,
)
    requires
        k != l,
    ensures
        m.insert(k, v).insert(l, w) == m.insert(l, w).insert(k, v),
        listing(m.insert(k, v).insert(l, w)) == listing(m.insert(l, w).insert(k, v)),
{
    assert(m.insert(k, v).insert(l, w) =~= m.insert(l, w).insert(k, v));
}

/// Setting some columns and then more is setting them all.
pub proof fn law_set_in_two_parts(
    m: Map<Seq<char>, Seq<char>>,
    cols: Seq<Column>,
    more: Seq<Column>,
)
    ensures
        set_in_turn(m, cols + more) == set_in_turn(set_in_turn(m, cols), more),
    decreases more.len(),
{
    if more.len() == 0 {
        assert(cols + more =~= cols);
    } else {
        law_set_in_two_parts(m, cols, more.drop_last());
        assert((cols + more).drop_last() =~= cols + more.drop_last());
    }
}

/// Setting columns in turn loses no column and adds only those that are set; a column that
/// is not set keeps its value.
pub proof fn law_set_in_turn_keeps(m: Map<Seq<char>, Seq<char>>, cols: Seq<Column>, k: Seq<char>)
    ensures
        set_in_turn(m, cols).contains_key(k) <==> m.contains_key(k) || has_key(cols, k),
        !has_key(cols, k) ==> set_in_turn(m, cols)[k] == m[k],
    decreases cols.len(),
{
    if cols.len() > 0 {
        let head = cols.drop_last();
        law_set_in_turn_keeps(m, head, k);
        if has_key(head, k) {
            let i = choose|i: int| 0 <= i < head.len() && #[trigger] head[i].0 == k;
            assert(cols[i].0 == k);
        }
        if has_key(cols, k) && cols.last().0 != k {
            let i = choose|i: int| 0 <= i < cols.len() && #[trigger] cols[i].0 == k;
            assert(head[i].0 == k);
        }
        if cols.last().0 == k {
            assert(cols[cols.len() - 1].0 == k);
        }
    }
}

/// After setting columns in turn, a column has the value of its last setting.
pub proof fn law_set_in_turn_value(m: Map<Seq<char>, Seq<char>>, cols: Seq<Column>, i: int)
    requires
        0 <= i < cols.len(),
        forall|j: int| i < j < cols.len() ==> #[trigger] cols[j].0 != cols[i].0,
    ensures
        set_in_turn(m, cols)[cols[i].0] == cols[i].1,
    decreases cols.len(),
{
    if i < cols.len() - 1 {
        let head = cols.drop_last();
        assert forall|j: int| i < j < head.len() implies #[trigger] head[j].0 != head[i].0 by {
            assert(cols[j].0 != cols[i].0);
        }
        law_set_in_turn_value(m, head, i);
        assert(cols[cols.len() - 1].0 != cols[i].0);
    }
}

/// Merging columns in as an update: those of the update win, all others stay, and doing it
/// again changes nothing.
pub proof fn law_update_merges(
    update: BenchmarkParameters,
    before: Map<Seq<char>, Seq<char>>,
    after: Map<Seq<char>, Seq<char>>,
)
    requires
        update.may_turn(before, after),
    ensures
        forall|k: Seq<char>| #[trigger] update@.contains_key(k) ==> after.contains_key(k)
            && after[k] == update@[k],
        forall|k: Seq<char>| #[trigger]
            after.contains_key(k) <==> before.contains_key(k) || update@.contains_key(k),
        forall|k: Seq<char>| #[trigger]
            before.contains_key(k) && !update@.contains_key(k) ==> after[k] == before[k],
        update.may_turn(after, after),
{
    assert(after =~= after.union_prefer_right(update@));
}

/// The texts of pairs: name and value of each pair, in their order.
pub proof fn law_pairs_keep_their_texts<K: IntoText, V: IntoText>(pairs: Seq<(K, V)>)
    ensures
        pair_texts(pairs).len() == pairs.len(),
        forall|i: int|
            #![trigger pair_texts(pairs)[i]]
            0 <= i < pairs.len() ==> {
                &&& pair_texts(pairs)[i].0 == pairs[i].0.text()
                &&& pair_texts(pairs)[i].1 == pairs[i].1.text()
            },
{
}

/// The listing shows every column that is set, with its value, and nothing else; a name that
/// comes before another stands before it.
pub proof fn law_every_column_is_listed(
    m: Map<Seq<char>, Seq<char>>,
    k: Seq<char>,
    l: Seq<char>,
)
    requires
        m.dom().finite(),
        m.contains_key(k),
        m.contains_key(l),
        text_before(k, l),
    ensures
        listing(m).len() == m.dom().len(),
        exists|i: int, j: int|
            #![trigger listing(m)[i], listing(m)[j]]
            {
                &&& 0 <= i < j < listing(m).len()
                &&& listing(m)[i] == (k, m[k])
                &&& listing(m)[j] == (l, m[l])
            },
{
    law_listing(m);
    let cols = listing(m);
    assert(has_key(cols, k) && has_key(cols, l)) by {
        assert(column_map(cols).contains_key(k));
        assert(column_map(cols).contains_key(l));
    }
    let i = choose|i: int| 0 <= i < cols.len() && #[trigger] cols[i].0 == k;
    let j = choose|j: int| 0 <= j < cols.len() && #[trigger] cols[j].0 == l;
    lemma_column_value(cols, i);
    lemma_column_value(cols, j);
    lemma_order_irreflexive(k);
    if j < i {
        assert(text_before(cols[j].0, cols[i].0));
        lemma_order_transitive(k, l, k);
    }
    assert(cols[i] == (k, m[k]) && cols[j] == (l, m[l]));
}

/// Each column that is listed is set, and no name is listed twice.
pub proof fn law_listed_once(m: Map<Seq<char>, Seq<char>>, i: int, j: int)
    requires
        m.dom().finite(),
        0 <= i < j < listing(m).len(),
    ensures
        m.contains_key(listing(m)[i].0),
        listing(m)[i].1 == m[listing(m)[i].0],
        m.contains_key(listing(m)[j].0),
        listing(m)[j].1 == m[listing(m)[j].0],
        listing(m)[i].0 != listing(m)[j].0,
        text_before(listing(m)[i].0, listing(m)[j].0),
{
    law_listing(m);
    law_listed_value(m, i);
    law_listed_value(m, j);
    lemma_order_irreflexive(listing(m)[i].0);
}

} // verus!

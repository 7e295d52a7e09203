use vstd::prelude::*;
use vstd::string::StringExecFns;

use crate::aggregator::Aggregator;
use crate::columns::{Batch, Column};
use crate::expression::{lists, Expr};
use crate::fmt::{decimal, push_decimal};
use crate::value::ValueType;

verus! {

/// At most `limit` result rows, after skipping the first `offset`.
#[derive(Debug, Clone, Copy, PartialEq, Eq, Structural)]
pub struct LimitClause {
    pub limit: u64,
    pub offset: u64,
}

/// A query: projections, a filter, and an optional list of aggregates.
#[derive(Debug)]
pub struct Query {
    pub select: Vec<Expr>,
    pub filter: Expr,
    pub limit: Option<LimitClause>,
    pub aggregate: Vec<(Aggregator, Expr)>,
}

/// The statistics of one run.
#[derive(Debug, Clone, Copy, PartialEq, Eq, Structural)]
pub struct QueryStats {
    pub runtime_ns: u64,
    pub rows_scanned: u64,
}

/// The result of a query: column names, rows, statistics.
#[derive(Debug)]
pub struct QueryResult {
    pub colnames: Vec<String>,
    pub rows: Vec<Vec<ValueType>>,
    pub stats: QueryStats,
}

/// The statistics of two runs taken together, where the sums fit.
pub open spec fn sum_stats(a: QueryStats, b: QueryStats) -> QueryStats {
    QueryStats {
        runtime_ns: (a.runtime_ns + b.runtime_ns) as u64,
        rows_scanned: (a.rows_scanned + b.rows_scanned) as u64,
    }
}

/// Whether the sums of the statistics `a` and `b` fit in their fields.
pub open spec fn stats_fit(a: QueryStats, b: QueryStats) -> bool {
    a.runtime_ns + b.runtime_ns <= u64::MAX && a.rows_scanned + b.rows_scanned <= u64::MAX
}

impl QueryStats {
    /// The statistics of two runs taken together.
    pub fn add(self, other: QueryStats) -> (r: QueryStats)
        requires
            stats_fit(self, other),
        ensures
            r == sum_stats(self, other),
            r.runtime_ns == self.runtime_ns + other.runtime_ns,
            r.rows_scanned == self.rows_scanned + other.rows_scanned,
    {
        QueryStats {
            runtime_ns: self.runtime_ns + other.runtime_ns,
            rows_scanned: self.rows_scanned + other.rows_scanned,
        }
    }
}

/// Statistics form a monoid under addition: runtimes and scanned rows add up, the sum
/// does not depend on grouping, and empty statistics change nothing.
pub proof fn lemma_stats_monoid(a: QueryStats, b: QueryStats, c: QueryStats)
    requires
        stats_fit(a, b),
        stats_fit(sum_stats(a, b), c),
    ensures
        sum_stats(a, b).runtime_ns == a.runtime_ns + b.runtime_ns,
        sum_stats(a, b).rows_scanned == a.rows_scanned + b.rows_scanned,
        stats_fit(b, c),
        stats_fit(a, sum_stats(b, c)),
        sum_stats(sum_stats(a, b), c) == sum_stats(a, sum_stats(b, c)),
        sum_stats(a, QueryStats { runtime_ns: 0, rows_scanned: 0 }) == a,
{
}

/// The number of projections among `select` that are not a bare column name.
pub open spec fn anonymous_count(select: Seq<Expr>) -> nat
    decreases select.len(),
{
    if select.len() == 0 {
        0
    } else {
        anonymous_count(select.drop_last()) + if select.last() is ColName {
            0nat
        } else {
            1nat
        }
    }
}

/// The result column names of the projections `select`.
pub open spec fn select_names(select: Seq<Expr>) -> Seq<Seq<char>>
    decreases select.len(),
{
    if select.len() == 0 {
        Seq::empty()
    } else {
        select_names(select.drop_last()).push(
            match select.last() {
                Expr::ColName(n) => n@,
                _ => seq!['c', 'o', 'l', '_'] + decimal(anonymous_count(select.drop_last())),
            },
        )
    }
}

/// The result column name of the `k`-th aggregate.
pub open spec fn aggregate_name(agg: Aggregator, k: nat) -> Seq<char> {
    match agg {
        Aggregator::Count => seq!['c', 'o', 'u', 'n', 't', '_'] + decimal(k),
        Aggregator::Sum => seq!['s', 'u', 'm', '_'] + decimal(k),
    }
}

/// Views of a list of strings.
pub open spec fn texts(v: Seq<String>) -> Seq<Seq<char>> {
    v.map_values(|s: String| s@)
}

impl Query {
    /// The result column names: the projections' names, then the aggregates' names.
    pub open spec fn spec_column_names(&self) -> Seq<Seq<char>> {
        select_names(self.select@) + Seq::new(
            self.aggregate@.len(),
            |k: int| aggregate_name(self.aggregate@[k].0, k as nat),
        )
    }

    /// Whether the query reads column `n`.
    pub open spec fn mentions(&self, n: Seq<char>) -> bool {
        (exists|i: int| 0 <= i < self.select@.len() && (#[trigger] self.select@[i]).mentions(n))
            || self.filter.mentions(n) || (exists|i: int|
            0 <= i < self.aggregate@.len() && (#[trigger] self.aggregate@[i]).1.mentions(n))
    }

    /// The names of all columns that the query reads, each once.
    fn find_referenced_cols(&self) -> (r: Vec<String>)
        ensures
            forall|n: Seq<char>| #[trigger] lists(r@, n) == self.mentions(n),
    {
        let mut names: Vec<String> = Vec::new();
        let mut i: usize = 0;
        while i < self.select.len()
            invariant
                i <= self.select@.len(),
                forall|n: Seq<char>|
                    #[trigger] lists(names@, n) == (exists|j: int|
                        0 <= j < i && (#[trigger] self.select@[j]).mentions(n)),
            decreases self.select@.len() - i,
        {
            self.select[i].add_colnames(&mut names);
            i += 1;
            assert forall|n: Seq<char>|
                #[trigger] lists(names@, n) == (exists|j: int|
                    0 <= j < i && (#[trigger] self.select@[j]).mentions(n)) by {
                if self.select@[i - 1].mentions(n) {
                    assert(0 <= i - 1 < i);
                }
            }
        }
        self.filter.add_colnames(&mut names);
        let mut k: usize = 0;
        while k < self.aggregate.len()
            invariant
                k <= self.aggregate@.len(),
                i == self.select@.len(),
                forall|n: Seq<char>|
                    #[trigger] lists(names@, n) == ((exists|j: int|
                        0 <= j < i && (#[trigger] self.select@[j]).mentions(n))
                        || self.filter.mentions(n) || (exists|j: int|
                        0 <= j < k && (#[trigger] self.aggregate@[j]).1.mentions(n))),
            decreases self.aggregate@.len() - k,
        {
            self.aggregate[k].1.add_colnames(&mut names);
            k += 1;
            assert forall|n: Seq<char>|
                #[trigger] lists(names@, n) == ((exists|j: int|
                    0 <= j < i && (#[trigger] self.select@[j]).mentions(n))
                    || self.filter.mentions(n) || (exists|j: int|
                    0 <= j < k && (#[trigger] self.aggregate@[j]).1.mentions(n))) by {
                if self.aggregate@[k - 1].1.mentions(n) {
                    assert(0 <= k - 1 < k);
                }
            }
        }
        names
    }

    /// The result column names: a bare column keeps its name, any other projection is
    /// named `col_0`, `col_1`, ... in order, and the `k`-th aggregate `count_k` or `sum_k`.
    pub fn result_column_names(&self) -> (r: Vec<String>)
        ensures
            texts(r@) == self.spec_column_names(),
            r@.len() == self.select@.len() + self.aggregate@.len(),
    {
        let mut names: Vec<String> = Vec::new();
        let mut anon: u64 = 0;
        let mut i: usize = 0;
        while i < self.select.len()
            invariant
                i <= self.select@.len(),
                anon == anonymous_count(self.select@.take(i as int)),
                anon <= i,
                texts(names@) == select_names(self.select@.take(i as int)),
            decreases self.select@.len() - i,
        {
            proof {
                reveal_strlit("col_");
            }
            assert(self.select@.take(i + 1).drop_last() =~= self.select@.take(i as int));
            assert(self.select@.take(i + 1).last() == self.select@[i as int]);
            let name = match &self.select[i] {
                Expr::ColName(n) => n.clone(),
                _ => {
                    let mut s = String::from_str("col_");
                    push_decimal(&mut s, anon);
                    anon = anon + 1;
                    s
                },
            };
            let ghost before = names@;
            assert(name@ == select_names(self.select@.take(i + 1)).last());
            names.push(name);
            i += 1;
            assert(texts(names@) =~= texts(before).push(name@));
            assert(texts(names@) =~= select_names(self.select@.take(i as int)));
        }
        assert(self.select@.take(i as int) =~= self.select@);
        proof {
            lemma_select_names_len(self.select@);
        }
        assert(texts(names@).len() == names@.len());
        assert(texts(names@) =~= select_names(self.select@) + Seq::new(
            0 as nat,
            |j: int| aggregate_name(self.aggregate@[j].0, j as nat),
        ));
        let mut k: usize = 0;
        while k < self.aggregate.len()
            invariant
                k <= self.aggregate@.len(),
                i == self.select@.len(),
                names@.len() == i + k,
                texts(names@) == select_names(self.select@) + Seq::new(
                    k as nat,
                    |j: int| aggregate_name(self.aggregate@[j].0, j as nat),
                ),
            decreases self.aggregate@.len() - k,
        {
            proof {
                reveal_strlit("count_");
                reveal_strlit("sum_");
            }
            let mut s = match self.aggregate[k].0 {
                Aggregator::Count => String::from_str("count_"),
                Aggregator::Sum => String::from_str("sum_"),
            };
            push_decimal(&mut s, k as u64);
            let ghost before = names@;
            assert(s@ == aggregate_name(self.aggregate@[k as int].0, k as nat));
            names.push(s);
            k += 1;
            assert(texts(names@) =~= texts(before).push(s@));
            assert(texts(names@) =~= select_names(self.select@) + Seq::new(
                k as nat,
                |j: int| aggregate_name(self.aggregate@[j].0, j as nat),
            ));
        }
        names
    }
}

proof fn lemma_select_names_len(select: Seq<Expr>)
    ensures
        select_names(select).len() == select.len(),
    decreases select.len(),
{
    if select.len() > 0 {
        lemma_select_names_len(select.drop_last());
    }
}


/// Views of a list of rows.
pub open spec fn rows_of(v: Seq<Vec<ValueType>>) -> Seq<Seq<ValueType>> {
    v.map_values(|r: Vec<ValueType>| r@)
}

/// The columns of `cols` that query `q` reads, in batch order.
pub open spec fn selected(cols: Seq<Column>, q: &Query) -> Seq<Column>
    decreases cols.len(),
{
    if cols.len() == 0 {
        Seq::empty()
    } else if q.mentions(cols.last().name@) {
        selected(cols.drop_last(), q).push(cols.last())
    } else {
        selected(cols.drop_last(), q)
    }
}

/// The names of the columns `sel`, by position.
pub open spec fn column_names(sel: Seq<Column>) -> Seq<String> {
    sel.map_values(|c: Column| c.name)
}

/// The rows that iterating `sel` in lockstep yields: as many as the shortest column has,
/// and none without columns.
pub open spec fn row_count(sel: Seq<Column>) -> nat
    decreases sel.len(),
{
    if sel.len() == 0 {
        0
    } else if sel.len() == 1 {
        sel[0].data@.len()
    } else {
        let m = row_count(sel.drop_last());
        let l = sel.last().data@.len();
        if m <= l {
            m
        } else {
            l
        }
    }
}

/// Row `i` of the columns `sel`.
pub open spec fn record(sel: Seq<Column>, i: int) -> Seq<ValueType> {
    Seq::new(sel.len(), |j: int| sel[j].data@[i])
}

/// Whether `filter` keeps row `i`: only a `Bool(true)` does.
pub open spec fn passes(filter: Expr, sel: Seq<Column>, i: int) -> bool {
    filter.spec_eval(record(sel, i)) == ValueType::Bool(true)
}

/// The projections `select` evaluated on row `i`.
pub open spec fn projection(select: Seq<Expr>, sel: Seq<Column>, i: int) -> Seq<ValueType> {
    Seq::new(select.len(), |k: int| select[k].spec_eval(record(sel, i)))
}

/// The projected rows, among the first `n`, that the filter keeps.
pub open spec fn select_rows(select: Seq<Expr>, filter: Expr, sel: Seq<Column>, n: nat) -> Seq<
    Seq<ValueType>,
>
    decreases n,
{
    if n == 0 {
        Seq::empty()
    } else if passes(filter, sel, n - 1) {
        select_rows(select, filter, sel, (n - 1) as nat).push(projection(select, sel, n - 1))
    } else {
        select_rows(select, filter, sel, (n - 1) as nat)
    }
}

/// Two rows equal value by value.
pub open spec fn same_row(a: Seq<ValueType>, b: Seq<ValueType>) -> bool {
    a.len() == b.len() && forall|i: int| 0 <= i < a.len() ==> (#[trigger] a[i]).same(b[i])
}

/// The position of the last of `keys` equal to `key`.
pub open spec fn find_group(keys: Seq<Seq<ValueType>>, key: Seq<ValueType>) -> Option<nat>
    decreases keys.len(),
{
    if keys.len() == 0 {
        None
    } else if same_row(keys.last(), key) {
        Some((keys.len() - 1) as nat)
    } else {
        find_group(keys.drop_last(), key)
    }
}

/// The accumulators `acc` after the aggregates `aggs` have read row `i`.
pub open spec fn reduced(aggs: Seq<(Aggregator, Expr)>, acc: Seq<ValueType>, sel: Seq<Column>, i: int) -> Seq<ValueType> {
    Seq::new(aggs.len(), |k: int| aggs[k].0.spec_reduce(acc[k], aggs[k].1.spec_eval(record(sel, i))))
}

/// The group keys and their accumulators after the first `n` rows, groups in order of
/// first appearance.
pub open spec fn groups(
    select: Seq<Expr>,
    filter: Expr,
    aggs: Seq<(Aggregator, Expr)>,
    sel: Seq<Column>,
    n: nat,
) -> (Seq<Seq<ValueType>>, Seq<Seq<ValueType>>)
    decreases n,
{
    if n == 0 {
        (Seq::empty(), Seq::empty())
    } else {
        let (keys, accs) = groups(select, filter, aggs, sel, (n - 1) as nat);
        if !passes(filter, sel, n - 1) {
            (keys, accs)
        } else {
            let key = projection(select, sel, n - 1);
            match find_group(keys, key) {
                Some(j) => (keys, accs.update(j as int, reduced(aggs, accs[j as int], sel, n - 1))),
                None => (
                    keys.push(key),
                    accs.push(reduced(aggs, Seq::new(aggs.len(), |k: int| ValueType::Integer(0)), sel, n - 1)),
                ),
            }
        }
    }
}

/// The rows that `limit` lets through.
pub open spec fn limited(rows: Seq<Seq<ValueType>>, limit: Option<LimitClause>) -> Seq<Seq<ValueType>> {
    match limit {
        None => rows,
        Some(l) => {
            let start = if l.offset <= rows.len() { l.offset as int } else { rows.len() as int };
            let end = if start + l.limit <= rows.len() { start + l.limit } else { rows.len() as int };
            rows.subrange(start, end)
        },
    }
}

impl Query {
    pub open spec fn compiled_select(&self, names: Seq<String>) -> Seq<Expr> {
        self.select@.map_values(|e: Expr| e.spec_compile(names))
    }

    pub open spec fn compiled_aggregate(&self, names: Seq<String>) -> Seq<(Aggregator, Expr)> {
        self.aggregate@.map_values(|a: (Aggregator, Expr)| (a.0, a.1.spec_compile(names)))
    }

    /// The rows that the query yields on one batch, before its limit clause.
    pub open spec fn batch_rows(&self, source: &Batch) -> Seq<Seq<ValueType>> {
        let sel = selected(source.cols@, self);
        let names = column_names(sel);
        let n = row_count(sel);
        if self.aggregate@.len() == 0 {
            select_rows(self.compiled_select(names), self.filter.spec_compile(names), sel, n)
        } else {
            let (keys, accs) = groups(
                self.compiled_select(names),
                self.filter.spec_compile(names),
                self.compiled_aggregate(names),
                sel,
                n,
            );
            Seq::new(keys.len(), |j: int| keys[j] + accs[j])
        }
    }

    /// The rows that the query reads from one batch, whatever its filter says of them.
    pub open spec fn batch_scanned(&self, source: &Batch) -> nat {
        row_count(selected(source.cols@, self))
    }
}

proof fn lemma_row_count_bound(sel: Seq<Column>)
    ensures
        forall|k: int| 0 <= k < sel.len() ==> row_count(sel) <= (#[trigger] sel[k]).data@.len(),
    decreases sel.len(),
{
    if sel.len() > 1 {
        lemma_row_count_bound(sel.drop_last());
        assert forall|k: int| 0 <= k < sel.len() implies row_count(sel) <= (#[trigger] sel[k]).data@.len() by {
            if k < sel.len() - 1 {
                assert(sel.drop_last()[k] == sel[k]);
            }
        }
    }
}

/// A copy of the values of `v`.
fn copy_row(v: &Vec<ValueType>) -> (r: Vec<ValueType>)
    ensures
        r@ == v@,
{
    let mut r: Vec<ValueType> = Vec::new();
    let mut i: usize = 0;
    while i < v.len()
        invariant
            i <= v@.len(),
            r@ == v@.take(i as int),
        decreases v@.len() - i,
    {
        r.push(v[i].duplicate());
        i += 1;
        assert(r@ =~= v@.take(i as int));
    }
    assert(r@ =~= v@);
    r
}

/// Whether two rows equal value by value.
fn rows_same(a: &Vec<ValueType>, b: &Vec<ValueType>) -> (r: bool)
    ensures
        r == same_row(a@, b@),
{
    if a.len() != b.len() {
        return false;
    }
    let mut i: usize = 0;
    while i < a.len()
        invariant
            i <= a@.len(),
            a@.len() == b@.len(),
            forall|j: int| 0 <= j < i ==> (#[trigger] a@[j]).same(b@[j]),
        decreases a@.len() - i,
    {
        if !a[i].same_as(&b[i]) {
            return false;
        }
        i += 1;
    }
    true
}

/// The position of the last group key equal to `key`.
fn find_group_of(keys: &Vec<Vec<ValueType>>, key: &Vec<ValueType>) -> (r: Option<usize>)
    ensures
        r == (match find_group(rows_of(keys@), key@) {
            Some(j) => Some(j as usize),
            None => None::<usize>,
        }),
        r matches Some(j) ==> j < keys@.len() && find_group(rows_of(keys@), key@) == Some(j as nat),
        r is None ==> find_group(rows_of(keys@), key@) is None,
{
    let mut end: usize = keys.len();
    assert(rows_of(keys@).take(end as int) =~= rows_of(keys@));
    while end > 0
        invariant
            end <= keys@.len(),
            find_group(rows_of(keys@).take(end as int), key@) == find_group(rows_of(keys@), key@),
        decreases end,
    {
        assert(rows_of(keys@).take(end as int).drop_last() =~= rows_of(keys@).take(end - 1));
        assert(rows_of(keys@).take(end as int).last() == keys@[end - 1]@);
        if rows_same(&keys[end - 1], key) {
            return Some(end - 1);
        }
        end -= 1;
    }
    None
}

/// Row `i` of the columns of `source` at the positions `idx`.
fn make_record(source: &Batch, idx: &Vec<usize>, i: usize, Ghost(sel): Ghost<Seq<Column>>) -> (r: Vec<ValueType>)
    requires
        idx@.len() == sel.len(),
        forall|k: int| 0 <= k < idx@.len() ==> (#[trigger] idx@[k]) < source.cols@.len() && source.cols@[idx@[k] as int] == sel[k],
        i < row_count(sel),
    ensures
        r@ == record(sel, i as int),
{
    proof {
        lemma_row_count_bound(sel);
    }
    let mut r: Vec<ValueType> = Vec::new();
    let mut k: usize = 0;
    while k < idx.len()
        invariant
            k <= idx@.len(),
            idx@.len() == sel.len(),
            forall|k: int| 0 <= k < idx@.len() ==> (#[trigger] idx@[k]) < source.cols@.len() && source.cols@[idx@[k] as int] == sel[k],
            forall|k: int| 0 <= k < sel.len() ==> row_count(sel) <= (#[trigger] sel[k]).data@.len(),
            i < row_count(sel),
            r@ == record(sel, i as int).take(k as int),
        decreases idx@.len() - k,
    {
        let c = idx[k];
        assert(sel[k as int] == source.cols@[c as int]);
        r.push(source.cols[c].data[i].duplicate());
        k += 1;
        assert(r@ =~= record(sel, i as int).take(k as int));
    }
    assert(r@ =~= record(sel, i as int));
    r
}

fn run_select_query(
    select: &Vec<Expr>,
    filter: &Expr,
    source: &Batch,
    idx: &Vec<usize>,
    n: usize,
    Ghost(sel): Ghost<Seq<Column>>,
) -> (r: Vec<Vec<ValueType>>)
    requires
        idx@.len() == sel.len(),
        forall|k: int| 0 <= k < idx@.len() ==> (#[trigger] idx@[k]) < source.cols@.len() && source.cols@[idx@[k] as int] == sel[k],
        n == row_count(sel),
    ensures
        rows_of(r@) == select_rows(select@, *filter, sel, n as nat),
{
    let mut result: Vec<Vec<ValueType>> = Vec::new();
    let mut i: usize = 0;
    while i < n
        invariant
            i <= n,
            idx@.len() == sel.len(),
            forall|k: int| 0 <= k < idx@.len() ==> (#[trigger] idx@[k]) < source.cols@.len() && source.cols@[idx@[k] as int] == sel[k],
            n == row_count(sel),
            rows_of(result@) == select_rows(select@, *filter, sel, i as nat),
        decreases n - i,
    {
        let rec = make_record(source, idx, i, Ghost(sel));
        let keep = match filter.eval(&rec) {
            ValueType::Bool(b) => b,
            _ => false,
        };
        let ghost before = result@;
        if keep {
            let mut row: Vec<ValueType> = Vec::new();
            let mut k: usize = 0;
            while k < select.len()
                invariant
                    k <= select@.len(),
                    rec@ == record(sel, i as int),
                    row@ == projection(select@, sel, i as int).take(k as int),
                decreases select@.len() - k,
            {
                row.push(select[k].eval(&rec));
                k += 1;
                assert(row@ =~= projection(select@, sel, i as int).take(k as int));
            }
            assert(row@ =~= projection(select@, sel, i as int));
            result.push(row);
            assert(rows_of(result@) =~= rows_of(before).push(row@));
        }
        i += 1;
    }
    result
}


/// The accumulators `acc` after the aggregates `aggs` have read the row `rec`.
fn reduce_row(aggs: &Vec<(Aggregator, Expr)>, acc: &Vec<ValueType>, rec: &Vec<ValueType>, Ghost(sel): Ghost<Seq<Column>>, Ghost(i): Ghost<int>) -> (r: Vec<ValueType>)
    requires
        acc@.len() == aggs@.len(),
        rec@ == record(sel, i),
    ensures
        r@ == reduced(aggs@, acc@, sel, i),
{
    let mut r: Vec<ValueType> = Vec::new();
    let mut k: usize = 0;
    while k < aggs.len()
        invariant
            k <= aggs@.len(),
            acc@.len() == aggs@.len(),
            rec@ == record(sel, i),
            r@ == reduced(aggs@, acc@, sel, i).take(k as int),
        decreases aggs@.len() - k,
    {
        let x = aggs[k].1.eval(rec);
        r.push(aggs[k].0.reduce(&acc[k], &x));
        k += 1;
        assert(r@ =~= reduced(aggs@, acc@, sel, i).take(k as int));
    }
    assert(r@ =~= reduced(aggs@, acc@, sel, i));
    r
}

fn run_aggregation_query(
    select: &Vec<Expr>,
    filter: &Expr,
    aggs: &Vec<(Aggregator, Expr)>,
    source: &Batch,
    idx: &Vec<usize>,
    n: usize,
    Ghost(sel): Ghost<Seq<Column>>,
) -> (r: Vec<Vec<ValueType>>)
    requires
        idx@.len() == sel.len(),
        forall|k: int| 0 <= k < idx@.len() ==> (#[trigger] idx@[k]) < source.cols@.len() && source.cols@[idx@[k] as int] == sel[k],
        n == row_count(sel),
    ensures
        rows_of(r@) == ({
            let (keys, accs) = groups(select@, *filter, aggs@, sel, n as nat);
            Seq::new(keys.len(), |j: int| keys[j] + accs[j])
        }),
{
    let mut keys: Vec<Vec<ValueType>> = Vec::new();
    let mut accs: Vec<Vec<ValueType>> = Vec::new();
    let mut i: usize = 0;
    while i < n
        invariant
            i <= n,
            idx@.len() == sel.len(),
            forall|k: int| 0 <= k < idx@.len() ==> (#[trigger] idx@[k]) < source.cols@.len() && source.cols@[idx@[k] as int] == sel[k],
            n == row_count(sel),
            keys@.len() == accs@.len(),
            forall|j: int| 0 <= j < accs@.len() ==> (#[trigger] accs@[j])@.len() == aggs@.len(),
            rows_of(keys@) == groups(select@, *filter, aggs@, sel, i as nat).0,
            rows_of(accs@) == groups(select@, *filter, aggs@, sel, i as nat).1,
        decreases n - i,
    {
        let rec = make_record(source, idx, i, Ghost(sel));
        let keep = match filter.eval(&rec) {
            ValueType::Bool(b) => b,
            _ => false,
        };
        if keep {
            let mut key: Vec<ValueType> = Vec::new();
            let mut k: usize = 0;
            while k < select.len()
                invariant
                    k <= select@.len(),
                    rec@ == record(sel, i as int),
                    key@ == projection(select@, sel, i as int).take(k as int),
                decreases select@.len() - k,
            {
                key.push(select[k].eval(&rec));
                k += 1;
                assert(key@ =~= projection(select@, sel, i as int).take(k as int));
            }
            assert(key@ =~= projection(select@, sel, i as int));
            let ghost keys0 = keys@;
            let ghost accs0 = accs@;
            match find_group_of(&keys, &key) {
                Some(j) => {
                    let acc = reduce_row(aggs, &accs[j], &rec, Ghost(sel), Ghost(i as int));
                    accs.set(j, acc);
                    assert(rows_of(accs@) =~= rows_of(accs0).update(j as int, reduced(aggs@, accs0[j as int]@, sel, i as int)));
                    assert(rows_of(accs0)[j as int] == accs0[j as int]@);
                    assert(find_group(rows_of(keys0), key@) == Some(j as nat));
                    assert(passes(*filter, sel, i as int));
                    assert(groups(select@, *filter, aggs@, sel, (i + 1) as nat).1 == rows_of(accs0).update(j as int, reduced(aggs@, accs0[j as int]@, sel, i as int)));
                },
                None => {
                    let mut zeros: Vec<ValueType> = Vec::new();
                    let mut k: usize = 0;
                    while k < aggs.len()
                        invariant
                            k <= aggs@.len(),
                            zeros@ == Seq::new(aggs@.len(), |k: int| ValueType::Integer(0)).take(k as int),
                        decreases aggs@.len() - k,
                    {
                        zeros.push(aggs[k].0.zero());
                        k += 1;
                        assert(zeros@ =~= Seq::new(aggs@.len(), |k: int| ValueType::Integer(0)).take(k as int));
                    }
                    assert(zeros@ =~= Seq::new(aggs@.len(), |k: int| ValueType::Integer(0)));
                    let acc = reduce_row(aggs, &zeros, &rec, Ghost(sel), Ghost(i as int));
                    keys.push(key);
                    accs.push(acc);
                    assert(rows_of(keys@) =~= rows_of(keys0).push(key@));
                    assert(rows_of(accs@) =~= rows_of(accs0).push(acc@));
                    assert(groups(select@, *filter, aggs@, sel, (i + 1) as nat).1 == rows_of(accs0).push(acc@));
                },
            }
        }
        i += 1;
    }
    let mut result: Vec<Vec<ValueType>> = Vec::new();
    let mut j: usize = 0;
    while j < keys.len()
        invariant
            j <= keys@.len(),
            keys@.len() == accs@.len(),
            rows_of(result@) == Seq::new(keys@.len() as nat, |j: int| keys@[j]@ + accs@[j]@).take(j as int),
        decreases keys@.len() - j,
    {
        let mut row = copy_row(&keys[j]);
        let mut tail = copy_row(&accs[j]);
        let ghost r0 = row@;
        row.append(&mut tail);
        let ghost before = result@;
        result.push(row);
        j += 1;
        assert(rows_of(result@) =~= rows_of(before).push(row@));
        assert(rows_of(result@) =~= Seq::new(keys@.len() as nat, |j: int| keys@[j]@ + accs@[j]@).take(j as int));
    }
    assert(rows_of(result@) =~= Seq::new(keys@.len() as nat, |j: int| keys@[j]@ + accs@[j]@));
    assert(rows_of(keys@).len() == keys@.len());
    assert(Seq::new(keys@.len() as nat, |j: int| keys@[j]@ + accs@[j]@) =~= ({
        let (ks, acs) = groups(select@, *filter, aggs@, sel, n as nat);
        Seq::new(ks.len(), |j: int| ks[j] + acs[j])
    }));
    result
}


/// Relies on time::precise_time_ns: a reading of a high-resolution clock, in nanoseconds.
/// Nothing is assumed of the value.
#[verifier::external_body]
fn precise_time_ns() -> (r: u64) {
    time::precise_time_ns()
}

/// The names of the columns of `source` at the positions `idx`.
fn create_colname_map(source: &Batch, idx: &Vec<usize>, Ghost(sel): Ghost<Seq<Column>>) -> (r: Vec<String>)
    requires
        idx@.len() == sel.len(),
        forall|k: int| 0 <= k < idx@.len() ==> (#[trigger] idx@[k]) < source.cols@.len() && source.cols@[idx@[k] as int] == sel[k],
    ensures
        r@ == column_names(sel),
{
    let mut names: Vec<String> = Vec::new();
    let mut k: usize = 0;
    while k < idx.len()
        invariant
            k <= idx@.len(),
            idx@.len() == sel.len(),
            forall|k: int| 0 <= k < idx@.len() ==> (#[trigger] idx@[k]) < source.cols@.len() && source.cols@[idx@[k] as int] == sel[k],
            names@ == column_names(sel).take(k as int),
        decreases idx@.len() - k,
    {
        let c = idx[k];
        assert(sel[k as int] == source.cols@[c as int]);
        names.push(source.cols[c].name.clone());
        k += 1;
        assert(names@ =~= column_names(sel).take(k as int));
    }
    assert(names@ =~= column_names(sel));
    names
}

/// What a query returns for the rows `rows` of its evaluation: non-aggregate rows pass
/// through the limit clause.
pub open spec fn finished(q: &Query, rows: Seq<Seq<ValueType>>) -> Seq<Seq<ValueType>> {
    if q.aggregate@.len() == 0 {
        limited(rows, q.limit)
    } else {
        rows
    }
}

/// The rows that `limit` lets through.
fn apply_limit(rows: Vec<Vec<ValueType>>, limit: Option<LimitClause>) -> (r: Vec<Vec<ValueType>>)
    ensures
        rows_of(r@) == limited(rows_of(rows@), limit),
{
    match limit {
        None => rows,
        Some(l) => {
            let len = rows.len();
            let start: usize = if l.offset <= len as u64 { l.offset as usize } else { len };
            let end: usize = if l.limit <= (len - start) as u64 { start + l.limit as usize } else { len };
            let mut r: Vec<Vec<ValueType>> = Vec::new();
            let mut j: usize = start;
            while j < end
                invariant
                    start <= j <= end,
                    end <= rows@.len(),
                    rows_of(r@) == rows_of(rows@).subrange(start as int, j as int),
                decreases end - j,
            {
                let ghost before = r@;
                let row = copy_row(&rows[j]);
                r.push(row);
                assert(rows_of(r@) =~= rows_of(before).push(row@));
                j += 1;
                assert(rows_of(r@) =~= rows_of(rows@).subrange(start as int, j as int));
            }
            r
        },
    }
}

impl Query {
    /// The columns of `source` that this query reads, by position in batch order.
    fn select_columns(&self, source: &Batch, refs: &Vec<String>) -> (r: Vec<usize>)
        requires
            forall|n: Seq<char>| #[trigger] lists(refs@, n) == self.mentions(n),
        ensures
            r@.len() == selected(source.cols@, self).len(),
            forall|k: int| 0 <= k < r@.len() ==> (#[trigger] r@[k]) < source.cols@.len() && source.cols@[r@[k] as int] == selected(source.cols@, self)[k],
    {
        let mut idx: Vec<usize> = Vec::new();
        let mut c: usize = 0;
        while c < source.cols.len()
            invariant
                c <= source.cols@.len(),
                forall|n: Seq<char>| #[trigger] lists(refs@, n) == self.mentions(n),
                idx@.len() == selected(source.cols@.take(c as int), self).len(),
                forall|k: int| 0 <= k < idx@.len() ==> (#[trigger] idx@[k]) < c && source.cols@[idx@[k] as int] == selected(source.cols@.take(c as int), self)[k],
            decreases source.cols@.len() - c,
        {
            let ghost cols = source.cols@;
            assert(cols.take(c + 1).drop_last() =~= cols.take(c as int));
            assert(cols.take(c + 1).last() == cols[c as int]);
            let found = crate::expression::position_of(refs, &source.cols[c].name);
            if found.is_some() {
                idx.push(c);
            }
            c += 1;
        }
        assert(source.cols@.take(c as int) =~= source.cols@);
        idx
    }

    /// The rows that this query yields on `source`, before the limit clause, and how
    /// many rows it read.
    fn evaluate(&self, source: &Batch) -> (r: (Vec<Vec<ValueType>>, u64))
        ensures
            rows_of(r.0@) == self.batch_rows(source),
            r.1 == self.batch_scanned(source),
    {
        let refs = self.find_referenced_cols();
        let idx = self.select_columns(source, &refs);
        let ghost sel = selected(source.cols@, self);
        let names = create_colname_map(source, &idx, Ghost(sel));
        let mut n: usize = 0;
        if idx.len() > 0 {
            n = source.cols[idx[0]].data.len();
            assert(sel.take(1).len() == 1);
            let mut k: usize = 1;
            while k < idx.len()
                invariant
                    1 <= k <= idx@.len(),
                    idx@.len() == sel.len(),
                    forall|k: int| 0 <= k < idx@.len() ==> (#[trigger] idx@[k]) < source.cols@.len() && source.cols@[idx@[k] as int] == sel[k],
                    n == row_count(sel.take(k as int)),
                decreases idx@.len() - k,
            {
                assert(sel.take(k + 1).drop_last() =~= sel.take(k as int));
                assert(sel.take(k + 1).last() == sel[k as int]);
                let l = source.cols[idx[k]].data.len();
                if l < n {
                    n = l;
                }
                k += 1;
            }
            assert(sel.take(k as int) =~= sel);
        }
        let mut select: Vec<Expr> = Vec::new();
        let mut i: usize = 0;
        while i < self.select.len()
            invariant
                i <= self.select@.len(),
                select@ == self.compiled_select(names@).take(i as int),
            decreases self.select@.len() - i,
        {
            select.push(self.select[i].compile(&names));
            i += 1;
            assert(select@ =~= self.compiled_select(names@).take(i as int));
        }
        assert(select@ =~= self.compiled_select(names@));
        let filter = self.filter.compile(&names);
        let rows = if self.aggregate.len() == 0 {
            run_select_query(&select, &filter, source, &idx, n, Ghost(sel))
        } else {
            let mut aggs: Vec<(Aggregator, Expr)> = Vec::new();
            let mut k: usize = 0;
            while k < self.aggregate.len()
                invariant
                    k <= self.aggregate@.len(),
                    aggs@ == self.compiled_aggregate(names@).take(k as int),
                decreases self.aggregate@.len() - k,
            {
                let a = self.aggregate[k].0;
                aggs.push((a, self.aggregate[k].1.compile(&names)));
                k += 1;
                assert(aggs@ =~= self.compiled_aggregate(names@).take(k as int));
            }
            assert(aggs@ =~= self.compiled_aggregate(names@));
            run_aggregation_query(&select, &filter, &aggs, source, &idx, n, Ghost(sel))
        };
        (rows, n as u64)
    }

    /// Runs the query on one batch.
    pub fn run(&self, source: &Batch) -> (r: QueryResult)
        ensures
            texts(r.colnames@) == self.spec_column_names(),
            r.colnames@.len() == self.select@.len() + self.aggregate@.len(),
            rows_of(r.rows@) == finished(self, self.batch_rows(source)),
            r.stats.rows_scanned == self.batch_scanned(source),
    {
        let start_time_ns = precise_time_ns();
        let (rows, rows_scanned) = self.evaluate(source);
        let rows = if self.aggregate.len() == 0 {
            apply_limit(rows, self.limit)
        } else {
            rows
        };
        let end_time_ns = precise_time_ns();
        let runtime_ns = if end_time_ns >= start_time_ns {
            end_time_ns - start_time_ns
        } else {
            0
        };
        QueryResult {
            colnames: self.result_column_names(),
            rows,
            stats: QueryStats { runtime_ns, rows_scanned },
        }
    }
}


proof fn lemma_groups_lengths(
    select: Seq<Expr>,
    filter: Expr,
    aggs: Seq<(Aggregator, Expr)>,
    sel: Seq<Column>,
    n: nat,
)
    ensures
        groups(select, filter, aggs, sel, n).0.len() == groups(select, filter, aggs, sel, n).1.len(),
        forall|j: int| 0 <= j < groups(select, filter, aggs, sel, n).0.len() ==> (#[trigger] groups(select, filter, aggs, sel, n).0[j]).len() == select.len(),
        forall|j: int| 0 <= j < groups(select, filter, aggs, sel, n).1.len() ==> (#[trigger] groups(select, filter, aggs, sel, n).1[j]).len() == aggs.len(),
    decreases n,
{
    if n > 0 {
        lemma_groups_lengths(select, filter, aggs, sel, (n - 1) as nat);
        let (keys, accs) = groups(select, filter, aggs, sel, (n - 1) as nat);
        lemma_find_group_bound(keys, projection(select, sel, n - 1));
    }
}

proof fn lemma_find_group_bound(keys: Seq<Seq<ValueType>>, key: Seq<ValueType>)
    ensures
        find_group(keys, key) matches Some(j) ==> j < keys.len(),
    decreases keys.len(),
{
    if keys.len() > 0 {
        lemma_find_group_bound(keys.drop_last(), key);
    }
}

/// The aggregators of a query, in order.
pub open spec fn aggregators(q: &Query) -> Seq<Aggregator> {
    q.aggregate@.map_values(|a: (Aggregator, Expr)| a.0)
}

/// The group keys (first `s` values) of the rows `rows`.
pub open spec fn keys_of(rows: Seq<Seq<ValueType>>, s: nat) -> Seq<Seq<ValueType>> {
    rows.map_values(|r: Seq<ValueType>| r.take(s as int))
}

/// The rows `rows` after the aggregate row `row` of another batch joins them: its
/// accumulators merge into those of the row with the same key, or it is added.
pub open spec fn merge_row(rows: Seq<Seq<ValueType>>, row: Seq<ValueType>, aggs: Seq<Aggregator>, s: nat) -> Seq<Seq<ValueType>> {
    match find_group(keys_of(rows, s), row.take(s as int)) {
        Some(j) => rows.update(
            j as int,
            rows[j as int].take(s as int) + Seq::new(
                aggs.len(),
                |k: int| aggs[k].spec_merge(rows[j as int][s + k], row[s + k]),
            ),
        ),
        None => rows.push(row),
    }
}

/// The rows `rows` after all of `more` have joined them, in order.
pub open spec fn merge_rows(rows: Seq<Seq<ValueType>>, more: Seq<Seq<ValueType>>, aggs: Seq<Aggregator>, s: nat) -> Seq<Seq<ValueType>>
    decreases more.len(),
{
    if more.len() == 0 {
        rows
    } else {
        merge_row(merge_rows(rows, more.drop_last(), aggs, s), more.last(), aggs, s)
    }
}

impl Query {
    /// The rows of the query over the first `m` of `batches`: concatenated, or for an
    /// aggregate query with the groups of equal key merged.
    pub open spec fn combined_rows(&self, batches: Seq<Batch>, m: nat) -> Seq<Seq<ValueType>>
        decreases m,
    {
        if m == 0 {
            Seq::empty()
        } else if self.aggregate@.len() == 0 {
            self.combined_rows(batches, (m - 1) as nat) + self.batch_rows(&batches[m - 1])
        } else {
            merge_rows(
                self.combined_rows(batches, (m - 1) as nat),
                self.batch_rows(&batches[m - 1]),
                aggregators(self),
                self.select@.len(),
            )
        }
    }

    /// The rows read over the first `m` of `batches`.
    pub open spec fn combined_scanned(&self, batches: Seq<Batch>, m: nat) -> nat
        decreases m,
    {
        if m == 0 {
            0
        } else {
            self.combined_scanned(batches, (m - 1) as nat) + self.batch_scanned(&batches[m - 1])
        }
    }
}

/// Whether the first `s` values of `a` and `b` are equal value by value.
fn keys_same(a: &Vec<ValueType>, b: &Vec<ValueType>, s: usize) -> (r: bool)
    requires
        s <= a@.len(),
        s <= b@.len(),
    ensures
        r == same_row(a@.take(s as int), b@.take(s as int)),
{
    let mut i: usize = 0;
    while i < s
        invariant
            i <= s,
            s <= a@.len(),
            s <= b@.len(),
            forall|j: int| 0 <= j < i ==> (#[trigger] a@[j]).same(b@[j]),
        decreases s - i,
    {
        if !a[i].same_as(&b[i]) {
            assert(a@.take(s as int)[i as int] == a@[i as int]);
            return false;
        }
        i += 1;
    }
    assert forall|j: int| 0 <= j < s implies (#[trigger] a@.take(s as int)[j]).same(b@.take(s as int)[j]) by {
        assert(a@.take(s as int)[j] == a@[j]);
    }
    true
}

/// Adds the aggregate row `row` of another batch to `rows`, merging equal keys.
fn merge_into(rows: &mut Vec<Vec<ValueType>>, row: Vec<ValueType>, aggs: &Vec<Aggregator>, s: usize)
    requires
        row@.len() == s + aggs@.len(),
        forall|j: int| 0 <= j < old(rows)@.len() ==> (#[trigger] old(rows)@[j])@.len() == s + aggs@.len(),
    ensures
        rows_of(final(rows)@) == merge_row(rows_of(old(rows)@), row@, aggs@, s as nat),
        forall|j: int| 0 <= j < final(rows)@.len() ==> (#[trigger] final(rows)@[j])@.len() == s + aggs@.len(),
{
    let ghost r0 = rows_of(rows@);
    let mut end: usize = rows.len();
    assert(keys_of(r0, s as nat).take(end as int) =~= keys_of(r0, s as nat));
    while end > 0
        invariant
            end <= rows@.len(),
            r0 == rows_of(rows@),
            r0 == rows_of(old(rows)@),
            row@.len() == s + aggs@.len(),
            forall|j: int| 0 <= j < rows@.len() ==> (#[trigger] rows@[j])@.len() == s + aggs@.len(),
            find_group(keys_of(r0, s as nat).take(end as int), row@.take(s as int)) == find_group(keys_of(r0, s as nat), row@.take(s as int)),
        decreases end,
    {
        let ghost ks = keys_of(r0, s as nat);
        assert(ks.take(end as int).drop_last() =~= ks.take(end - 1));
        assert(ks.take(end as int).last() == rows@[end - 1]@.take(s as int));
        if keys_same(&rows[end - 1], &row, s) {
            let j = end - 1;
            assert(find_group(keys_of(r0, s as nat), row@.take(s as int)) == Some(j as nat));
            let total = row.len();
            let mut merged: Vec<ValueType> = Vec::new();
            let mut i: usize = 0;
            while i < s
                invariant
                    i <= s,
                    j < rows@.len(),
                    rows@[j as int]@.len() == s + aggs@.len(),
                    merged@ == rows@[j as int]@.take(i as int),
                decreases s - i,
            {
                merged.push(rows[j][i].duplicate());
                i += 1;
                assert(merged@ =~= rows@[j as int]@.take(i as int));
            }
            let ghost key = merged@;
            let mut k: usize = 0;
            while k < aggs.len()
                invariant
                    k <= aggs@.len(),
                    j < rows@.len(),
                    rows@[j as int]@.len() == s + aggs@.len(),
                    row@.len() == s + aggs@.len(),
                    total == row@.len(),
                    merged@ == key + Seq::new(aggs@.len(), |k: int| aggs@[k].spec_merge(rows@[j as int]@[s + k], row@[s + k])).take(k as int),
                decreases aggs@.len() - k,
            {
                merged.push(aggs[k].merge(&rows[j][s + k], &row[s + k]));
                k += 1;
                assert(merged@ =~= key + Seq::new(aggs@.len(), |k: int| aggs@[k].spec_merge(rows@[j as int]@[s + k], row@[s + k])).take(k as int));
            }
            let ghost before = rows@;
            rows.set(j, merged);
            assert(rows_of(rows@) =~= r0.update(j as int, merged@));
            assert(merged@ =~= r0[j as int].take(s as int) + Seq::new(aggs@.len(), |k: int| aggs@[k].spec_merge(r0[j as int][s + k], row@[s + k])));
            assert forall|i: int| 0 <= i < rows@.len() implies (#[trigger] rows@[i])@.len() == s + aggs@.len() by {
                if i != j {
                    assert(rows@[i] == before[i]);
                }
            }
            assert(rows_of(rows@) =~= merge_row(r0, row@, aggs@, s as nat));
            return;
        }
        end -= 1;
    }
    let ghost before = rows@;
    rows.push(row);
    assert(rows_of(rows@) =~= r0.push(row@));
    assert forall|i: int| 0 <= i < rows@.len() implies (#[trigger] rows@[i])@.len() == s + aggs@.len() by {
        if i < before.len() {
            assert(rows@[i] == before[i]);
        }
    }
}


/// `x`, or `u64::MAX` where `x` is larger.
pub open spec fn capped(x: nat) -> u64 {
    if x <= u64::MAX {
        x as u64
    } else {
        u64::MAX
    }
}

proof fn lemma_batch_row_lengths(q: &Query, source: &Batch)
    requires
        q.aggregate@.len() > 0,
    ensures
        forall|j: int| 0 <= j < q.batch_rows(source).len() ==> (#[trigger] q.batch_rows(source)[j]).len() == q.select@.len() + q.aggregate@.len(),
{
    let sel = selected(source.cols@, q);
    let names = column_names(sel);
    lemma_groups_lengths(q.compiled_select(names), q.filter.spec_compile(names), q.compiled_aggregate(names), sel, row_count(sel));
}

impl Query {
    /// Runs the query on each batch in turn and combines the results: rows are
    /// concatenated, except that an aggregate query merges the groups of equal key, and
    /// the statistics are added.
    pub fn run_batches(&self, batches: &Vec<Batch>) -> (r: QueryResult)
        ensures
            texts(r.colnames@) == self.spec_column_names(),
            r.colnames@.len() == self.select@.len() + self.aggregate@.len(),
            rows_of(r.rows@) == finished(self, self.combined_rows(batches@, batches@.len())),
            r.stats.rows_scanned == capped(self.combined_scanned(batches@, batches@.len())),
    {
        let s = self.select.len();
        let mut aggs: Vec<Aggregator> = Vec::new();
        let mut k: usize = 0;
        while k < self.aggregate.len()
            invariant
                k <= self.aggregate@.len(),
                aggs@ == aggregators(self).take(k as int),
            decreases self.aggregate@.len() - k,
        {
            aggs.push(self.aggregate[k].0);
            k += 1;
            assert(aggs@ =~= aggregators(self).take(k as int));
        }
        assert(aggs@ =~= aggregators(self));
        let mut combined_rows: Vec<Vec<ValueType>> = Vec::new();
        let mut runtime_ns: u64 = 0;
        let mut rows_scanned: u64 = 0;
        let mut b: usize = 0;
        while b < batches.len()
            invariant
                b <= batches@.len(),
                s == self.select@.len(),
                aggs@ == aggregators(self),
                aggs@.len() == self.aggregate@.len(),
                rows_of(combined_rows@) == self.combined_rows(batches@, b as nat),
                self.aggregate@.len() > 0 ==> forall|j: int| 0 <= j < combined_rows@.len() ==> (#[trigger] combined_rows@[j])@.len() == s + aggs@.len(),
                rows_scanned == capped(self.combined_scanned(batches@, b as nat)),
            decreases batches@.len() - b,
        {
            let start_time_ns = precise_time_ns();
            let (mut rows, scanned) = self.evaluate(&batches[b]);
            let end_time_ns = precise_time_ns();
            let ghost prev = rows_of(combined_rows@);
            if self.aggregate.len() == 0 {
                combined_rows.append(&mut rows);
                assert(rows_of(combined_rows@) =~= prev + self.batch_rows(&batches@[b as int]));
            } else {
                proof {
                    lemma_batch_row_lengths(self, &batches@[b as int]);
                }
                let mut t: usize = 0;
                while t < rows.len()
                    invariant
                        t <= rows@.len(),
                        s == self.select@.len(),
                        aggs@.len() == self.aggregate@.len(),
                        self.aggregate@.len() > 0,
                        rows_of(rows@) == self.batch_rows(&batches@[b as int]),
                        forall|j: int| 0 <= j < rows_of(rows@).len() ==> (#[trigger] rows_of(rows@)[j]).len() == s + aggs@.len(),
                        forall|j: int| 0 <= j < combined_rows@.len() ==> (#[trigger] combined_rows@[j])@.len() == s + aggs@.len(),
                        rows_of(combined_rows@) == merge_rows(prev, rows_of(rows@).take(t as int), aggs@, s as nat),
                    decreases rows@.len() - t,
                {
                    assert(rows_of(rows@)[t as int] == rows@[t as int]@);
                    let row = copy_row(&rows[t]);
                    merge_into(&mut combined_rows, row, &aggs, s);
                    assert(rows_of(rows@).take(t + 1).drop_last() =~= rows_of(rows@).take(t as int));
                    t += 1;
                }
                assert(rows_of(rows@).take(t as int) =~= rows_of(rows@));
            }
            let runtime = if end_time_ns >= start_time_ns {
                end_time_ns - start_time_ns
            } else {
                0
            };
            runtime_ns = runtime_ns.saturating_add(runtime);
            rows_scanned = rows_scanned.saturating_add(scanned);
            b += 1;
        }
        let rows = if self.aggregate.len() == 0 {
            apply_limit(combined_rows, self.limit)
        } else {
            combined_rows
        };
        QueryResult {
            colnames: self.result_column_names(),
            rows,
            stats: QueryStats { runtime_ns, rows_scanned },
        }
    }
}

/// Every scanned row is emitted at most once: a select query never yields more rows
/// than it reads.
pub proof fn lemma_select_rows_bounded(select: Seq<Expr>, filter: Expr, sel: Seq<Column>, n: nat)
    ensures
        select_rows(select, filter, sel, n).len() <= n,
    decreases n,
{
    if n > 0 {
        lemma_select_rows_bounded(select, filter, sel, (n - 1) as nat);
    }
}

} // verus!

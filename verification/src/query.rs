//! The query executor: row reconstruction across sparse column files,
//! optional grouping with partial aggregation, and cross-shard merging
//! of results.
//!
//! Rows are rebuilt by walking the index and one cursor per projected
//! column: because a column file's row-ids strictly increase and refer
//! to index rows, each cursor advances past stale entries, yields its
//! value on the matching row, and stands still when the column has no
//! entry for the row, which reads as null.

use vstd::prelude::*;
use crate::aggregate::{
    aggregate_behavior, compute_behavior, gv_views, spec_init_components, GroupValue,
};
use crate::column::{
    col_views, name_views, spec_col_position, AggregateColumn, Aggregate, ColView, Column,
};
use crate::error::DbError;
use crate::row::{pair_views, spec_group_pairs, spec_row_value, AggregatedRow, GroupKey, Row};
use crate::storage::{file_views, Database, EntryView, Table};
use crate::value::{ColumnValue, FloatArith, ValueView};

verus! {

/// The value a column file holds for a row: the value of its entry with
/// that row-id, or null when no entry has it.
pub open spec fn spec_column_value_at(entries: Seq<EntryView>, row_id: int) -> ValueView
    decreases entries.len(),
{
    if entries.len() == 0 {
        ValueView::Null
    } else if entries[0].index_id == row_id {
        entries[0].value
    } else {
        spec_column_value_at(entries.drop_first(), row_id)
    }
}

proof fn lemma_column_value_none(entries: Seq<EntryView>, row_id: int)
    requires
        forall|x: int| 0 <= x < entries.len() ==> (#[trigger] entries[x]).index_id != row_id,
    ensures
        spec_column_value_at(entries, row_id) == ValueView::Null,
    decreases entries.len(),
{
    if entries.len() > 0 {
        lemma_column_value_none(entries.drop_first(), row_id);
    }
}

/// With the cursor past every entry below `row_id`, the entry under the
/// cursor decides the column's value for the row.
proof fn lemma_column_value_at_cursor(entries: Seq<EntryView>, row_id: int, p: int)
    requires
        forall|x: int|
            0 < x < entries.len() ==> (entries[x - 1]).index_id < (#[trigger] entries[x]).index_id,
        0 <= p <= entries.len(),
        forall|x: int| 0 <= x < p ==> ((#[trigger] entries[x]).index_id as int) < row_id,
        p < entries.len() ==> (entries[p].index_id as int) >= row_id,
    ensures
        p < entries.len() && entries[p].index_id == row_id ==> spec_column_value_at(
            entries,
            row_id,
        ) == entries[p].value,
        p == entries.len() || entries[p].index_id != row_id ==> spec_column_value_at(
            entries,
            row_id,
        ) == ValueView::Null,
    decreases p,
{
    if p == 0 {
        if entries.len() > 0 && entries[0].index_id != row_id {
            assert forall|x: int|
                0 <= x < entries.len() implies (#[trigger] entries[x]).index_id != row_id by {
                if x > 0 {
                    lemma_sorted_entries_after(entries, 0, x);
                }
            }
            lemma_column_value_none(entries, row_id);
        } else if entries.len() == 0 {
        }
    } else {
        let rest = entries.drop_first();
        assert((entries[0].index_id as int) < row_id);
        assert forall|x: int|
            0 < x < rest.len() implies (rest[x - 1]).index_id < (#[trigger] rest[x]).index_id by {
            assert(rest[x - 1] == entries[x]);
            assert(rest[x] == entries[x + 1]);
        }
        assert forall|x: int| 0 <= x < p - 1 implies ((#[trigger] rest[x]).index_id as int)
            < row_id by {
            assert(rest[x] == entries[x + 1]);
        }
        if p - 1 < rest.len() {
            assert(rest[p - 1] == entries[p as int]);
        }
        lemma_column_value_at_cursor(rest, row_id, p - 1);
    }
}

/// Row-ids keep growing after any position, by the strict ordering.
proof fn lemma_sorted_entries_after(entries: Seq<EntryView>, a: int, b: int)
    requires
        forall|x: int|
            0 < x < entries.len() ==> (entries[x - 1]).index_id < (#[trigger] entries[x]).index_id,
        0 <= a < b < entries.len(),
    ensures
        entries[a].index_id < entries[b].index_id,
    decreases b - a,
{
    if b > a + 1 {
        lemma_sorted_entries_after(entries, a, b - 1);
    }
}

/// The pairs of one reconstructed row: each selected column with the
/// value its file holds for the row.
pub open spec fn spec_scanned_pairs(
    files: Seq<crate::storage::ColumnFileView>,
    columns: Seq<ColView>,
    cols: Seq<ColView>,
    k: int,
) -> Seq<(ColView, ValueView)> {
    Seq::new(
        cols.len(),
        |c: int| (
            cols[c],
            spec_column_value_at(
                files[spec_col_position(columns, cols[c].name)].entries,
                k,
            ),
        ),
    )
}

/// One node's result: plain rows, or one aggregated row per group.
pub enum QueryResult {
    Rows(Vec<Row>),
    AggregatedRows(Vec<AggregatedRow>),
}

impl QueryResult {
    pub fn is_empty(&self) -> (r: bool)
        ensures
            r == (match self {
                QueryResult::Rows(rows) => rows@.len() == 0,
                QueryResult::AggregatedRows(ars) => ars@.len() == 0,
            }),
    {
        match self {
            QueryResult::Rows(rows) => rows.len() == 0,
            QueryResult::AggregatedRows(ars) => ars.len() == 0,
        }
    }
}


/// Advances one column cursor to row `k` and reads the column's value
/// for that row: entries below `k` are skipped, a matching entry yields
/// its value and is consumed, and a higher entry stays for a later row.
#[verifier::loop_isolation(false)]
#[verifier::rlimit(100)]
fn scan_column_value(file: &crate::storage::ColumnFile, cursor: usize, k: usize) -> (r: (
    usize,
    ColumnValue,
))
    requires
        ({
            let entries = crate::storage::entry_views(file.entries@);
            &&& cursor <= entries.len()
            &&& (forall|x: int|
                0 < x < entries.len() ==> (entries[x - 1]).index_id < (
                #[trigger] entries[x]).index_id)
            &&& (forall|x: int|
                0 <= x < cursor ==> ((#[trigger] entries[x]).index_id as int) < k)
        }),
    ensures
        ({
            let entries = crate::storage::entry_views(file.entries@);
            &&& cursor <= r.0 <= entries.len()
            &&& (forall|x: int|
                0 <= x < r.0 ==> ((#[trigger] entries[x]).index_id as int) < k + 1)
            &&& (r.0 < entries.len() ==> ((entries[r.0 as int].index_id) as int) >= k + 1)
            &&& r.1@ == spec_column_value_at(entries, k as int)
        }),
{
    let ghost entries = crate::storage::entry_views(file.entries@);
    let e_len: usize = file.entries.len();
    let mut cur: usize = cursor;
    while cur < e_len && file.entries[cur].index_id < k as u64
        invariant
            cursor <= cur <= e_len,
            forall|x: int| 0 <= x < cur ==> ((#[trigger] entries[x]).index_id as int) < k,
        decreases e_len - cur,
    {
        proof {
            assert(entries[cur as int] == file.entries@[cur as int]@);
        }
        cur += 1;
    }
    proof {
        if cur < e_len {
            assert(entries[cur as int] == file.entries@[cur as int]@);
        }
        lemma_column_value_at_cursor(entries, k as int, cur as int);
    }
    if cur < e_len && file.entries[cur].index_id == k as u64 {
        let v = file.entries[cur].value.duplicate();
        proof {
            assert(entries[cur as int] == file.entries@[cur as int]@);
            if cur + 1 < e_len {
                assert(entries[cur + 1].index_id > entries[cur as int].index_id);
            }
        }
        (cur + 1, v)
    } else {
        (cur, ColumnValue::Null)
    }
}

impl Table {
    /// Reconstructs every row of the table over the given resolved
    /// columns, in row-id order; a column without an entry for a row
    /// contributes null. The result is exactly determined by the stored
    /// entries.
    #[verifier::loop_isolation(false)]
    #[verifier::rlimit(100)]
    pub fn query_values(&self, columns: &Vec<Column>) -> (rows: Vec<Row>)
        requires
            self.wf(),
            forall|c: int|
                0 <= c < columns@.len() ==> crate::column::spec_find_column(
                    col_views(self.definition.columns@),
                    ((#[trigger] columns@[c])@).name,
                ) == Some((columns@[c])@),
        ensures
            rows@.len() == self.index@.len(),
            forall|k: int|
                0 <= k < rows@.len() ==> {
                    &&& (#[trigger] rows@[k]).index_id == self.index@[k].index_id
                    &&& rows@[k].timestamp == self.index@[k].timestamp
                    &&& pair_views(rows@[k].values@) == spec_scanned_pairs(
                        file_views(self.files@),
                        col_views(self.definition.columns@),
                        col_views(columns@),
                        k,
                    )
                },
    {
        let ghost colsv = col_views(self.definition.columns@);
        let ghost selv = col_views(columns@);
        let m: usize = columns.len();
        // Locate each selected column's file once.
        let mut pos: Vec<usize> = Vec::new();
        let mut c0: usize = 0;
        while c0 < m
            invariant
                0 <= c0 <= m,
                pos@.len() == c0,
                forall|c: int|
                    0 <= c < c0 ==> ((#[trigger] pos@[c]) as int) == spec_col_position(
                        colsv,
                        selv[c].name,
                    ),
                forall|c: int| 0 <= c < c0 ==> ((#[trigger] pos@[c]) as int) < self.files@.len(),
            decreases m - c0,
        {
            proof {
                assert(selv[c0 as int] == (columns@[c0 as int])@);
                crate::column::lemma_find_is_position(colsv, selv[c0 as int].name);
            }
            match crate::storage::position_of_file(&self.files, columns[c0].name.as_str()) {
                Some(j) => {
                    proof {
                        let p = spec_col_position(colsv, selv[c0 as int].name);
                        assert forall|k: int| 0 <= k < j implies (#[trigger] colsv[k]).name
                            != selv[c0 as int].name by {
                            assert(((self.files@[k]).column)@.name != selv[c0 as int].name);
                            assert(file_views(self.files@)[k].column == colsv[k]);
                        }
                        assert(colsv[j as int].name == selv[c0 as int].name) by {
                            assert(file_views(self.files@)[j as int].column == colsv[j as int]);
                        }
                        crate::column::lemma_col_position_at(colsv, selv[c0 as int].name, j as int);
                    }
                    pos.push(j);
                },
                None => {
                    proof {
                        let p = spec_col_position(colsv, selv[c0 as int].name);
                        assert(0 <= p < colsv.len());
                        assert(file_views(self.files@)[p].column == colsv[p]);
                        assert(((self.files@[p]).column)@.name == selv[c0 as int].name);
                        assert(false);
                    }
                },
            }
            c0 += 1;
        }
        let n: usize = self.index.len();
        let mut cursors: Vec<usize> = Vec::new();
        let mut c1: usize = 0;
        while c1 < m
            invariant
                0 <= c1 <= m,
                cursors@.len() == c1,
                forall|c: int| 0 <= c < c1 ==> (#[trigger] cursors@[c]) == 0,
            decreases m - c1,
        {
            cursors.push(0);
            c1 += 1;
        }
        let mut rows: Vec<Row> = Vec::new();
        let mut k: usize = 0;
        while k < n
            invariant
                0 <= k <= n,
                n == self.index@.len(),
                pos@.len() == m,
                cursors@.len() == m,
                forall|c: int|
                    0 <= c < m ==> ((#[trigger] pos@[c]) as int) == spec_col_position(
                        colsv,
                        selv[c].name,
                    ),
                forall|c: int| 0 <= c < m ==> ((#[trigger] pos@[c]) as int) < self.files@.len(),
                forall|c: int|
                    0 <= c < m ==> ((#[trigger] cursors@[c]) as int) <= file_views(
                        self.files@,
                    )[pos@[c] as int].entries.len(),
                forall|c: int, x: int|
                    0 <= c < m && 0 <= x < cursors@[c] ==> ((#[trigger] file_views(
                        self.files@,
                    )[pos@[c] as int].entries[x]).index_id as int) < k,
                forall|c: int|
                    0 <= c < m && cursors@[c] < file_views(self.files@)[(
                    #[trigger] pos@[c]) as int].entries.len() ==> (file_views(self.files@)[
                        pos@[c] as int].entries[cursors@[c] as int].index_id as int) >= k,
                rows@.len() == k,
                forall|x: int|
                    0 <= x < k ==> {
                        &&& (#[trigger] rows@[x]).index_id == self.index@[x].index_id
                        &&& rows@[x].timestamp == self.index@[x].timestamp
                        &&& pair_views(rows@[x].values@) == spec_scanned_pairs(
                            file_views(self.files@),
                            colsv,
                            selv,
                            x,
                        )
                    },
            decreases n - k,
        {
            let mut comps: Vec<(Column, ColumnValue)> = Vec::new();
            let mut c: usize = 0;
            while c < m
                invariant
                    0 <= c <= m,
                    k < n,
                    comps@.len() == c,
                    cursors@.len() == m,
                    forall|c2: int|
                        0 <= c2 < m ==> ((#[trigger] cursors@[c2]) as int) <= file_views(
                            self.files@,
                        )[pos@[c2] as int].entries.len(),
                    forall|c2: int, x: int|
                        0 <= c2 < m && 0 <= x < cursors@[c2] ==> ((#[trigger] file_views(
                            self.files@,
                        )[pos@[c2] as int].entries[x]).index_id as int) < (if c2 < c {
                            k + 1
                        } else {
                            k as int
                        }),
                    forall|c2: int|
                        0 <= c2 < m && cursors@[c2] < file_views(self.files@)[(
                        #[trigger] pos@[c2]) as int].entries.len() ==> (file_views(self.files@)[
                            pos@[c2] as int].entries[cursors@[c2] as int].index_id as int) >= (
                        if c2 < c {
                            k + 1
                        } else {
                            k as int
                        }),
                    forall|c2: int|
                        0 <= c2 < c ==> (#[trigger] pair_views(comps@)[c2]) == spec_scanned_pairs(
                            file_views(self.files@),
                            colsv,
                            selv,
                            k as int,
                        )[c2],
                decreases m - c,
            {
                let j: usize = pos[c];
                let ghost entries = file_views(self.files@)[j as int].entries;
                proof {
                    assert(file_views(self.files@)[j as int] == self.files@[j as int]@);
                    assert(crate::storage::wf_column_file(
                        file_views(self.files@)[j as int],
                        self.index@,
                    ));
                }
                let stepped = scan_column_value(&self.files[j], cursors[c], k);
                let cur: usize = stepped.0;
                let value: ColumnValue = stepped.1;
                cursors[c] = cur;
                let ghost prev = pair_views(comps@);
                comps.push((columns[c].duplicate(), value));
                proof {
                    assert(pair_views(comps@)[c as int] == ((columns@[c as int])@, value@));
                    assert(spec_scanned_pairs(file_views(self.files@), colsv, selv, k as int)[
                        c as int] == (selv[c as int], spec_column_value_at(entries, k as int)));
                    assert forall|c2: int| 0 <= c2 < c implies (#[trigger] pair_views(
                        comps@,
                    )[c2]) == prev[c2] by {
                        assert(comps@[c2] == comps@.drop_last()[c2]);
                    }
                }
                c += 1;
            }
            let ghost prev_rows = rows@;
            let row = Row {
                index_id: self.index[k].index_id,
                timestamp: self.index[k].timestamp,
                values: comps,
            };
            rows.push(row);
            proof {
                assert(pair_views(rows@[k as int].values@) =~= spec_scanned_pairs(
                    file_views(self.files@),
                    colsv,
                    selv,
                    k as int,
                ));
                assert forall|x: int| 0 <= x < k implies #[trigger] rows@[x] == prev_rows[x] by {}
            }
            k += 1;
        }
        rows
    }
}


/// The pair views of a list of rows.
pub open spec fn rows_pair_views(rows: Seq<Row>) -> Seq<Seq<(ColView, ValueView)>> {
    rows.map_values(|r: Row| pair_views(r.values@))
}

/// The group key of each row, in row order.
pub open spec fn spec_row_keys(
    rowpairs: Seq<Seq<(ColView, ValueView)>>,
    gbv: Seq<ColView>,
) -> Seq<Seq<(ColView, ValueView)>> {
    rowpairs.map_values(|p: Seq<(ColView, ValueView)>| spec_group_pairs(p, gbv))
}

/// The distinct keys, in first-occurrence order.
pub open spec fn spec_distinct_keys(keys: Seq<Seq<(ColView, ValueView)>>) -> Seq<
    Seq<(ColView, ValueView)>,
>
    decreases keys.len(),
{
    if keys.len() == 0 {
        keys
    } else {
        let prev = spec_distinct_keys(keys.drop_last());
        if prev.contains(keys.last()) {
            prev
        } else {
            prev + seq![keys.last()]
        }
    }
}

/// The rows of one group, in row order.
pub open spec fn spec_rows_of_group(
    rowpairs: Seq<Seq<(ColView, ValueView)>>,
    gbv: Seq<ColView>,
    key: Seq<(ColView, ValueView)>,
) -> Seq<Seq<(ColView, ValueView)>>
    decreases rowpairs.len(),
{
    if rowpairs.len() == 0 {
        rowpairs
    } else {
        let prev = spec_rows_of_group(rowpairs.drop_last(), gbv, key);
        if spec_group_pairs(rowpairs.last(), gbv) == key {
            prev + seq![rowpairs.last()]
        } else {
            prev
        }
    }
}

/// What folding one row into an aggregate's state does: a row with a
/// value for the aggregate's column folds it in, a row without one
/// leaves the state alone.
pub open spec fn fold_row_step(
    mid: crate::aggregate::ComponentsView,
    row: Seq<(ColView, ValueView)>,
    col: ColView,
    final_c: crate::aggregate::ComponentsView,
) -> bool {
    match spec_row_value(row, col) {
        Some(v) => aggregate_behavior(mid, v, final_c),
        None => final_c == mid,
    }
}

/// The relational fold of one aggregate over the rows of a group, row
/// by row from its seed.
pub open spec fn fold_group_behavior(
    init: crate::aggregate::ComponentsView,
    col: ColView,
    grouprows: Seq<Seq<(ColView, ValueView)>>,
    final_c: crate::aggregate::ComponentsView,
) -> bool
    decreases grouprows.len(),
{
    if grouprows.len() == 0 {
        final_c == init
    } else {
        exists|mid: crate::aggregate::ComponentsView|
            fold_group_behavior(init, col, grouprows.drop_last(), mid) && #[trigger] fold_row_step(
                mid,
                grouprows.last(),
                col,
                final_c,
            )
    }
}

/// A duplicate list of aggregate columns, view for view.
#[verifier::loop_isolation(false)]
fn duplicate_aggregate_columns(v: &Vec<AggregateColumn>) -> (r: Vec<AggregateColumn>)
    ensures
        r@.len() == v@.len(),
        forall|i: int| 0 <= i < v@.len() ==> ((#[trigger] r@[i]))@ == (v@[i])@,
{
    let n: usize = v.len();
    let mut out: Vec<AggregateColumn> = Vec::new();
    let mut i: usize = 0;
    while i < n
        invariant
            0 <= i <= n,
            out@.len() == i,
            forall|k: int| 0 <= k < i ==> ((#[trigger] out@[k]))@ == (v@[k])@,
        decreases n - i,
    {
        out.push(v[i].duplicate());
        i += 1;
    }
    out
}

/// The first group with that key.
#[verifier::loop_isolation(false)]
fn find_group(groups: &Vec<(GroupKey, GroupValue)>, key: &GroupKey) -> (r: Option<usize>)
    ensures
        match r {
            Some(g) => (g as int) < groups@.len() && ((groups@[g as int]).0)@ == key@ && forall|
                x: int,
            | 0 <= x < g ==> ((#[trigger] groups@[x]).0)@ != key@,
            None => forall|x: int| 0 <= x < groups@.len() ==> ((#[trigger] groups@[x]).0)@ != key@,
        },
{
    let n: usize = groups.len();
    let mut g: usize = 0;
    while g < n
        invariant
            0 <= g <= n,
            forall|x: int| 0 <= x < g ==> ((#[trigger] groups@[x]).0)@ != key@,
        decreases n - g,
    {
        if groups[g].0.eq(key) {
            return Some(g);
        }
        g += 1;
    }
    None
}

/// Every key occurs among the distinct keys.
proof fn lemma_distinct_keys_contains(keys: Seq<Seq<(ColView, ValueView)>>, i: int)
    requires
        0 <= i < keys.len(),
    ensures
        spec_distinct_keys(keys).contains(keys[i]),
    decreases keys.len(),
{
    let prev = spec_distinct_keys(keys.drop_last());
    if i == keys.len() - 1 {
        if prev.contains(keys.last()) {
        } else {
            assert((prev + seq![keys.last()])[prev.len() as int] == keys.last());
        }
    } else {
        lemma_distinct_keys_contains(keys.drop_last(), i);
        assert(keys.drop_last()[i] == keys[i]);
        lemma_distinct_keys_monotone(keys, keys[i]);
    }
}

/// Dropping the last key loses no distinct key.
proof fn lemma_distinct_keys_monotone(keys: Seq<Seq<(ColView, ValueView)>>, x: Seq<(ColView, ValueView)>)
    requires
        keys.len() > 0,
        spec_distinct_keys(keys.drop_last()).contains(x),
    ensures
        spec_distinct_keys(keys).contains(x),
{
    let prev = spec_distinct_keys(keys.drop_last());
    if !prev.contains(keys.last()) {
        let i = choose|i: int| 0 <= i < prev.len() && prev[i] == x;
        assert((prev + seq![keys.last()])[i] == x);
    }
}

/// A key outside the distinct keys has no rows in its group.
proof fn lemma_rows_of_group_absent(
    rowpairs: Seq<Seq<(ColView, ValueView)>>,
    gbv: Seq<ColView>,
    key: Seq<(ColView, ValueView)>,
)
    requires
        !spec_distinct_keys(spec_row_keys(rowpairs, gbv)).contains(key),
    ensures
        spec_rows_of_group(rowpairs, gbv, key).len() == 0,
    decreases rowpairs.len(),
{
    if rowpairs.len() > 0 {
        let keys = spec_row_keys(rowpairs, gbv);
        assert(keys.drop_last() =~= spec_row_keys(rowpairs.drop_last(), gbv));
        if spec_group_pairs(rowpairs.last(), gbv) == key {
            assert(keys.last() == key);
            lemma_distinct_keys_contains(keys, keys.len() - 1);
            assert(false);
        }
        if spec_distinct_keys(spec_row_keys(rowpairs.drop_last(), gbv)).contains(key) {
            lemma_distinct_keys_monotone(keys, key);
            assert(false);
        }
        lemma_rows_of_group_absent(rowpairs.drop_last(), gbv, key);
    }
}


/// Extending a group by one row extends its relational fold.
proof fn lemma_fold_group_snoc(
    init: crate::aggregate::ComponentsView,
    col: ColView,
    grouprows: Seq<Seq<(ColView, ValueView)>>,
    mid: crate::aggregate::ComponentsView,
    last_row: Seq<(ColView, ValueView)>,
    final_c: crate::aggregate::ComponentsView,
)
    requires
        fold_group_behavior(init, col, grouprows, mid),
        fold_row_step(mid, last_row, col, final_c),
    ensures
        fold_group_behavior(init, col, grouprows + seq![last_row], final_c),
{
    let whole = grouprows + seq![last_row];
    assert(whole.drop_last() =~= grouprows);
    assert(whole.last() == last_row);
    assert(fold_group_behavior(init, col, whole.drop_last(), mid));
    assert(fold_row_step(mid, whole.last(), col, final_c));
    assert(whole.len() > 0);
    assert(fold_group_behavior(init, col, whole, final_c)) by {
        assert(fold_group_behavior(init, col, whole.drop_last(), mid) && fold_row_step(
            mid,
            whole.last(),
            col,
            final_c,
        ));
    }
}


/// One aggregated output row is exact at one aggregate position: some
/// state folded from exactly the rows of its group finalizes to the
/// row's value and recoverable state.
#[verifier::opaque]
pub open spec fn folded_row_ok(
    rowpairs: Seq<Seq<(ColView, ValueView)>>,
    gbv: Seq<ColView>,
    key: Seq<(ColView, ValueView)>,
    acv: (Aggregate, ColView),
    ar: AggregatedRow,
    i: int,
) -> bool {
    exists|st: crate::aggregate::ComponentsView|
        {
            &&& fold_group_behavior(
                spec_init_components(acv),
                acv.1,
                spec_rows_of_group(rowpairs, gbv, key),
                st,
            )
            &&& #[trigger] compute_behavior(
                st,
                crate::row::agg_entry_views(ar.aggregates@)[i].1,
                crate::row::agg_entry_views(ar.aggregates@)[i].2,
            )
        }
}

/// What [`Table::aggregate_rows`] returns: one aggregated row per
/// distinct group key in first-occurrence order, carrying the aggregate
/// columns in select order, each finalized from a state folded from
/// exactly the rows of its group.
pub open spec fn aggregate_rows_post(
    rows: Seq<Row>,
    aggregate_columns: Seq<AggregateColumn>,
    group_by_columns: Seq<Column>,
    r: Seq<AggregatedRow>,
) -> bool {
    let gbv = col_views(group_by_columns);
    let dk = spec_distinct_keys(spec_row_keys(rows_pair_views(rows), gbv));
    &&& r.len() == dk.len()
    &&& forall|g: int| 0 <= g < dk.len() ==> pair_views((#[trigger] r[g]).values@) == dk[g]
    &&& forall|g: int|
        0 <= g < dk.len() ==> crate::row::agg_entry_views((#[trigger] r[g]).aggregates@).len()
            == aggregate_columns.len()
    &&& forall|g: int, i: int|
        0 <= g < dk.len() && 0 <= i < aggregate_columns.len() ==> {
            &&& (#[trigger] crate::row::agg_entry_views(r[g].aggregates@)[i]).0 == (
            aggregate_columns[i])@
            &&& folded_row_ok(
                rows_pair_views(rows),
                gbv,
                dk[g],
                (aggregate_columns[i])@,
                r[g],
                i,
            )
        }
}

impl Table {
    /// Groups rows by their grouping key and folds every row into its
    /// group's aggregate states, then finalizes one aggregated row per
    /// group, in first-occurrence order of the keys.
    #[verifier::loop_isolation(false)]
    #[verifier::rlimit(100)]
    pub fn aggregate_rows<A: FloatArith>(
        &self,
        rows: Vec<Row>,
        aggregate_columns: Vec<AggregateColumn>,
        group_by_columns: Vec<Column>,
        arith: &A,
    ) -> (r: Vec<AggregatedRow>)
        ensures
            aggregate_rows_post(rows@, aggregate_columns@, group_by_columns@, r@),
    {
        let ghost gbv = col_views(group_by_columns@);
        let ghost rp = rows_pair_views(rows@);
        let m: usize = aggregate_columns.len();
        let n: usize = rows.len();
        let mut groups: Vec<(GroupKey, GroupValue)> = Vec::new();
        let mut k: usize = 0;
        proof {
            assert(rp.subrange(0, 0) =~= Seq::<Seq<(ColView, ValueView)>>::empty());
            assert(spec_row_keys(rp.subrange(0, 0), gbv) =~= Seq::<
                Seq<(ColView, ValueView)>,
            >::empty());
        }
        while k < n
            invariant
                0 <= k <= n,
                n == rows@.len(),
                groups@.len() == spec_distinct_keys(
                    spec_row_keys(rp.subrange(0, k as int), gbv),
                ).len(),
                forall|g: int|
                    0 <= g < groups@.len() ==> ((#[trigger] groups@[g]).0)@ == spec_distinct_keys(
                        spec_row_keys(rp.subrange(0, k as int), gbv),
                    )[g],
                forall|g1: int, g2: int|
                    0 <= g1 < g2 < groups@.len() ==> ((#[trigger] groups@[g1]).0)@ != ((
                    #[trigger] groups@[g2]).0)@,
                forall|g: int|
                    0 <= g < groups@.len() ==> ((#[trigger] groups@[g]).1).aggregates@.len() == m,
                forall|g: int, i: int|
                    0 <= g < groups@.len() && 0 <= i < m ==> ((#[trigger] ((groups@[
                    g]).1).aggregates@[i]).0)@ == (aggregate_columns@[i])@,
                forall|g: int, i: int|
                    0 <= g < groups@.len() && 0 <= i < m ==> fold_group_behavior(
                        spec_init_components((aggregate_columns@[i])@),
                        ((aggregate_columns@[i])@).1,
                        spec_rows_of_group(rp.subrange(0, k as int), gbv, (groups@[g].0)@),
                        ((#[trigger] ((groups@[g]).1).aggregates@[i]).1)@,
                    ),
            decreases n - k,
        {
            let ghost sub1 = rp.subrange(0, k + 1);
            let ghost sub0 = rp.subrange(0, k as int);
            let ghost old_dk = spec_distinct_keys(spec_row_keys(sub0, gbv));
            proof {
                assert(rp[k as int] == pair_views(rows@[k as int].values@));
                assert(sub1.drop_last() =~= sub0);
                assert(sub1.last() == rp[k as int]);
                assert(spec_row_keys(sub1, gbv).drop_last() =~= spec_row_keys(sub0, gbv));
                assert(spec_row_keys(sub1, gbv).last() == spec_group_pairs(rp[k as int], gbv));
            }
            let key = rows[k].group(&group_by_columns);
            let ghost keyv = key@;
            let target: usize;
            match find_group(&groups, &key) {
                Some(g) => {
                    target = g;
                    proof {
                        assert(old_dk.contains(keyv)) by {
                            assert(old_dk[g as int] == keyv);
                        }
                        assert(spec_distinct_keys(spec_row_keys(sub1, gbv)) =~= old_dk);
                    }
                },
                None => {
                    proof {
                        if old_dk.contains(keyv) {
                            let x = choose|x: int| 0 <= x < old_dk.len() && old_dk[x] == keyv;
                            assert(((groups@[x]).0)@ == keyv);
                            assert(false);
                        }
                        assert(spec_distinct_keys(spec_row_keys(sub1, gbv)) =~= old_dk + seq![
                            keyv,
                        ]);
                    }
                    let dup = duplicate_aggregate_columns(&aggregate_columns);
                    let gv = GroupValue::new(dup);
                    let ghost gvsnap = gv.aggregates@;
                    groups.push((key, gv));
                    target = groups.len() - 1;
                    proof {
                        assert forall|i: int| 0 <= i < m implies {
                            &&& ((gvsnap[i]).0)@ == (aggregate_columns@[i])@
                            &&& ((gvsnap[i]).1)@ == spec_init_components((aggregate_columns@[i])@)
                        } by {
                            assert(gv_views(gvsnap)[i] == (((gvsnap[i]).0)@, ((gvsnap[i]).1)@));
                        }
                        lemma_rows_of_group_absent(sub0, gbv, keyv);
                        assert(spec_rows_of_group(sub0, gbv, keyv) =~= Seq::<
                            Seq<(ColView, ValueView)>,
                        >::empty());
                    }
                },
            }
            let ghost before_groups = groups@;
            let row_ref = &rows[k];
            groups[target].1.add(row_ref, arith);
            proof {
                // Only the target group changed, and it changed by
                // folding in exactly this row.
                assert forall|g: int|
                    0 <= g < groups@.len() && g != target implies #[trigger] groups@[g]
                    == before_groups[g] by {}
                let old_aggs = (before_groups[target as int]).1.aggregates@;
                let new_aggs = (groups@[target as int]).1.aggregates@;
                assert(crate::aggregate::group_add_behavior(
                    gv_views(old_aggs),
                    rp[k as int],
                    gv_views(new_aggs),
                ));
                assert(((groups@[target as int]).0)@ == keyv);
                assert forall|g: int, i: int|
                    0 <= g < groups@.len() && 0 <= i < m implies fold_group_behavior(
                    spec_init_components((aggregate_columns@[i])@),
                    ((aggregate_columns@[i])@).1,
                    spec_rows_of_group(sub1, gbv, ((groups@[g]).0)@),
                    ((#[trigger] ((groups@[g]).1).aggregates@[i]).1)@,
                ) by {
                    let gkey = ((groups@[g]).0)@;
                    if g == target {
                        assert(spec_group_pairs(rp[k as int], gbv) == keyv);
                        assert(spec_rows_of_group(sub1, gbv, gkey) =~= spec_rows_of_group(
                            sub0,
                            gbv,
                            gkey,
                        ) + seq![rp[k as int]]);
                        let col = ((aggregate_columns@[i])@).1;
                        let init = spec_init_components((aggregate_columns@[i])@);
                        let mid = ((old_aggs[i]).1)@;
                        assert(fold_group_behavior(init, col, spec_rows_of_group(sub0, gbv, gkey), mid));
                        assert(gv_views(old_aggs)[i] == (((old_aggs[i]).0)@, ((old_aggs[i]).1)@));
                        assert(gv_views(new_aggs)[i] == (((new_aggs[i]).0)@, ((new_aggs[i]).1)@));
                        assert(gv_views(old_aggs)[i].0.1 == col);
                        let grp = spec_rows_of_group(sub1, gbv, gkey);
                        assert(grp.drop_last() =~= spec_rows_of_group(sub0, gbv, gkey));
                        assert(grp.last() == rp[k as int]);
                        assert(fold_row_step(mid, rp[k as int], col, ((new_aggs[i]).1)@));
                        lemma_fold_group_snoc(
                            init,
                            col,
                            spec_rows_of_group(sub0, gbv, gkey),
                            mid,
                            rp[k as int],
                            ((new_aggs[i]).1)@,
                        );
                        assert(grp =~= spec_rows_of_group(sub0, gbv, gkey) + seq![rp[k as int]]);
                        assert(fold_group_behavior(init, col, grp, ((new_aggs[i]).1)@));
                    } else {
                        assert(groups@[g] == before_groups[g]);
                        assert(gkey != keyv);
                        assert(spec_rows_of_group(sub1, gbv, gkey) =~= spec_rows_of_group(
                            sub0,
                            gbv,
                            gkey,
                        ));
                    }
                }
                assert forall|g: int, i: int|
                    0 <= g < groups@.len() && 0 <= i < m implies ((#[trigger] ((groups@[
                    g]).1).aggregates@[i]).0)@ == (aggregate_columns@[i])@ by {
                    if g == target {
                        assert(gv_views(old_aggs)[i] == (((old_aggs[i]).0)@, ((old_aggs[i]).1)@));
                        assert(gv_views(new_aggs)[i] == (((new_aggs[i]).0)@, ((new_aggs[i]).1)@));
                    }
                }
            }
            k += 1;
        }
        proof {
            assert(rp.subrange(0, n as int) =~= rp);
        }
        // Finalize one aggregated row per group, in key order.
        let total: usize = groups.len();
        let ghost final_groups = groups@;
        let ghost dk = spec_distinct_keys(spec_row_keys(rp, gbv));
        let mut rest = groups;
        let mut out: Vec<AggregatedRow> = Vec::new();
        let mut g: usize = 0;
        while g < total
            invariant
                0 <= g <= total,
                total == final_groups.len(),
                rest@ == final_groups.subrange(g as int, total as int),
                out@.len() == g,
                forall|x: int|
                    0 <= x < g ==> pair_views((#[trigger] out@[x]).values@) == dk[x],
                forall|x: int|
                    0 <= x < g ==> crate::row::agg_entry_views(
                        (#[trigger] out@[x]).aggregates@,
                    ).len() == m,
                forall|x: int, i: int|
                    #![trigger out@[x].aggregates@[i]]
                    0 <= x < g && 0 <= i < m ==> {
                        &&& crate::row::agg_entry_views(out@[x].aggregates@)[i].0 == (
                        aggregate_columns@[i])@
                        &&& folded_row_ok(rp, gbv, dk[x], (aggregate_columns@[i])@, out@[x], i)
                    },
            decreases total - g,
        {
            proof {
                assert(final_groups.subrange(g as int, total as int)[0] == final_groups[g as int]);
                assert(final_groups.subrange(g as int, total as int).remove(0) =~= final_groups
                    .subrange(g + 1, total as int));
            }
            let (gkey, gval) = rest.remove(0);
            let ghost gvals = gval.aggregates@;
            let ar = AggregatedRow::from_group(gkey, gval, arith);
            let ghost prev_out = out@;
            out.push(ar);
            proof {
                assert forall|i: int| #![trigger out@[g as int].aggregates@[i]] 0 <= i < m
                    implies {
                    &&& crate::row::agg_entry_views(out@[g as int].aggregates@)[i].0 == (
                    aggregate_columns@[i])@
                    &&& folded_row_ok(
                        rp,
                        gbv,
                        dk[g as int],
                        (aggregate_columns@[i])@,
                        out@[g as int],
                        i,
                    )
                } by {
                    assert(gv_views(gvals)[i] == (((gvals[i]).0)@, ((gvals[i]).1)@));
                    let st = ((gvals[i]).1)@;
                    assert(fold_group_behavior(
                        spec_init_components((aggregate_columns@[i])@),
                        ((aggregate_columns@[i])@).1,
                        spec_rows_of_group(rp, gbv, dk[g as int]),
                        st,
                    ));
                    assert(compute_behavior(
                        st,
                        crate::row::agg_entry_views(out@[g as int].aggregates@)[i].1,
                        crate::row::agg_entry_views(out@[g as int].aggregates@)[i].2,
                    ));
                    assert(folded_row_ok(
                        rp,
                        gbv,
                        dk[g as int],
                        (aggregate_columns@[i])@,
                        out@[g as int],
                        i,
                    )) by {
                        reveal(folded_row_ok);
                        assert(fold_group_behavior(
                            spec_init_components((aggregate_columns@[i])@),
                            ((aggregate_columns@[i])@).1,
                            spec_rows_of_group(rp, gbv, dk[g as int]),
                            st,
                        ) && compute_behavior(
                            st,
                            crate::row::agg_entry_views(out@[g as int].aggregates@)[i].1,
                            crate::row::agg_entry_views(out@[g as int].aggregates@)[i].2,
                        ));
                    }
                }
                assert forall|x: int, i2: int|
                    #![trigger out@[x].aggregates@[i2]]
                    0 <= x < g && 0 <= i2 < m implies {
                    &&& crate::row::agg_entry_views(out@[x].aggregates@)[i2].0 == (
                    aggregate_columns@[i2])@
                    &&& folded_row_ok(
                        rp,
                        gbv,
                        dk[x],
                        (aggregate_columns@[i2])@,
                        out@[x],
                        i2,
                    )
                } by {
                    assert(out@[x] == prev_out[x]);
                    assert(prev_out[x].aggregates@[i2] == out@[x].aggregates@[i2]);
                    assert(crate::row::agg_entry_views(prev_out[x].aggregates@)[i2]
                        == crate::row::agg_entry_views(out@[x].aggregates@)[i2]);
                    assert(folded_row_ok(
                        rp,
                        gbv,
                        dk[x],
                        (aggregate_columns@[i2])@,
                        prev_out[x],
                        i2,
                    ));
                }
            }
            g += 1;
        }
        proof {
            let gbvf = col_views(group_by_columns@);
            let dkf = spec_distinct_keys(spec_row_keys(rows_pair_views(rows@), gbvf));
            assert(dkf == dk);
            assert(out@.len() == dkf.len());
            assert forall|g2: int, i: int|
                0 <= g2 < dkf.len() && 0 <= i < aggregate_columns@.len() implies {
                &&& (#[trigger] crate::row::agg_entry_views(out@[g2].aggregates@)[i]).0 == (
                aggregate_columns@[i])@
                &&& folded_row_ok(
                    rows_pair_views(rows@),
                    gbvf,
                    dkf[g2],
                    (aggregate_columns@[i])@,
                    out@[g2],
                    i,
                )
            } by {
                assert(out@[g2].aggregates@[i] == out@[g2].aggregates@[i]);
                assert(folded_row_ok(rp, gbv, dk[g2], (aggregate_columns@[i])@, out@[g2], i));
                assert(rp == rows_pair_views(rows@));
                assert(gbvf == gbv);
                assert(dkf[g2] == dk[g2]);
            }
            assert(aggregate_rows_post(rows@, aggregate_columns@, group_by_columns@, out@));
        }
        out
    }
}


/// The group keys of a list of aggregated rows.
pub open spec fn ar_keys(s: Seq<AggregatedRow>) -> Seq<Seq<(ColView, ValueView)>> {
    s.map_values(|a: AggregatedRow| pair_views(a.values@))
}

/// What the rows branch of a query returns: one row per index entry in
/// row-id order, each pairing every selected column with the value its
/// file holds for the row.
pub open spec fn rows_query_post(
    files: Seq<crate::storage::ColumnFileView>,
    index: Seq<crate::storage::IndexEntry>,
    av: Seq<ColView>,
    sel: Seq<ColView>,
    rows: Seq<Row>,
) -> bool {
    &&& rows.len() == index.len()
    &&& forall|k: int|
        0 <= k < rows.len() ==> {
            &&& (#[trigger] rows[k]).index_id == index[k].index_id
            &&& rows[k].timestamp == index[k].timestamp
            &&& pair_views(rows[k].values@) == spec_scanned_pairs(files, av, sel, k)
        }
}

/// What the aggregated branch of a query returns, over the reconstructed
/// rows of the table.
pub open spec fn agg_query_post(
    files: Seq<crate::storage::ColumnFileView>,
    av: Seq<ColView>,
    sel: Seq<ColView>,
    aggs: Seq<(Aggregate, ColView)>,
    gbv: Seq<ColView>,
    n: int,
    ars: Seq<AggregatedRow>,
) -> bool {
    let rowpairs = Seq::new(n as nat, |k: int| spec_scanned_pairs(files, av, sel, k));
    let dk = spec_distinct_keys(spec_row_keys(rowpairs, gbv));
    &&& ars.len() == dk.len()
    &&& forall|g: int| 0 <= g < dk.len() ==> pair_views((#[trigger] ars[g]).values@) == dk[g]
    &&& forall|g: int|
        0 <= g < dk.len() ==> crate::row::agg_entry_views((#[trigger] ars[g]).aggregates@).len()
            == aggs.len()
    &&& forall|g: int, i: int|
        0 <= g < dk.len() && 0 <= i < aggs.len() ==> {
            &&& (#[trigger] crate::row::agg_entry_views(ars[g].aggregates@)[i]).0 == aggs[i]
            &&& folded_row_ok(rowpairs, gbv, dk[g], aggs[i], ars[g], i)
        }
}

impl Table {
    /// Runs one query: resolves the select list and the grouping
    /// columns, reconstructs the rows, and — when the select list names
    /// aggregates — groups and folds them into one aggregated row per
    /// group. Without aggregates the rows are returned as they are.
    #[verifier::loop_isolation(false)]
    #[verifier::rlimit(100)]
    pub fn query<A: FloatArith>(
        &self,
        columns: Vec<String>,
        group_by_columns: Option<Vec<String>>,
        arith: &A,
    ) -> (r: Result<QueryResult, DbError>)
        requires
            self.wf(),
        ensures
            ({
                let av = col_views(self.definition.columns@);
                let parsed = crate::column::spec_parse_queried_columns(av, name_views(columns@));
                let gb_names = match group_by_columns {
                    Some(g) => name_views(g@),
                    None => Seq::<Seq<char>>::empty(),
                };
                let gb = crate::column::spec_validate_columns(av, gb_names);
                match r {
                    Err(e) => e is UnknownColumn && (parsed is None || gb is None),
                    Ok(qr) => parsed is Some && gb is Some && (match qr {
                        QueryResult::Rows(rows) => parsed.unwrap().1.len() == 0
                            && rows_query_post(
                            file_views(self.files@),
                            self.index@,
                            av,
                            parsed.unwrap().0,
                            rows@,
                        ),
                        QueryResult::AggregatedRows(ars) => parsed.unwrap().1.len() > 0
                            && agg_query_post(
                            file_views(self.files@),
                            av,
                            parsed.unwrap().0,
                            parsed.unwrap().1,
                            gb.unwrap(),
                            self.index@.len() as int,
                            ars@,
                        ),
                    }),
                }
            }),
    {
        let ghost av = col_views(self.definition.columns@);
        let parsed = crate::column::parse_and_validate_queried_columns(
            &self.definition.columns,
            &columns,
        );
        let (sel_cols, agg_cols) = match parsed {
            Ok(p) => p,
            Err(e) => {
                return Err(e);
            },
        };
        let gb_vec: Vec<String> = match group_by_columns {
            Some(g) => g,
            None => Vec::new(),
        };
        proof {
            if group_by_columns is None {
                assert(name_views(gb_vec@) =~= Seq::<Seq<char>>::empty());
            }
        }
        let gb_cols = match crate::column::parse_and_validate_columns(
            &self.definition.columns,
            &gb_vec,
        ) {
            Ok(c) => c,
            Err(e) => {
                return Err(e);
            },
        };
        proof {
            crate::column::lemma_queried_columns_elements(av, name_views(columns@));
            let parsed_s = crate::column::spec_parse_queried_columns(av, name_views(columns@));
            assert(parsed_s.unwrap().0 == col_views(sel_cols@));
            assert forall|c: int|
                0 <= c < sel_cols@.len() implies crate::column::spec_find_column(
                av,
                ((#[trigger] sel_cols@[c])@).name,
            ) == Some((sel_cols@[c])@) by {
                assert(col_views(sel_cols@)[c] == (sel_cols@[c])@);
            }
        }
        let rows = self.query_values(&sel_cols);
        let ghost rows_snap = rows@;
        if agg_cols.len() == 0 {
            return Ok(QueryResult::Rows(rows));
        }
        let ghost selv = col_views(sel_cols@);
        let ghost aggsv = crate::column::agg_views(agg_cols@);
        let ghost gbv = col_views(gb_cols@);
        let ghost aggs_snap = agg_cols@;
        let ghost gb_snap = gb_cols@;
        let ars = self.aggregate_rows(rows, agg_cols, gb_cols, arith);
        proof {
            let n = self.index@.len() as int;
            let fv = file_views(self.files@);
            let rowpairs = Seq::new(n as nat, |k: int| spec_scanned_pairs(fv, av, selv, k));
            assert(rows_pair_views(rows_snap) =~= rowpairs);
            let parsed_s = crate::column::spec_parse_queried_columns(av, name_views(columns@));
            assert(parsed_s.unwrap().0 == selv);
            assert(parsed_s.unwrap().1 == aggsv);
            assert(aggregate_rows_post(rows_snap, aggs_snap, gb_snap, ars@));
            assert(col_views(gb_snap) == gbv);
            let dk = spec_distinct_keys(spec_row_keys(rowpairs, gbv));
            assert(spec_distinct_keys(
                spec_row_keys(rows_pair_views(rows_snap), col_views(gb_snap)),
            ) == dk);
            assert(ars@.len() == dk.len());
            assert(aggsv.len() == aggs_snap.len());
            assert forall|g: int, i: int|
                0 <= g < dk.len() && 0 <= i < aggsv.len() implies {
                &&& (#[trigger] crate::row::agg_entry_views(ars@[g].aggregates@)[i]).0 == aggsv[i]
                &&& folded_row_ok(rowpairs, gbv, dk[g], aggsv[i], ars@[g], i)
            } by {
                assert(crate::row::agg_entry_views(ars@[g].aggregates@)[i].0 == (
                ars@[g].aggregates@[i].0)@);
                assert((aggs_snap[i])@ == aggsv[i]);
                assert(folded_row_ok(
                    rows_pair_views(rows_snap),
                    col_views(gb_snap),
                    spec_distinct_keys(
                        spec_row_keys(rows_pair_views(rows_snap), col_views(gb_snap)),
                    )[g],
                    (aggs_snap[i])@,
                    ars@[g],
                    i,
                ));
                assert(rows_pair_views(rows_snap) == rowpairs);
                assert(col_views(gb_snap) == gbv);
            }
            assert(agg_query_post(fv, av, selv, aggsv, gbv, n, ars@));
        }
        Ok(QueryResult::AggregatedRows(ars))
    }
}


/// Concatenation of two row results; order across nodes is unspecified.
fn merge_rows(left: Vec<Row>, right: Vec<Row>) -> (r: Vec<Row>)
    ensures
        r@ == left@ + right@,
{
    let mut l = left;
    let mut rr = right;
    l.append(&mut rr);
    l
}



/// The aggregate columns of a group state, in order.
pub open spec fn gv_cols(gv: GroupValue) -> Seq<(Aggregate, ColView)> {
    gv_views(gv.aggregates@).map_values(|p: ((Aggregate, ColView), crate::aggregate::ComponentsView)| p.0)
}

/// The aggregate columns an aggregated row carries, in order.
pub open spec fn spec_agg_cols_of(ar: AggregatedRow) -> Seq<(Aggregate, ColView)> {
    crate::row::agg_entry_views(ar.aggregates@).map_values(
        |t: ((Aggregate, ColView), ValueView, Seq<ValueView>)| t.0,
    )
}

/// The first aggregated row with that group key.
pub open spec fn spec_first_ar_with_key(
    ars: Seq<AggregatedRow>,
    key: Seq<(ColView, ValueView)>,
) -> AggregatedRow
    recommends
        ar_keys(ars).contains(key),
    decreases ars.len(),
{
    if ars.len() == 0 {
        arbitrary()
    } else if pair_views(ars[0].values@) == key {
        ars[0]
    } else {
        spec_first_ar_with_key(ars.drop_first(), key)
    }
}

proof fn lemma_first_ar_with_key_at(ars: Seq<AggregatedRow>, key: Seq<(ColView, ValueView)>, k: int)
    requires
        0 <= k < ars.len(),
        pair_views(ars[k].values@) == key,
        forall|x: int| 0 <= x < k ==> pair_views((#[trigger] ars[x]).values@) != key,
    ensures
        spec_first_ar_with_key(ars, key) == ars[k],
    decreases k,
{
    if ars.len() == 0 {
    } else if k == 0 {
    } else {
        assert(pair_views(ars[0].values@) != key);
        lemma_first_ar_with_key_at(ars.drop_first(), key, k - 1);
    }
}


/// The component state an aggregated row carries at position `i`, as
/// rehydration rebuilds it from the recoverable state array.
pub open spec fn spec_ar_state(ar: AggregatedRow, i: int) -> crate::aggregate::ComponentsView {
    crate::aggregate::spec_from_array(
        crate::row::agg_entry_views(ar.aggregates@)[i].0.0,
        crate::row::agg_entry_views(ar.aggregates@)[i].2,
    )
}

/// Whether every aggregate entry of the row carries its full recoverable
/// state, as finalizing produces it.
pub open spec fn ar_full_states(ar: AggregatedRow) -> bool {
    forall|i: int|
        0 <= i < crate::row::agg_entry_views(ar.aggregates@).len() ==> (
        #[trigger] crate::row::agg_entry_views(ar.aggregates@)[i]).2.len()
            >= crate::aggregate::spec_arity(
            crate::row::agg_entry_views(ar.aggregates@)[i].0.0,
        )
}

/// Whether a batch of aggregated rows can merge exactly: every row
/// carries full recoverable states and all rows answer the same query,
/// carrying one shared aggregate-column list.
pub open spec fn ars_mergeable(ars: Seq<AggregatedRow>) -> bool {
    &&& forall|k: int| 0 <= k < ars.len() ==> ar_full_states(#[trigger] ars[k])
    &&& forall|k1: int, k2: int|
        0 <= k1 < ars.len() && 0 <= k2 < ars.len() ==> spec_agg_cols_of(#[trigger] ars[k1])
            == spec_agg_cols_of(#[trigger] ars[k2])
}

/// Every row of a merged result is exact at every aggregate position.
pub open spec fn all_rows_merged_ok(
    all: Seq<AggregatedRow>,
    dk: Seq<Seq<(ColView, ValueView)>>,
    rows: Seq<AggregatedRow>,
) -> bool {
    forall|g: int, i: int|
        0 <= g && g < rows.len() && 0 <= i && i < rows[g].aggregates@.len()
            ==> #[trigger] merged_row_ok(all, dk[g], rows[g], i)
}


/// Packaging of the per-row exactness into the result-level predicate.
proof fn lemma_all_rows_merged_ok_intro(
    all: Seq<AggregatedRow>,
    dk: Seq<Seq<(ColView, ValueView)>>,
    rows: Seq<AggregatedRow>,
)
    requires
        forall|g: int, i: int|
            0 <= g && g < rows.len() && 0 <= i && i < rows[g].aggregates@.len()
                ==> #[trigger] merged_row_ok(all, dk[g], rows[g], i),
    ensures
        all_rows_merged_ok(all, dk, rows),
{
    assert forall|g: int, i: int|
        0 <= g && g < rows.len() && 0 <= i && i < rows[g].aggregates@.len()
        implies #[trigger] merged_row_ok(all, dk[g], rows[g], i) by {
        assert(rows[g].aggregates@[i] == rows[g].aggregates@[i]);
        assert(merged_row_ok(all, dk[g], rows[g], i));
    }
}

/// The rows with that group key, in order.
pub open spec fn spec_ars_of_key(
    ars: Seq<AggregatedRow>,
    key: Seq<(ColView, ValueView)>,
) -> Seq<AggregatedRow>
    decreases ars.len(),
{
    if ars.len() == 0 {
        ars
    } else {
        let prev = spec_ars_of_key(ars.drop_last(), key);
        if pair_views(ars.last().values@) == key {
            prev + seq![ars.last()]
        } else {
            prev
        }
    }
}

/// The states the rows carry at one aggregate position, in order.
pub open spec fn spec_states_of(rows: Seq<AggregatedRow>, i: int) -> Seq<
    crate::aggregate::ComponentsView,
> {
    rows.map_values(|ar: AggregatedRow| spec_ar_state(ar, i))
}

/// The relational fold of the additive combine over a sequence of
/// partial states, from the first row's state.
pub open spec fn merge_fold_behavior(
    first: crate::aggregate::ComponentsView,
    rest: Seq<crate::aggregate::ComponentsView>,
    final_c: crate::aggregate::ComponentsView,
) -> bool
    decreases rest.len(),
{
    if rest.len() == 0 {
        final_c == first
    } else {
        exists|mid: crate::aggregate::ComponentsView|
            merge_fold_behavior(first, rest.drop_last(), mid)
                && #[trigger] crate::aggregate::comp_merge_behavior(mid, rest.last(), final_c)
    }
}

/// Combining one more partial state extends the merge fold.
proof fn lemma_merge_fold_snoc(
    first: crate::aggregate::ComponentsView,
    rest: Seq<crate::aggregate::ComponentsView>,
    mid: crate::aggregate::ComponentsView,
    last_state: crate::aggregate::ComponentsView,
    final_c: crate::aggregate::ComponentsView,
)
    requires
        merge_fold_behavior(first, rest, mid),
        crate::aggregate::comp_merge_behavior(mid, last_state, final_c),
    ensures
        merge_fold_behavior(first, rest + seq![last_state], final_c),
{
    let whole = rest + seq![last_state];
    assert(whole.drop_last() =~= rest);
    assert(whole.last() == last_state);
    assert(merge_fold_behavior(first, whole.drop_last(), mid));
    assert(crate::aggregate::comp_merge_behavior(mid, whole.last(), final_c));
}

/// One merged output row is exact at one aggregate position: some state
/// folded by the additive combine from all input rows with the row's key
/// finalizes to exactly the row's value and recoverable state.
#[verifier::opaque]
pub open spec fn merged_row_ok(
    all: Seq<AggregatedRow>,
    key: Seq<(ColView, ValueView)>,
    ar: AggregatedRow,
    i: int,
) -> bool {
    exists|merged: crate::aggregate::ComponentsView|
        {
            &&& merge_fold_behavior(
                spec_ar_state(spec_first_ar_with_key(all, key), i),
                spec_states_of(spec_ars_of_key(all, key).drop_first(), i),
                merged,
            )
            &&& #[trigger] compute_behavior(
                merged,
                crate::row::agg_entry_views(ar.aggregates@)[i].1,
                crate::row::agg_entry_views(ar.aggregates@)[i].2,
            )
        }
}

/// A key outside the distinct keys has no rows.
proof fn lemma_ars_of_key_absent(ars: Seq<AggregatedRow>, key: Seq<(ColView, ValueView)>)
    requires
        forall|x: int| 0 <= x < ars.len() ==> pair_views((#[trigger] ars[x]).values@) != key,
    ensures
        spec_ars_of_key(ars, key).len() == 0,
    decreases ars.len(),
{
    if ars.len() > 0 {
        assert(ars[ars.len() - 1] == ars.last());
        lemma_ars_of_key_absent(ars.drop_last(), key);
    }
}


/// The first row with a key is one of the rows.
proof fn lemma_first_ar_element(ars: Seq<AggregatedRow>, key: Seq<(ColView, ValueView)>)
    requires
        exists|x: int| 0 <= x < ars.len() && pair_views((#[trigger] ars[x]).values@) == key,
    ensures
        exists|x: int| 0 <= x < ars.len() && #[trigger] ars[x] == spec_first_ar_with_key(ars, key),
    decreases ars.len(),
{
    if pair_views(ars[0].values@) == key {
        assert(ars[0] == spec_first_ar_with_key(ars, key));
    } else {
        let rest = ars.drop_first();
        let x0 = choose|x: int|
            0 <= x < ars.len() && pair_views((#[trigger] ars[x]).values@) == key;
        assert(rest[x0 - 1] == ars[x0]);
        lemma_first_ar_element(rest, key);
        let y = choose|x: int|
            0 <= x < rest.len() && #[trigger] rest[x] == spec_first_ar_with_key(rest, key);
        assert(ars[y + 1] == spec_first_ar_with_key(ars, key));
    }
}


/// Finalizes merged groups into output rows, one per group in order:
/// each row carries its group's key, the group's aggregate columns, and
/// per aggregate the value and recoverable state that finalizing the
/// group's combined state yields.
#[verifier::loop_isolation(false)]
#[verifier::rlimit(100)]
fn finalize_merge_groups<A: FloatArith>(
    groups: Vec<(GroupKey, GroupValue)>,
    Ghost(orig): Ghost<Seq<AggregatedRow>>,
    Ghost(dk): Ghost<Seq<Seq<(ColView, ValueView)>>>,
    arith: &A,
) -> (out: Vec<AggregatedRow>)
    requires
        dk.len() == groups@.len(),
        forall|g: int| 0 <= g < groups@.len() ==> ((#[trigger] groups@[g]).0)@ == dk[g],
        forall|g: int|
            0 <= g < groups@.len() ==> gv_cols((#[trigger] groups@[g]).1) == spec_agg_cols_of(
                spec_first_ar_with_key(orig, dk[g]),
            ),
    ensures
        out@.len() == groups@.len(),
        forall|g: int| 0 <= g < out@.len() ==> pair_views((#[trigger] out@[g]).values@) == dk[g],
        forall|g: int|
            0 <= g < out@.len() ==> spec_agg_cols_of(#[trigger] out@[g]) == spec_agg_cols_of(
                spec_first_ar_with_key(orig, dk[g]),
            ),
        forall|g: int| 0 <= g < out@.len() ==> (#[trigger] out@[g]).aggregates@.len() == ((
        groups@[g]).1).aggregates@.len(),
        forall|g: int, i: int|
            #![trigger out@[g].aggregates@[i]]
            0 <= g < out@.len() && 0 <= i < out@[g].aggregates@.len() ==> compute_behavior(
                ((((groups@[g]).1).aggregates@[i]).1)@,
                crate::row::agg_entry_views(out@[g].aggregates@)[i].1,
                crate::row::agg_entry_views(out@[g].aggregates@)[i].2,
            ),
{
    let total: usize = groups.len();
    let ghost final_groups = groups@;
    let mut rest2 = groups;
    let mut out: Vec<AggregatedRow> = Vec::new();
    let mut g: usize = 0;
    while g < total
        invariant
            0 <= g <= total,
            total == final_groups.len(),
            rest2@ == final_groups.subrange(g as int, total as int),
            out@.len() == g,
            forall|x: int| 0 <= x < g ==> pair_views((#[trigger] out@[x]).values@) == dk[x],
            forall|x: int|
                0 <= x < g ==> spec_agg_cols_of(#[trigger] out@[x]) == spec_agg_cols_of(
                    spec_first_ar_with_key(orig, dk[x]),
                ),
            forall|x: int| 0 <= x < g ==> (#[trigger] out@[x]).aggregates@.len() == ((
            final_groups[x]).1).aggregates@.len(),
            forall|x: int, i: int|
                #![trigger out@[x].aggregates@[i]]
                0 <= x < g && 0 <= i < out@[x].aggregates@.len() ==> compute_behavior(
                    ((((final_groups[x]).1).aggregates@[i]).1)@,
                    crate::row::agg_entry_views(out@[x].aggregates@)[i].1,
                    crate::row::agg_entry_views(out@[x].aggregates@)[i].2,
                ),
        decreases total - g,
    {
        proof {
            assert(final_groups.subrange(g as int, total as int)[0] == final_groups[g as int]);
            assert(final_groups.subrange(g as int, total as int).remove(0) =~= final_groups
                .subrange(g + 1, total as int));
        }
        let (gkey, gval) = rest2.remove(0);
        let ghost gval_snap = gval;
        let ar = AggregatedRow::from_group(gkey, gval, arith);
        let ghost prev_out = out@;
        out.push(ar);
        proof {
            assert forall|x: int| 0 <= x < g implies #[trigger] out@[x] == prev_out[x] by {}
            let arv = out@[g as int];
            assert(crate::row::agg_entry_views(arv.aggregates@).len() == gv_views(
                gval_snap.aggregates@,
            ).len());
            assert forall|i: int| 0 <= i < gv_views(gval_snap.aggregates@).len() implies
                #[trigger] spec_agg_cols_of(arv)[i] == gv_cols(gval_snap)[i] by {
                assert((#[trigger] crate::row::agg_entry_views(arv.aggregates@)[i]).0
                    == gv_views(gval_snap.aggregates@)[i].0);
                assert(spec_agg_cols_of(arv)[i] == crate::row::agg_entry_views(
                    arv.aggregates@,
                )[i].0);
                assert(gv_cols(gval_snap)[i] == gv_views(gval_snap.aggregates@)[i].0);
            }
            assert(spec_agg_cols_of(arv) =~= gv_cols(gval_snap));
            assert(gval_snap == (final_groups[g as int]).1);
            assert forall|i: int|
                #![trigger out@[g as int].aggregates@[i]]
                0 <= i < out@[g as int].aggregates@.len() implies compute_behavior(
                ((((final_groups[g as int]).1).aggregates@[i]).1)@,
                crate::row::agg_entry_views(out@[g as int].aggregates@)[i].1,
                crate::row::agg_entry_views(out@[g as int].aggregates@)[i].2,
            ) by {
                assert(gv_views(gval_snap.aggregates@)[i] == (((gval_snap.aggregates@[i]).0)@, ((
                gval_snap.aggregates@[i]).1)@));
                assert(compute_behavior(
                    gv_views(gval_snap.aggregates@)[i].1,
                    crate::row::agg_entry_views(arv.aggregates@)[i].1,
                    crate::row::agg_entry_views(arv.aggregates@)[i].2,
                ));
            }
            assert forall|x: int, i: int|
                #![trigger out@[x].aggregates@[i]]
                0 <= x < g && 0 <= i < out@[x].aggregates@.len() implies compute_behavior(
                ((((final_groups[x]).1).aggregates@[i]).1)@,
                crate::row::agg_entry_views(out@[x].aggregates@)[i].1,
                crate::row::agg_entry_views(out@[x].aggregates@)[i].2,
            ) by {
                assert(out@[x] == prev_out[x]);
                assert(prev_out[x].aggregates@[i] == out@[x].aggregates@[i]);
                assert(crate::row::agg_entry_views(prev_out[x].aggregates@)[i]
                    == crate::row::agg_entry_views(out@[x].aggregates@)[i]);
            }
        }
        g += 1;
    }
    out
}

/// Merges two aggregated results: every row is rehydrated into a group
/// state through its recoverable components, rows of the same key merge
/// additively, and each combined group finalizes again. The result holds
/// one row per distinct key, in first-occurrence order over left then
/// right.
#[verifier::loop_isolation(false)]
#[verifier::rlimit(100)]
fn merge_aggregated_rows<A: FloatArith>(
    left: Vec<AggregatedRow>,
    right: Vec<AggregatedRow>,
    arith: &A,
) -> (r: Vec<AggregatedRow>)
    ensures
        r@.len() == spec_distinct_keys(ar_keys(left@) + ar_keys(right@)).len(),
        forall|g: int|
            0 <= g < r@.len() ==> pair_views((#[trigger] r@[g]).values@) == spec_distinct_keys(
                ar_keys(left@) + ar_keys(right@),
            )[g],
        forall|g: int|
            0 <= g < r@.len() ==> spec_agg_cols_of(#[trigger] r@[g]) == spec_agg_cols_of(
                spec_first_ar_with_key(
                    left@ + right@,
                    spec_distinct_keys(ar_keys(left@) + ar_keys(right@))[g],
                ),
            ),
        ars_mergeable(left@ + right@) ==> all_rows_merged_ok(
            left@ + right@,
            spec_distinct_keys(ar_keys(left@) + ar_keys(right@)),
            r@,
        ),
{
    let ghost all_keys = ar_keys(left@) + ar_keys(right@);
    let mut all = left;
    let mut rtail = right;
    all.append(&mut rtail);
    proof {
        assert(ar_keys(all@) =~= all_keys);
    }
    let n: usize = all.len();
    let ghost orig = all@;
    let ghost ap = ar_keys(orig);
    proof {
        assert(orig =~= left@ + right@);
    }
    let mut rest = all;
    let mut groups: Vec<(GroupKey, GroupValue)> = Vec::new();
    let mut k: usize = 0;
    proof {
        assert(ap.subrange(0, 0) =~= Seq::<Seq<(ColView, ValueView)>>::empty());
    }
    while k < n
        invariant
            0 <= k <= n,
            n == orig.len(),
            rest@ == orig.subrange(k as int, n as int),
            groups@.len() == spec_distinct_keys(ap.subrange(0, k as int)).len(),
            forall|g: int|
                0 <= g < groups@.len() ==> ((#[trigger] groups@[g]).0)@ == spec_distinct_keys(
                    ap.subrange(0, k as int),
                )[g],
            forall|g1: int, g2: int|
                0 <= g1 < g2 < groups@.len() ==> ((#[trigger] groups@[g1]).0)@ != ((
                #[trigger] groups@[g2]).0)@,
            forall|g: int|
                0 <= g < groups@.len() ==> gv_cols((#[trigger] groups@[g]).1)
                    == spec_agg_cols_of(spec_first_ar_with_key(orig, (groups@[g].0)@)),
            ars_mergeable(orig) ==> forall|g: int|
                0 <= g < groups@.len() ==> {
                    &&& spec_ars_of_key(orig.subrange(0, k as int), ((#[trigger] groups@[
                    g]).0)@).len() >= 1
                    &&& spec_ars_of_key(orig.subrange(0, k as int), (groups@[g].0)@)[0]
                        == spec_first_ar_with_key(orig, (groups@[g].0)@)
                },
            ars_mergeable(orig) ==> forall|g: int, i: int|
                0 <= g < groups@.len() && 0 <= i < ((groups@[g]).1).aggregates@.len()
                    ==> merge_fold_behavior(
                    spec_ar_state(spec_first_ar_with_key(orig, (groups@[g].0)@), i),
                    spec_states_of(
                        spec_ars_of_key(
                            orig.subrange(0, k as int),
                            (groups@[g].0)@,
                        ).drop_first(),
                        i,
                    ),
                    ((#[trigger] ((groups@[g]).1).aggregates@[i]).1)@,
                ),
        decreases n - k,
    {
        proof {
            assert(ap.subrange(0, k + 1).drop_last() =~= ap.subrange(0, k as int));
            assert(ap.subrange(0, k + 1).last() == ap[k as int]);
            assert(ap[k as int] == pair_views(orig[k as int].values@));
            assert(orig.subrange(k as int, n as int)[0] == orig[k as int]);
            assert(orig.subrange(k as int, n as int).remove(0) =~= orig.subrange(
                k + 1,
                n as int,
            ));
            assert(orig.subrange(0, k + 1).drop_last() =~= orig.subrange(0, k as int));
            assert(orig.subrange(0, k + 1).last() == orig[k as int]);
        }
        let ghost old_dk = spec_distinct_keys(ap.subrange(0, k as int));
        let row = rest.remove(0);
        let ghost row_snap = row;
        let (key, gv) = row.to_group();
        let ghost keyv = key@;
        proof {
            assert(row_snap == orig[k as int]);
            assert(keyv == ap[k as int]);
        }
        match find_group(&groups, &key) {
            Some(g) => {
                proof {
                    assert(old_dk.contains(keyv)) by {
                        assert(old_dk[g as int] == keyv);
                    }
                    assert(spec_distinct_keys(ap.subrange(0, k + 1)) =~= old_dk);
                }
                let ghost before_groups = groups@;
                groups[g].1.merge(gv, arith);
                proof {
                    assert forall|x: int|
                        0 <= x < groups@.len() && x != g implies #[trigger] groups@[x]
                        == before_groups[x] by {}
                    assert(((groups@[g as int]).0) == ((before_groups[g as int]).0));
                    // Merging preserves the aggregate columns.
                    let old_aggs = ((before_groups[g as int]).1).aggregates@;
                    let new_aggs = ((groups@[g as int]).1).aggregates@;
                    assert(gv_views(new_aggs).len() == gv_views(old_aggs).len());
                    assert forall|i: int| 0 <= i < gv_views(old_aggs).len() implies #[trigger]
                        gv_cols((groups@[g as int]).1)[i] == gv_cols(
                        (before_groups[g as int]).1,
                    )[i] by {
                        assert((#[trigger] gv_views(new_aggs)[i]).0 == gv_views(old_aggs)[i].0);
                        assert(gv_cols((groups@[g as int]).1)[i] == gv_views(new_aggs)[i].0);
                        assert(gv_cols((before_groups[g as int]).1)[i] == gv_views(
                            old_aggs,
                        )[i].0);
                    }
                    assert(gv_cols((groups@[g as int]).1) =~= gv_cols(
                        (before_groups[g as int]).1,
                    ));
                    if ars_mergeable(orig) {
                        let gkey = ((groups@[g as int]).0)@;
                        assert(gkey == keyv);
                        let sub0 = orig.subrange(0, k as int);
                        let sub1 = orig.subrange(0, k + 1);
                        let fa = spec_first_ar_with_key(orig, gkey);
                        // The row's aggregate columns equal the group's.
                        assert(pair_views(orig[k as int].values@) == keyv);
                        lemma_first_ar_element(orig, gkey);
                        let x0 = choose|x: int|
                            0 <= x < orig.len() && #[trigger] orig[x] == spec_first_ar_with_key(
                                orig,
                                gkey,
                            );
                        assert(spec_agg_cols_of(orig[x0]) == spec_agg_cols_of(
                            orig[k as int],
                        ));
                        assert(gv_cols((before_groups[g as int]).1) == spec_agg_cols_of(
                            row_snap,
                        ));
                        // The other state carries the row's rebuilt states
                        // and the same column list, so the combine is the
                        // aligned one.
                        assert(ar_full_states(row_snap));
                        assert(crate::aggregate::gv_columns(gv_views(gv.aggregates@))
                            =~= crate::aggregate::gv_columns(gv_views(old_aggs))) by {
                            assert(gv_views(gv.aggregates@).len() == gv_views(old_aggs).len());
                            assert forall|i: int|
                                0 <= i < gv_views(old_aggs).len() implies #[trigger]
                                crate::aggregate::gv_columns(gv_views(gv.aggregates@))[i]
                                == crate::aggregate::gv_columns(gv_views(old_aggs))[i] by {
                                assert(crate::aggregate::gv_columns(
                                    gv_views(gv.aggregates@),
                                )[i] == gv_views(gv.aggregates@)[i].0);
                                assert(crate::aggregate::gv_columns(gv_views(old_aggs))[i]
                                    == gv_views(old_aggs)[i].0);
                                assert(gv_views(gv.aggregates@)[i].0
                                    == crate::row::agg_entry_views(row_snap.aggregates@)[i].0);
                                assert(gv_cols((before_groups[g as int]).1)[i] == gv_views(
                                    old_aggs,
                                )[i].0);
                                assert(spec_agg_cols_of(row_snap)[i]
                                    == crate::row::agg_entry_views(row_snap.aggregates@)[i].0);
                            }
                        }
                        assert(crate::aggregate::group_merge_behavior(
                            gv_views(old_aggs),
                            gv_views(gv.aggregates@),
                            gv_views(new_aggs),
                        ));
                        // The group's rows gain exactly this row.
                        let filt0 = spec_ars_of_key(sub0, gkey);
                        let filt1 = spec_ars_of_key(sub1, gkey);
                        assert(filt1 =~= filt0 + seq![row_snap]);
                        assert(filt1.drop_first() =~= filt0.drop_first() + seq![row_snap]);
                        assert forall|i: int|
                            0 <= i < new_aggs.len() implies merge_fold_behavior(
                            spec_ar_state(fa, i),
                            spec_states_of(filt1.drop_first(), i),
                            ((new_aggs[i]).1)@,
                        ) by {
                            let mid = ((old_aggs[i]).1)@;
                            assert(merge_fold_behavior(
                                spec_ar_state(fa, i),
                                spec_states_of(filt0.drop_first(), i),
                                mid,
                            ));
                            assert(crate::aggregate::comp_merge_behavior(
                                gv_views(old_aggs)[i].1,
                                gv_views(gv.aggregates@)[i].1,
                                gv_views(new_aggs)[i].1,
                            ));
                            assert(gv_views(old_aggs)[i] == (((old_aggs[i]).0)@, ((
                            old_aggs[i]).1)@));
                            assert(gv_views(new_aggs)[i] == (((new_aggs[i]).0)@, ((
                            new_aggs[i]).1)@));
                            assert(gv_views(gv.aggregates@)[i].1 == spec_ar_state(
                                row_snap,
                                i,
                            )) by {
                                assert((#[trigger] crate::row::agg_entry_views(
                                    row_snap.aggregates@,
                                )[i]).2.len() >= crate::aggregate::spec_arity(
                                    crate::row::agg_entry_views(row_snap.aggregates@)[i].0.0,
                                ));
                            }
                            assert(spec_states_of(filt1.drop_first(), i) =~= spec_states_of(
                                filt0.drop_first(),
                                i,
                            ) + seq![spec_ar_state(row_snap, i)]) by {
                                assert forall|y: int|
                                    0 <= y < filt1.drop_first().len() implies #[trigger]
                                    spec_states_of(filt1.drop_first(), i)[y] == (spec_states_of(
                                        filt0.drop_first(),
                                        i,
                                    ) + seq![spec_ar_state(row_snap, i)])[y] by {
                                    assert(spec_states_of(filt1.drop_first(), i)[y]
                                        == spec_ar_state(filt1.drop_first()[y], i));
                                    if y < filt0.drop_first().len() {
                                        assert(spec_states_of(filt0.drop_first(), i)[y]
                                            == spec_ar_state(filt0.drop_first()[y], i));
                                    }
                                }
                            }
                            lemma_merge_fold_snoc(
                                spec_ar_state(fa, i),
                                spec_states_of(filt0.drop_first(), i),
                                mid,
                                spec_ar_state(row_snap, i),
                                ((new_aggs[i]).1)@,
                            );
                        }
                        // Other groups keep their rows.
                        assert forall|g2: int, gk: Seq<(ColView, ValueView)>|
                            0 <= g2 < groups@.len() && g2 != g && gk == ((groups@[g2]).0)@
                            implies spec_ars_of_key(sub1, gk) =~= spec_ars_of_key(
                            sub0,
                            gk,
                        ) by {
                            assert(gk != keyv);
                        }
                    }
                }
            },
            None => {
                proof {
                    if old_dk.contains(keyv) {
                        let x = choose|x: int| 0 <= x < old_dk.len() && old_dk[x] == keyv;
                        assert(((groups@[x]).0)@ == keyv);
                        assert(false);
                    }
                    assert(spec_distinct_keys(ap.subrange(0, k + 1)) =~= old_dk + seq![keyv]);
                }
                groups.push((key, gv));
                proof {
                    // This row is the first with its key: earlier rows'
                    // keys all landed in the distinct set, which does not
                    // hold this one.
                    assert forall|x: int| 0 <= x < k implies pair_views(
                        (#[trigger] orig[x]).values@,
                    ) != keyv by {
                        assert(ap.subrange(0, k as int)[x] == ap[x]);
                        assert(ap[x] == pair_views(orig[x].values@));
                        if pair_views(orig[x].values@) == keyv {
                            lemma_distinct_keys_contains(ap.subrange(0, k as int), x);
                            assert(old_dk.contains(keyv));
                        }
                    }
                    lemma_first_ar_with_key_at(orig, keyv, k as int);
                    let new_gv = (groups@[groups@.len() - 1]).1;
                    assert(gv_views(new_gv.aggregates@).len() == crate::row::agg_entry_views(
                        row_snap.aggregates@,
                    ).len());
                    assert forall|i: int| 0 <= i < gv_views(new_gv.aggregates@).len() implies
                        #[trigger] gv_cols(new_gv)[i] == spec_agg_cols_of(row_snap)[i] by {
                        assert((#[trigger] gv_views(new_gv.aggregates@)[i]).0
                            == crate::row::agg_entry_views(row_snap.aggregates@)[i].0);
                        assert(gv_cols(new_gv)[i] == gv_views(new_gv.aggregates@)[i].0);
                        assert(spec_agg_cols_of(row_snap)[i] == crate::row::agg_entry_views(
                            row_snap.aggregates@,
                        )[i].0);
                    }
                    assert(gv_cols(new_gv) =~= spec_agg_cols_of(row_snap));
                    if ars_mergeable(orig) {
                        let sub0 = orig.subrange(0, k as int);
                        let sub1 = orig.subrange(0, k + 1);
                        lemma_ars_of_key_absent(sub0, keyv);
                        assert(spec_ars_of_key(sub1, keyv) =~= seq![row_snap]);
                        assert(spec_first_ar_with_key(orig, keyv) == row_snap);
                        assert(ar_full_states(row_snap));
                        assert(spec_ars_of_key(sub1, keyv)[0] == spec_first_ar_with_key(
                            orig,
                            keyv,
                        ));
                        assert forall|i: int|
                            0 <= i < new_gv.aggregates@.len() implies merge_fold_behavior(
                            spec_ar_state(spec_first_ar_with_key(orig, keyv), i),
                            spec_states_of(spec_ars_of_key(sub1, keyv).drop_first(), i),
                            (((new_gv.aggregates@)[i]).1)@,
                        ) by {
                            assert(spec_ars_of_key(sub1, keyv).drop_first() =~= Seq::<
                                AggregatedRow,
                            >::empty());
                            assert(spec_states_of(spec_ars_of_key(sub1, keyv).drop_first(), i)
                                =~= Seq::<crate::aggregate::ComponentsView>::empty());
                            assert((#[trigger] crate::row::agg_entry_views(
                                row_snap.aggregates@,
                            )[i]).2.len() >= crate::aggregate::spec_arity(
                                crate::row::agg_entry_views(row_snap.aggregates@)[i].0.0,
                            ));
                            assert(gv_views(new_gv.aggregates@)[i].1 == spec_ar_state(
                                row_snap,
                                i,
                            ));
                            assert(gv_views(new_gv.aggregates@)[i] == (((
                            new_gv.aggregates@[i]).0)@, ((new_gv.aggregates@[i]).1)@));
                        }
                        // Existing groups keep their rows.
                        assert forall|g2: int, gk: Seq<(ColView, ValueView)>|
                            0 <= g2 < groups@.len() - 1 && gk == ((groups@[g2]).0)@
                            implies spec_ars_of_key(sub1, gk) =~= spec_ars_of_key(
                            sub0,
                            gk,
                        ) by {
                            assert(gk == old_dk[g2]);
                            if gk == keyv {
                                assert(old_dk.contains(keyv));
                                assert(false);
                            }
                        }
                    }
                }
            },
        }
        k += 1;
    }
    proof {
        assert(ap.subrange(0, n as int) =~= ap);
    }
    let ghost dk = spec_distinct_keys(ap);
    let ghost groups_snap = groups@;
    proof {
        assert(orig.subrange(0, n as int) =~= orig);
    }
    let out = finalize_merge_groups(groups, Ghost(orig), Ghost(dk), arith);
    proof {
        assert(ar_keys(left@) + ar_keys(right@) =~= ap);
        if ars_mergeable(orig) {
            assert forall|g: int, i: int|
                0 <= g && g < out@.len() && 0 <= i && i < out@[g].aggregates@.len()
                implies #[trigger] merged_row_ok(orig, dk[g], out@[g], i) by {
                    let merged = ((((groups_snap[g]).1).aggregates@[i]).1)@;
                    assert(((groups_snap[g]).0)@ == dk[g]);
                    assert(merge_fold_behavior(
                        spec_ar_state(spec_first_ar_with_key(orig, ((groups_snap[g]).0)@), i),
                        spec_states_of(
                            spec_ars_of_key(
                                orig.subrange(0, k as int),
                                ((groups_snap[g]).0)@,
                            ).drop_first(),
                            i,
                        ),
                        merged,
                    ));
                    assert(spec_ars_of_key(orig.subrange(0, k as int), dk[g])
                        == spec_ars_of_key(orig, dk[g]));
                    assert(compute_behavior(
                        merged,
                        crate::row::agg_entry_views(out@[g].aggregates@)[i].1,
                        crate::row::agg_entry_views(out@[g].aggregates@)[i].2,
                    ));
                    assert(merged_row_ok(orig, dk[g], out@[g], i)) by {
                        reveal(merged_row_ok);
                        assert(merge_fold_behavior(
                            spec_ar_state(spec_first_ar_with_key(orig, dk[g]), i),
                            spec_states_of(spec_ars_of_key(orig, dk[g]).drop_first(), i),
                            merged,
                        ) && compute_behavior(
                            merged,
                            crate::row::agg_entry_views(out@[g].aggregates@)[i].1,
                            crate::row::agg_entry_views(out@[g].aggregates@)[i].2,
                        ));
                    }
            }
            lemma_all_rows_merged_ok_intro(orig, dk, out@);
            assert(all_rows_merged_ok(
                left@ + right@,
                spec_distinct_keys(ar_keys(left@) + ar_keys(right@)),
                out@,
            )) by {
                assert(all_rows_merged_ok(orig, dk, out@));
                assert(orig == left@ + right@);
                assert(spec_distinct_keys(ar_keys(left@) + ar_keys(right@)) == dk);
            }
        }
    }
    out
}

impl QueryResult {
    /// Merges this node's result with a peer's. Row results concatenate;
    /// aggregated results merge group-wise through their recoverable
    /// states; results of different variants cannot be merged.
    pub fn merge<A: FloatArith>(self, other: QueryResult, arith: &A) -> (r: Result<
        QueryResult,
        DbError,
    >)
        ensures
            r is Ok <==> ((self is Rows && other is Rows) || (self is AggregatedRows
                && other is AggregatedRows)),
            self matches QueryResult::Rows(l) ==> (other matches QueryResult::Rows(rr) ==> (
            r matches Ok(qr) && qr matches QueryResult::Rows(m) && m@ == l@ + rr@)),
            self matches QueryResult::AggregatedRows(l) ==> (other
                matches QueryResult::AggregatedRows(rr) ==> (r matches Ok(qr) && qr
                matches QueryResult::AggregatedRows(m) && m@.len() == spec_distinct_keys(
                ar_keys(l@) + ar_keys(rr@),
            ).len() && (forall|g: int|
                0 <= g < m@.len() ==> pair_views((#[trigger] m@[g]).values@)
                    == spec_distinct_keys(ar_keys(l@) + ar_keys(rr@))[g]) && (forall|g: int|
                0 <= g < m@.len() ==> spec_agg_cols_of(#[trigger] m@[g]) == spec_agg_cols_of(
                    spec_first_ar_with_key(
                        l@ + rr@,
                        spec_distinct_keys(ar_keys(l@) + ar_keys(rr@))[g],
                    ),
                )) && (ars_mergeable(l@ + rr@) ==> all_rows_merged_ok(
                l@ + rr@,
                spec_distinct_keys(ar_keys(l@) + ar_keys(rr@)),
                m@,
            )))),
            r matches Err(e) ==> e is MergeVariantMismatch,
    {
        match (self, other) {
            (QueryResult::Rows(l), QueryResult::Rows(rr)) => Ok(
                QueryResult::Rows(merge_rows(l, rr)),
            ),
            (QueryResult::AggregatedRows(l), QueryResult::AggregatedRows(rr)) => Ok(
                QueryResult::AggregatedRows(merge_aggregated_rows(l, rr, arith)),
            ),
            _ => Err(DbError::MergeVariantMismatch),
        }
    }
}

impl Database {
    /// Inserts into the named table; the batch is validated and applied
    /// as [`Table::insert`] specifies, and no other table is touched.
    #[verifier::loop_isolation(false)]
    pub fn insert<A: FloatArith>(
        &mut self,
        table_name: &str,
        columns: Vec<String>,
        values: Vec<Vec<crate::value::JsonValue>>,
        timestamp: u64,
        arith: &A,
    ) -> (r: Result<(), DbError>)
        requires
            old(self).wf(),
        ensures
            final (self).wf(),
            ({
                let i = crate::storage::spec_db_find(old(self).tables@, table_name@);
                if i < 0 {
                    r matches Err(e) && e is UnknownTable && *final (self) == *old(self)
                } else {
                    &&& final (self).tables@.len() == old(self).tables@.len()
                    &&& forall|x: int|
                        0 <= x < old(self).tables@.len() && x != i ==> #[trigger] final (
                        self).tables@[x] == old(self).tables@[x]
                    &&& final (self).tables@[i].definition.name@ == old(self).tables@[i].definition.name@
                    &&& final (self).tables@[i].definition.columns == old(self).tables@[i].definition.columns
                    &&& (match r {
                        Ok(_) => crate::storage::insert_accepted(
                            col_views(old(self).tables@[i].definition.columns@),
                            old(self).tables@[i].index@.len() as int,
                            name_views(columns@),
                            crate::value::json_row_views(values@),
                        ) && (exists|staged: Seq<Seq<ValueView>>|
                            #[trigger] crate::storage::insert_result(
                                col_views(old(self).tables@[i].definition.columns@),
                                old(self).tables@[i].index@,
                                file_views(old(self).tables@[i].files@),
                                final (self).tables@[i].index@,
                                file_views(final (self).tables@[i].files@),
                                name_views(columns@),
                                crate::value::json_row_views(values@),
                                staged,
                                timestamp,
                            )),
                        Err(e) => final (self).tables@[i] == old(self).tables@[i]
                            && crate::storage::insert_error(
                            col_views(old(self).tables@[i].definition.columns@),
                            old(self).tables@[i].index@.len() as int,
                            name_views(columns@),
                            crate::value::json_row_views(values@),
                            e,
                        ),
                    })
                }
            }),
    {
        match self.find_table(table_name) {
            None => Err(DbError::UnknownTable),
            Some(i) => {
                proof {
                    assert(old(self).tables@[i as int].wf());
                }
                let ghost before = self.tables@;
                let mut t = self.tables.remove(i);
                let out = t.insert(columns, values, timestamp, arith);
                self.tables.insert(i, t);
                proof {
                    assert(self.tables@ =~= before.update(i as int, self.tables@[i as int]));
                    assert forall|x: int|
                        0 <= x < before.len() && x != i implies #[trigger] self.tables@[x]
                        == before[x] by {}
                }
                out
            },
        }
    }

    /// Queries the named table; the result is what [`Table::query`]
    /// specifies for that table.
    #[verifier::loop_isolation(false)]
    pub fn query<A: FloatArith>(
        &self,
        table_name: &str,
        columns: Vec<String>,
        group_by_columns: Option<Vec<String>>,
        arith: &A,
    ) -> (r: Result<QueryResult, DbError>)
        requires
            self.wf(),
        ensures
            crate::storage::spec_db_find(self.tables@, table_name@) < 0 <==> (r matches Err(e)
                && e is UnknownTable),
            ({
                let i = crate::storage::spec_db_find(self.tables@, table_name@);
                i >= 0 ==> {
                    let t = self.tables@[i];
                    let av = col_views(t.definition.columns@);
                    let parsed = crate::column::spec_parse_queried_columns(
                        av,
                        name_views(columns@),
                    );
                    let gb_names = match group_by_columns {
                        Some(g) => name_views(g@),
                        None => Seq::<Seq<char>>::empty(),
                    };
                    let gb = crate::column::spec_validate_columns(av, gb_names);
                    match r {
                        Err(e) => e is UnknownColumn && (parsed is None || gb is None),
                        Ok(qr) => parsed is Some && gb is Some && (match qr {
                            QueryResult::Rows(rows) => parsed.unwrap().1.len() == 0
                                && rows_query_post(
                                file_views(t.files@),
                                t.index@,
                                av,
                                parsed.unwrap().0,
                                rows@,
                            ),
                            QueryResult::AggregatedRows(ars) => parsed.unwrap().1.len() > 0
                                && agg_query_post(
                                file_views(t.files@),
                                av,
                                parsed.unwrap().0,
                                parsed.unwrap().1,
                                gb.unwrap(),
                                t.index@.len() as int,
                                ars@,
                            ),
                        }),
                    }
                }
            }),
    {
        match self.find_table(table_name) {
            None => Err(DbError::UnknownTable),
            Some(i) => {
                let out = self.tables[i].query(columns, group_by_columns, arith);
                match out {
                    Ok(qr) => Ok(qr),
                    Err(e) => {
                        proof {
                            assert(e is UnknownColumn);
                        }
                        Err(e)
                    },
                }
            },
        }
    }
}


/// A block of consecutive new entries reads back exactly.
proof fn lemma_column_value_block(app: Seq<EntryView>, base: int, k: int)
    requires
        forall|x: int| 0 <= x < app.len() ==> ((#[trigger] app[x]).index_id as int) == base + x,
        0 <= k < app.len(),
    ensures
        spec_column_value_at(app, base + k) == app[k].value,
    decreases k,
{
    if k == 0 {
    } else {
        let rest = app.drop_first();
        assert forall|x: int| 0 <= x < rest.len() implies ((#[trigger] rest[x]).index_id as int)
            == (base + 1) + x by {
            assert(rest[x] == app[x + 1]);
        }
        lemma_column_value_block(rest, base + 1, k - 1);
        assert(rest[k - 1] == app[k as int]);
    }
}

/// Appending new rows after existing entries leaves each new row's value
/// readable at its row-id.
proof fn lemma_column_value_at_append(e: Seq<EntryView>, app: Seq<EntryView>, base: int, k: int)
    requires
        forall|x: int| 0 <= x < e.len() ==> ((#[trigger] e[x]).index_id as int) < base,
        forall|x: int| 0 <= x < app.len() ==> ((#[trigger] app[x]).index_id as int) == base + x,
        0 <= k < app.len(),
    ensures
        spec_column_value_at(e + app, base + k) == app[k].value,
    decreases e.len(),
{
    if e.len() == 0 {
        assert(e + app =~= app);
        lemma_column_value_block(app, base, k);
    } else {
        assert((e + app)[0] == e[0]);
        assert((e + app).drop_first() =~= e.drop_first() + app);
        lemma_column_value_at_append(e.drop_first(), app, base, k);
    }
}

/// The insert-then-select round trip: after inserting a batch, selecting
/// the named columns reads, at each new row, exactly the stored value of
/// each cell — integers and float bits as staged, strings as their
/// NUL-trimmed, padded-or-truncated form.
pub proof fn lemma_insert_query_round_trip(
    columns: Seq<ColView>,
    old_index: Seq<crate::storage::IndexEntry>,
    old_files: Seq<crate::storage::ColumnFileView>,
    new_index: Seq<crate::storage::IndexEntry>,
    new_files: Seq<crate::storage::ColumnFileView>,
    names: Seq<Seq<char>>,
    rows: Seq<Seq<crate::value::JsonView>>,
    staged: Seq<Seq<ValueView>>,
    timestamp: u64,
    k: int,
    c: int,
)
    requires
        crate::storage::insert_result(
            columns,
            old_index,
            old_files,
            new_index,
            new_files,
            names,
            rows,
            staged,
            timestamp,
        ),
        crate::column::spec_validate_columns(columns, names) is Some,
        old_files.len() == columns.len(),
        forall|j: int, x: int|
            0 <= j < old_files.len() && 0 <= x < old_files[j].entries.len() ==> ((
            #[trigger] old_files[j].entries[x]).index_id as int) < old_index.len(),
        old_index.len() + rows.len() <= u64::MAX,
        0 <= k < rows.len(),
        0 <= c < names.len(),
    ensures
        ({
            let res = crate::column::spec_validate_columns(columns, names).unwrap();
            spec_scanned_pairs(new_files, columns, res, old_index.len() + k)[c] == (
                res[c],
                staged[k][c],
            )
        }),
{
    let res = crate::column::spec_validate_columns(columns, names).unwrap();
    crate::column::lemma_validate_columns_elements(columns, names);
    crate::column::lemma_find_is_position(columns, names[c]);
    let j = crate::column::spec_col_position(columns, names[c]);
    assert(res[c].name == names[c]);
    assert(crate::column::spec_col_position(columns, res[c].name) == j);
    let base = old_index.len() as int;
    let app = Seq::new(
        rows.len(),
        |x: int| crate::storage::EntryView {
            index_id: (base + x) as u64,
            timestamp,
            value: staged[x][c],
        },
    );
    assert(new_files[j].entries == old_files[j].entries + app);
    assert forall|x: int| 0 <= x < app.len() implies ((#[trigger] app[x]).index_id as int) == base
        + x by {
        assert(base + x <= base + rows.len());
    }
    lemma_column_value_at_append(old_files[j].entries, app, base, k);
    assert(spec_scanned_pairs(new_files, columns, res, base + k)[c] == (
        res[c],
        spec_column_value_at(new_files[j].entries, base + k),
    ));
}


/// The values a group's rows hold for one column, in row order; rows
/// without a value for the column contribute nothing.
pub open spec fn spec_group_col_values(
    grouprows: Seq<Seq<(ColView, ValueView)>>,
    col: ColView,
) -> Seq<ValueView>
    decreases grouprows.len(),
{
    if grouprows.len() == 0 {
        Seq::<ValueView>::empty()
    } else {
        spec_group_col_values(grouprows.drop_last(), col) + (match spec_row_value(
            grouprows.last(),
            col,
        ) {
            Some(v) => seq![v],
            None => Seq::<ValueView>::empty(),
        })
    }
}

/// Where no float takes part, the relational fold pins exactly one
/// state: the deterministic fold of the column's values. Together with
/// the partition law of the aggregation algebra, this makes every
/// integer count, sum and average of a striped batch exact.
pub proof fn lemma_fold_group_deterministic(
    init: crate::aggregate::ComponentsView,
    col: ColView,
    grouprows: Seq<Seq<(ColView, ValueView)>>,
    final_c: crate::aggregate::ComponentsView,
)
    requires
        fold_group_behavior(init, col, grouprows, final_c),
        crate::aggregate::comp_no_float(init),
        forall|k: int|
            0 <= k < grouprows.len() ==> match spec_row_value(#[trigger] grouprows[k], col) {
                Some(v) => !(v is Float),
                None => true,
            },
    ensures
        final_c == crate::aggregate::spec_fold(init, spec_group_col_values(grouprows, col)),
        crate::aggregate::comp_no_float(final_c),
    decreases grouprows.len(),
{
    if grouprows.len() == 0 {
    } else {
        let prev = grouprows.drop_last();
        let mid = choose|mid: crate::aggregate::ComponentsView|
            fold_group_behavior(init, col, prev, mid) && #[trigger] fold_row_step(
                mid,
                grouprows.last(),
                col,
                final_c,
            );
        assert forall|k: int|
            0 <= k < prev.len() implies match spec_row_value(#[trigger] prev[k], col) {
            Some(v) => !(v is Float),
            None => true,
        } by {
            assert(prev[k] == grouprows[k]);
        }
        lemma_fold_group_deterministic(init, col, prev, mid);
        let vals_prev = spec_group_col_values(prev, col);
        match spec_row_value(grouprows.last(), col) {
            Some(v) => {
                assert(!(v is Float)) by {
                    assert(grouprows[grouprows.len() - 1] == grouprows.last());
                }
                crate::aggregate::lemma_aggregate_step_exact(mid, v, final_c);
                crate::aggregate::lemma_fold_concat(init, vals_prev, seq![v]);
                assert(crate::aggregate::spec_fold(mid, seq![v])
                    == crate::aggregate::spec_agg_step(mid, v)) by {
                    assert(seq![v].drop_first() =~= Seq::<ValueView>::empty());
                    assert(crate::aggregate::spec_fold(
                        crate::aggregate::spec_agg_step(mid, v),
                        Seq::<ValueView>::empty(),
                    ) == crate::aggregate::spec_agg_step(mid, v));
                    assert(seq![v][0] == v);
                }
                assert(spec_group_col_values(grouprows, col) == vals_prev + seq![v]);
            },
            None => {
                assert(spec_group_col_values(grouprows, col) =~= vals_prev);
            },
        }
    }
}

} // verus!} // verus!} // verus!

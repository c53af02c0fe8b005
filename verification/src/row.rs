//! Rows, row components and group keys.
//!
//! A row pairs each projected column with its value, null where the
//! column file has no entry for the row. A group key is the list of
//! `(column, value)` pairs of the grouping columns, in projection order:
//! every row of a query builds its key over the same column list, so two
//! keys are equal exactly when the grouped values are equal.

use vstd::prelude::*;
use crate::aggregate::{
    compute_behavior, gv_views, spec_arity, spec_from_array, spec_tag_of, GroupValue,
};
use crate::column::{AggregateColumn, Aggregate, ColView, Column};
use crate::value::{ColumnValue, FloatArith, ValueView};

verus! {

/// The views of a `(column, value)` pair list.
pub open spec fn pair_views(s: Seq<(Column, ColumnValue)>) -> Seq<(ColView, ValueView)> {
    s.map_values(|p: (Column, ColumnValue)| (p.0@, p.1@))
}

/// The views of a value list.
pub open spec fn value_views(s: Seq<ColumnValue>) -> Seq<ValueView> {
    s.map_values(|v: ColumnValue| v@)
}

/// One entry read from the index or from a column file.
pub struct RowComponent {
    pub index_id: u64,
    pub timestamp: u64,
    pub value: Option<ColumnValue>,
}

impl RowComponent {
    pub fn new(index_id: u64, timestamp: u64, value: Option<ColumnValue>) -> (r: Self)
        ensures
            r.index_id == index_id,
            r.timestamp == timestamp,
            r.value == value,
    {
        Self { index_id, timestamp, value }
    }

    /// Whether two entries belong to the same row: the row-id is the
    /// authoritative key, timestamp equality is defensive.
    pub fn same_row(&self, other: &RowComponent) -> (r: bool)
        ensures
            r == (self.index_id == other.index_id && self.timestamp == other.timestamp),
    {
        self.index_id == other.index_id && self.timestamp == other.timestamp
    }
}

/// A reconstructed row: its row-id, insertion timestamp, and one value
/// per projected column.
pub struct Row {
    pub index_id: u64,
    pub timestamp: u64,
    pub values: Vec<(Column, ColumnValue)>,
}

/// The first value paired with column `c`, if any.
pub open spec fn spec_row_value(values: Seq<(ColView, ValueView)>, c: ColView) -> Option<ValueView>
    decreases values.len(),
{
    if values.len() == 0 {
        None
    } else if values[0].0 == c {
        Some(values[0].1)
    } else {
        spec_row_value(values.drop_first(), c)
    }
}

proof fn lemma_row_value_at(values: Seq<(ColView, ValueView)>, c: ColView, i: int)
    requires
        0 <= i <= values.len(),
        forall|k: int| 0 <= k < i ==> (#[trigger] values[k]).0 != c,
        i < values.len() ==> values[i].0 == c,
    ensures
        i < values.len() ==> spec_row_value(values, c) == Some(values[i].1),
        i == values.len() ==> spec_row_value(values, c) is None,
    decreases i,
{
    if values.len() == 0 {
    } else if i == 0 {
    } else {
        lemma_row_value_at(values.drop_first(), c, i - 1);
    }
}

/// The pairs whose column is one of the grouping columns, in row order.
pub open spec fn spec_group_pairs(
    values: Seq<(ColView, ValueView)>,
    group_by: Seq<ColView>,
) -> Seq<(ColView, ValueView)>
    decreases values.len(),
{
    if values.len() == 0 {
        values
    } else {
        let prev = spec_group_pairs(values.drop_last(), group_by);
        if group_by.contains(values.last().0) {
            prev + seq![values.last()]
        } else {
            prev
        }
    }
}

impl Row {
    /// Assembles a row from its components. Always succeeds; the option
    /// mirrors the builder shape callers expect.
    pub fn from_components(
        index_id: u64,
        timestamp: u64,
        row_components: Vec<(Column, ColumnValue)>,
    ) -> (r: Option<Row>)
        ensures
            r matches Some(row) && row.index_id == index_id && row.timestamp == timestamp
                && row.values == row_components,
    {
        Some(Self { index_id, timestamp, values: row_components })
    }

    /// The values of the row, in projection order.
    pub fn into_values(self) -> (r: Vec<ColumnValue>)
        ensures
            value_views(r@) == pair_views(self.values@).map_values(
                |p: (ColView, ValueView)| p.1,
            ),
            r@.len() == self.values@.len(),
            forall|i: int|
                0 <= i < self.values@.len() ==> #[trigger] value_views(r@)[i] == pair_views(
                    self.values@,
                )[i].1,
    {
        let n: usize = self.values.len();
        let mut out: Vec<ColumnValue> = Vec::new();
        let mut i: usize = 0;
        while i < n
            invariant
                n == self.values@.len(),
                0 <= i <= n,
                value_views(out@).len() == i,
                forall|k: int|
                    0 <= k < i ==> value_views(out@)[k] == (#[trigger] pair_views(
                        self.values@,
                    )[k]).1,
            decreases n - i,
        {
            out.push(self.values[i].1.duplicate());
            i += 1;
        }
        proof {
            assert(value_views(out@) =~= pair_views(self.values@).map_values(
                |p: (ColView, ValueView)| p.1,
            ));
        }
        out
    }

    /// The first value this row holds for `column`, if any.
    pub fn value(&self, column: &Column) -> (r: Option<&ColumnValue>)
        ensures
            match spec_row_value(pair_views(self.values@), column@) {
                Some(v) => r matches Some(x) && x@ == v,
                None => r is None,
            },
    {
        let n: usize = self.values.len();
        let mut i: usize = 0;
        while i < n
            invariant
                n == self.values@.len(),
                0 <= i <= n,
                forall|k: int| 0 <= k < i ==> (#[trigger] pair_views(self.values@)[k]).0
                    != column@,
            decreases n - i,
        {
            if self.values[i].0.eq(column) {
                proof {
                    lemma_row_value_at(pair_views(self.values@), column@, i as int);
                }
                return Some(&self.values[i].1);
            }
            i += 1;
        }
        proof {
            lemma_row_value_at(pair_views(self.values@), column@, n as int);
        }
        None
    }

    /// The projected columns, in order.
    pub fn columns(&self) -> (r: Vec<Column>)
        ensures
            crate::column::col_views(r@) == pair_views(self.values@).map_values(
                |p: (ColView, ValueView)| p.0,
            ),
            r@.len() == self.values@.len(),
            forall|i: int|
                0 <= i < self.values@.len() ==> #[trigger] crate::column::col_views(r@)[i]
                    == pair_views(self.values@)[i].0,
    {
        let n: usize = self.values.len();
        let mut out: Vec<Column> = Vec::new();
        let mut i: usize = 0;
        while i < n
            invariant
                n == self.values@.len(),
                0 <= i <= n,
                crate::column::col_views(out@).len() == i,
                forall|k: int|
                    0 <= k < i ==> crate::column::col_views(out@)[k] == (#[trigger] pair_views(
                        self.values@,
                    )[k]).0,
            decreases n - i,
        {
            out.push(self.values[i].0.duplicate());
            i += 1;
        }
        proof {
            assert(crate::column::col_views(out@) =~= pair_views(self.values@).map_values(
                |p: (ColView, ValueView)| p.0,
            ));
        }
        out
    }

    /// The grouping key of this row: its `(column, value)` pairs for the
    /// grouping columns, in row order.
    pub fn group(&self, group_by_columns: &Vec<Column>) -> (r: GroupKey)
        ensures
            r@ == spec_group_pairs(
                pair_views(self.values@),
                crate::column::col_views(group_by_columns@),
            ),
    {
        let n: usize = self.values.len();
        let mut out: Vec<(Column, ColumnValue)> = Vec::new();
        let mut i: usize = 0;
        proof {
            assert(pair_views(self.values@).subrange(0, 0) =~= Seq::<(
                ColView,
                ValueView,
            )>::empty());
        }
        while i < n
            invariant
                n == self.values@.len(),
                0 <= i <= n,
                pair_views(out@) == spec_group_pairs(
                    pair_views(self.values@).subrange(0, i as int),
                    crate::column::col_views(group_by_columns@),
                ),
            decreases n - i,
        {
            let ghost vs = pair_views(self.values@);
            let ghost gb = crate::column::col_views(group_by_columns@);
            proof {
                assert(vs.subrange(0, i + 1).drop_last() =~= vs.subrange(0, i as int));
                assert(vs.subrange(0, i + 1).last() == vs[i as int]);
            }
            let ghost prev = pair_views(out@);
            if contains_column(group_by_columns, &self.values[i].0) {
                out.push((self.values[i].0.duplicate(), self.values[i].1.duplicate()));
                proof {
                    assert(pair_views(out@) =~= prev + seq![vs[i as int]]);
                }
            }
            i += 1;
        }
        proof {
            assert(pair_views(self.values@).subrange(0, n as int) =~= pair_views(self.values@));
        }
        GroupKey(out)
    }
}

/// Whether `column` occurs in `columns`.
pub fn contains_column(columns: &Vec<Column>, column: &Column) -> (r: bool)
    ensures
        r == crate::column::col_views(columns@).contains(column@),
{
    let n: usize = columns.len();
    let mut i: usize = 0;
    while i < n
        invariant
            n == columns@.len(),
            0 <= i <= n,
            forall|k: int| 0 <= k < i ==> crate::column::col_views(columns@)[k] != column@,
        decreases n - i,
    {
        if columns[i].eq(column) {
            proof {
                assert(crate::column::col_views(columns@)[i as int] == column@);
            }
            return true;
        }
        i += 1;
    }
    proof {
        assert(forall|k: int|
            0 <= k < crate::column::col_views(columns@).len() ==> crate::column::col_views(
                columns@,
            )[k] != column@);
    }
    false
}

/// The pairs that identify a group: the grouped columns with this group's
/// values, in projection order.
pub struct GroupKey(pub Vec<(Column, ColumnValue)>);

impl View for GroupKey {
    type V = Seq<(ColView, ValueView)>;

    open spec fn view(&self) -> Seq<(ColView, ValueView)> {
        pair_views(self.0@)
    }
}

impl PartialEq for GroupKey {
    fn eq(&self, other: &Self) -> (r: bool) {
        let n: usize = self.0.len();
        if n != other.0.len() {
            proof {
                assert(self@.len() != other@.len());
            }
            return false;
        }
        let mut i: usize = 0;
        while i < n
            invariant
                n == self.0@.len(),
                n == other.0@.len(),
                0 <= i <= n,
                forall|k: int| 0 <= k < i ==> self@[k] == other@[k],
            decreases n - i,
        {
            if !(self.0[i].0.eq(&other.0[i].0) && self.0[i].1.eq(&other.0[i].1)) {
                proof {
                    assert(self@[i as int] != other@[i as int]);
                }
                return false;
            }
            i += 1;
        }
        proof {
            assert(self@ =~= other@);
        }
        true
    }
}

impl Eq for GroupKey {}

impl vstd::std_specs::cmp::PartialEqSpecImpl for GroupKey {
    open spec fn obeys_eq_spec() -> bool {
        true
    }

    open spec fn eq_spec(&self, other: &Self) -> bool {
        self@ == other@
    }
}

impl GroupKey {
    pub fn duplicate(&self) -> (r: GroupKey)
        ensures
            r@ == self@,
    {
        let n: usize = self.0.len();
        let mut out: Vec<(Column, ColumnValue)> = Vec::new();
        let mut i: usize = 0;
        while i < n
            invariant
                n == self.0@.len(),
                0 <= i <= n,
                pair_views(out@).len() == i,
                forall|k: int| 0 <= k < i ==> pair_views(out@)[k] == self@[k],
            decreases n - i,
        {
            out.push((self.0[i].0.duplicate(), self.0[i].1.duplicate()));
            i += 1;
        }
        proof {
            assert(pair_views(out@) =~= self@);
        }
        GroupKey(out)
    }
}


/// The views of a finalized aggregate list: the aggregate column, its
/// value, and its recoverable state.
pub open spec fn agg_entry_views(s: Seq<(AggregateColumn, ColumnValue, Vec<ColumnValue>)>) -> Seq<
    ((Aggregate, ColView), ValueView, Seq<ValueView>),
> {
    s.map_values(
        |t: (AggregateColumn, ColumnValue, Vec<ColumnValue>)| (t.0@, t.1@, value_views(t.2@)),
    )
}

/// One output row of an aggregated query: the grouping values and, per
/// aggregate column, the finalized value with its recoverable state.
pub struct AggregatedRow {
    pub values: Vec<(Column, ColumnValue)>,
    pub aggregates: Vec<(AggregateColumn, ColumnValue, Vec<ColumnValue>)>,
}

impl AggregatedRow {
    pub fn new(
        values: Vec<(Column, ColumnValue)>,
        aggregates: Vec<(AggregateColumn, ColumnValue, Vec<ColumnValue>)>,
    ) -> (r: Self)
        ensures
            r.values == values,
            r.aggregates == aggregates,
    {
        Self { values, aggregates }
    }

    /// Finalizes a group into an output row: the key's pairs become the
    /// row's values, every component state computes its value and
    /// recoverable state.
    #[verifier::loop_isolation(false)]
    pub fn from_group<A: FloatArith>(group_key: GroupKey, group_value: GroupValue, arith: &A) -> (r:
        Self)
        ensures
            pair_views(r.values@) == group_key@,
            agg_entry_views(r.aggregates@).len() == gv_views(group_value.aggregates@).len(),
            forall|i: int|
                0 <= i < gv_views(group_value.aggregates@).len() ==> {
                    &&& (#[trigger] agg_entry_views(r.aggregates@)[i]).0 == gv_views(
                        group_value.aggregates@,
                    )[i].0
                    &&& compute_behavior(
                        gv_views(group_value.aggregates@)[i].1,
                        agg_entry_views(r.aggregates@)[i].1,
                        agg_entry_views(r.aggregates@)[i].2,
                    )
                },
    {
        let ghost orig = group_value.aggregates@;
        let mut rest = group_value.aggregates;
        let n: usize = rest.len();
        let mut aggs: Vec<(AggregateColumn, ColumnValue, Vec<ColumnValue>)> = Vec::new();
        let mut i: usize = 0;
        while i < n
            invariant
                0 <= i <= n,
                n == orig.len(),
                rest@ == orig.subrange(i as int, n as int),
                aggs@.len() == i,
                forall|k: int| 0 <= k < i ==> ((#[trigger] aggs@[k]).0)@ == (orig[k].0)@,
                forall|k: int|
                    0 <= k < i ==> compute_behavior(
                        (orig[k].1)@,
                        ((#[trigger] aggs@[k]).1)@,
                        value_views(aggs@[k].2@),
                    ),
            decreases n - i,
        {
            proof {
                assert(orig.subrange(i as int, n as int)[0] == orig[i as int]);
                assert(orig.subrange(i as int, n as int).remove(0) =~= orig.subrange(
                    i + 1,
                    n as int,
                ));
            }
            let (ac, comp) = rest.remove(0);
            let (value, comps) = comp.compute(arith);
            aggs.push((ac, value, comps));
            i += 1;
        }
        proof {
            assert forall|k: int| 0 <= k < n implies {
                &&& (#[trigger] agg_entry_views(aggs@)[k]).0 == gv_views(orig)[k].0
                &&& compute_behavior(
                    gv_views(orig)[k].1,
                    agg_entry_views(aggs@)[k].1,
                    agg_entry_views(aggs@)[k].2,
                )
            } by {
                assert(agg_entry_views(aggs@)[k] == ((aggs@[k].0)@, (aggs@[k].1)@, value_views(
                    aggs@[k].2@,
                )));
                assert(gv_views(orig)[k] == ((orig[k].0)@, (orig[k].1)@));
            }
        }
        Self { values: group_key.0, aggregates: aggs }
    }

    /// Turns this row back into a group key and a group state, using each
    /// aggregate's recoverable state; a state array that is too short is
    /// filled out with nulls.
    #[verifier::loop_isolation(false)]
    pub fn to_group(self) -> (r: (GroupKey, GroupValue))
        ensures
            r.0@ == pair_views(self.values@),
            gv_views(r.1.aggregates@).len() == agg_entry_views(self.aggregates@).len(),
            forall|i: int|
                0 <= i < agg_entry_views(self.aggregates@).len() ==> {
                    &&& (#[trigger] gv_views(r.1.aggregates@)[i]).0 == agg_entry_views(
                        self.aggregates@,
                    )[i].0
                    &&& agg_entry_views(self.aggregates@)[i].2.len() >= spec_arity(
                        agg_entry_views(self.aggregates@)[i].0.0,
                    ) ==> gv_views(r.1.aggregates@)[i].1 == spec_from_array(
                        agg_entry_views(self.aggregates@)[i].0.0,
                        agg_entry_views(self.aggregates@)[i].2,
                    )
                },
    {
        let ghost orig = self.aggregates@;
        let mut rest = self.aggregates;
        let n: usize = rest.len();
        let mut pairs: Vec<(AggregateColumn, Vec<ColumnValue>)> = Vec::new();
        let mut i: usize = 0;
        while i < n
            invariant
                0 <= i <= n,
                n == orig.len(),
                rest@ == orig.subrange(i as int, n as int),
                pairs@.len() == i,
                forall|k: int| 0 <= k < i ==> ((#[trigger] pairs@[k]).0)@ == (orig[k].0)@,
                forall|k: int|
                    0 <= k < i ==> (#[trigger] pairs@[k]).1@.len() >= spec_arity(
                        (orig[k].0)@.0,
                    ),
                forall|k: int|
                    0 <= k < i ==> value_views(orig[k].2@).len() >= spec_arity((orig[k].0)@.0)
                        ==> value_views((#[trigger] pairs@[k]).1@) == value_views(orig[k].2@),
            decreases n - i,
        {
            proof {
                assert(orig.subrange(i as int, n as int)[0] == orig[i as int]);
                assert(orig.subrange(i as int, n as int).remove(0) =~= orig.subrange(
                    i + 1,
                    n as int,
                ));
            }
            let (ac, _, mut comps) = rest.remove(0);
            let arity: usize = match ac.0 {
                Aggregate::Count => 1,
                Aggregate::Sum => 1,
                Aggregate::Avg => 2,
            };
            let ghost orig_comps = comps@;
            while comps.len() < arity
                invariant
                    comps@.len() >= orig_comps.len() || comps@.len() <= arity,
                    orig_comps.len() >= arity ==> comps@ == orig_comps,
                decreases arity - comps@.len(),
            {
                comps.push(ColumnValue::Null);
            }
            pairs.push((ac, comps));
            i += 1;
        }
        let group_value = GroupValue::from_aggregates(pairs);
        proof {
            assert forall|k: int| 0 <= k < n implies {
                &&& (#[trigger] gv_views(group_value.aggregates@)[k]).0 == agg_entry_views(
                    orig,
                )[k].0
                &&& agg_entry_views(orig)[k].2.len() >= spec_arity(agg_entry_views(orig)[k].0.0)
                    ==> gv_views(group_value.aggregates@)[k].1 == spec_from_array(
                    agg_entry_views(orig)[k].0.0,
                    agg_entry_views(orig)[k].2,
                )
            } by {
                assert(agg_entry_views(orig)[k] == ((orig[k].0)@, (orig[k].1)@, value_views(
                    orig[k].2@,
                )));
            }
        }
        (GroupKey(self.values), group_value)
    }

    /// The grouping values and, per aggregate, the finalized value with
    /// its recoverable state.
    #[verifier::loop_isolation(false)]
    pub fn into_values(self) -> (r: (Vec<ColumnValue>, Vec<(ColumnValue, Vec<ColumnValue>)>))
        ensures
            value_views(r.0@) == pair_views(self.values@).map_values(
                |p: (ColView, ValueView)| p.1,
            ),
            r.0@.len() == self.values@.len(),
            forall|i: int|
                0 <= i < self.values@.len() ==> #[trigger] value_views(r.0@)[i] == pair_views(
                    self.values@,
                )[i].1,
            r.1@.len() == self.aggregates@.len(),
            forall|k: int|
                0 <= k < self.aggregates@.len() ==> ((#[trigger] r.1@[k]).0)@ == (
                self.aggregates@[k].1)@ && value_views(r.1@[k].1@) == value_views(
                    self.aggregates@[k].2@,
                ),
    {
        let n: usize = self.values.len();
        let mut vals: Vec<ColumnValue> = Vec::new();
        let mut i: usize = 0;
        while i < n
            invariant
                0 <= i <= n,
                vals@.len() == i,
                forall|k: int| 0 <= k < i ==> ((#[trigger] vals@[k]))@ == (self.values@[k].1)@,
            decreases n - i,
        {
            vals.push(self.values[i].1.duplicate());
            i += 1;
        }
        let m: usize = self.aggregates.len();
        let ghost orig = self.aggregates@;
        let mut rest = self.aggregates;
        let mut aggs: Vec<(ColumnValue, Vec<ColumnValue>)> = Vec::new();
        let mut j: usize = 0;
        while j < m
            invariant
                0 <= j <= m,
                m == orig.len(),
                rest@ == orig.subrange(j as int, m as int),
                aggs@.len() == j,
                forall|k: int| 0 <= k < j ==> ((#[trigger] aggs@[k]).0)@ == (orig[k].1)@,
                forall|k: int|
                    0 <= k < j ==> value_views((#[trigger] aggs@[k]).1@) == value_views(
                        orig[k].2@,
                    ),
            decreases m - j,
        {
            proof {
                assert(orig.subrange(j as int, m as int)[0] == orig[j as int]);
                assert(orig.subrange(j as int, m as int).remove(0) =~= orig.subrange(
                    j + 1,
                    m as int,
                ));
            }
            let (_, value, comps) = rest.remove(0);
            aggs.push((value, comps));
            j += 1;
        }
        proof {
            assert(value_views(vals@) =~= pair_views(self.values@).map_values(
                |p: (ColView, ValueView)| p.1,
            ));
        }
        (vals, aggs)
    }

    /// The grouping columns, in order.
    #[verifier::loop_isolation(false)]
    pub fn columns(&self) -> (r: Vec<Column>)
        ensures
            crate::column::col_views(r@) == pair_views(self.values@).map_values(
                |p: (ColView, ValueView)| p.0,
            ),
            r@.len() == self.values@.len(),
            forall|i: int|
                0 <= i < self.values@.len() ==> #[trigger] crate::column::col_views(r@)[i]
                    == pair_views(self.values@)[i].0,
    {
        let n: usize = self.values.len();
        let mut out: Vec<Column> = Vec::new();
        let mut i: usize = 0;
        while i < n
            invariant
                0 <= i <= n,
                out@.len() == i,
                forall|k: int| 0 <= k < i ==> ((#[trigger] out@[k]))@ == (self.values@[k].0)@,
            decreases n - i,
        {
            out.push(self.values[i].0.duplicate());
            i += 1;
        }
        proof {
            assert(crate::column::col_views(out@) =~= pair_views(self.values@).map_values(
                |p: (ColView, ValueView)| p.0,
            ));
        }
        out
    }

    /// Each aggregate column with its finalized value; the value's type
    /// can differ from the source column's, so both travel together.
    #[verifier::loop_isolation(false)]
    pub fn aggregate_columns(&self) -> (r: Vec<(AggregateColumn, ColumnValue)>)
        ensures
            r@.len() == self.aggregates@.len(),
            forall|k: int|
                0 <= k < self.aggregates@.len() ==> ((#[trigger] r@[k]).0)@ == (
                self.aggregates@[k].0)@ && (r@[k].1)@ == (self.aggregates@[k].1)@,
    {
        let n: usize = self.aggregates.len();
        let mut out: Vec<(AggregateColumn, ColumnValue)> = Vec::new();
        let mut i: usize = 0;
        while i < n
            invariant
                0 <= i <= n,
                out@.len() == i,
                forall|k: int| 0 <= k < i ==> ((#[trigger] out@[k]).0)@ == (
                self.aggregates@[k].0)@,
                forall|k: int| 0 <= k < i ==> ((#[trigger] out@[k]).1)@ == (
                self.aggregates@[k].1)@,
            decreases n - i,
        {
            out.push(
                (self.aggregates[i].0.duplicate(), self.aggregates[i].1.duplicate()),
            );
            i += 1;
        }
        out
    }
}

} // verus!

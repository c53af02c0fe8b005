//! The mergeable aggregation algebra: COUNT, SUM and AVG as components
//! that fold rows on one node and combine exactly across nodes.
//!
//! A component carries the full recoverable state of its aggregate: a
//! running count, a running sum, or both for an average. Folding a row
//! uses the per-row operation (count adds one, sum adds the value);
//! merging two partial states is always the additive combine. The laws at
//! the end show that folding a partition and merging the parts yields the
//! fold of the whole, exactly, for integer-valued data.

use vstd::prelude::*;
use crate::column::{AggregateColumn, Aggregate, ColView};
use crate::row::{pair_views, spec_row_value, value_views, Row};
use crate::value::{
    add_behavior, div_behavior, spec_add, ColumnValue, FloatArith, ValueView,
};

verus! {

/// The merging operation applied to one component.
#[derive(Debug, Clone, Copy)]
pub enum MergeOp {
    Count,
    Sum,
}

/// A value that can seed and fold aggregate components.
pub trait Aggregable: Sized {
    fn init(aggregate_column: &AggregateColumn) -> Self;

    fn merge<A: FloatArith>(&mut self, merge_op: MergeOp, other: Self, arith: &A);
}

/// The seed of a component over a column: counts start at integer zero,
/// sums at the column type's default.
pub open spec fn spec_value_init(a: (Aggregate, ColView)) -> ValueView {
    match a.0 {
        Aggregate::Count => ValueView::Int(0i64),
        Aggregate::Sum => ColumnValue::spec_default_for(a.1.ty),
        Aggregate::Avg => ColumnValue::spec_default_for(a.1.ty),
    }
}

impl Aggregable for ColumnValue {
    fn init(aggregate_column: &AggregateColumn) -> (r: ColumnValue)
        ensures
            r@ == spec_value_init(aggregate_column@),
    {
        match aggregate_column.0 {
            Aggregate::Count => ColumnValue::Integer(0),
            Aggregate::Sum => ColumnValue::default_for(aggregate_column.1.ty),
            Aggregate::Avg => ColumnValue::default_for(aggregate_column.1.ty),
        }
    }

    /// Folds `other` into the running value: counting adds one whatever
    /// the value, summing adds the value itself.
    fn merge<A: FloatArith>(&mut self, merge_op: MergeOp, other: ColumnValue, arith: &A)
        ensures
            match merge_op {
                MergeOp::Count => add_behavior(old(self)@, ValueView::Int(1i64), final (self)@),
                MergeOp::Sum => add_behavior(old(self)@, other@, final (self)@),
            },
    {
        let current = self.duplicate();
        match merge_op {
            MergeOp::Count => {
                *self = current.add(ColumnValue::Integer(1), arith);
            },
            MergeOp::Sum => {
                *self = current.add(other, arith);
            },
        }
    }
}

/// Mathematical model of [`AggregateComponents`].
pub enum ComponentsView {
    Count(ValueView),
    Sum(ValueView),
    Avg { sum: ValueView, count: ValueView },
}

/// The internal, mergeable state of one aggregate.
#[derive(Debug)]
pub enum AggregateComponents {
    Count(ColumnValue),
    Sum(ColumnValue),
    Avg { sum: ColumnValue, count: ColumnValue },
}

impl View for AggregateComponents {
    type V = ComponentsView;

    open spec fn view(&self) -> ComponentsView {
        match self {
            AggregateComponents::Count(c) => ComponentsView::Count(c@),
            AggregateComponents::Sum(s) => ComponentsView::Sum(s@),
            AggregateComponents::Avg { sum, count } => ComponentsView::Avg {
                sum: sum@,
                count: count@,
            },
        }
    }
}

/// The aggregate an existing component state belongs to.
pub open spec fn spec_tag_of(c: ComponentsView) -> Aggregate {
    match c {
        ComponentsView::Count(_) => Aggregate::Count,
        ComponentsView::Sum(_) => Aggregate::Sum,
        ComponentsView::Avg { .. } => Aggregate::Avg,
    }
}

/// The initial component state of an aggregate column.
pub open spec fn spec_init_components(a: (Aggregate, ColView)) -> ComponentsView {
    match a.0 {
        Aggregate::Count => ComponentsView::Count(ValueView::Int(0i64)),
        Aggregate::Sum => ComponentsView::Sum(ColumnValue::spec_default_for(a.1.ty)),
        Aggregate::Avg => ComponentsView::Avg {
            sum: ColumnValue::spec_default_for(a.1.ty),
            count: ValueView::Int(0i64),
        },
    }
}

/// How many values the recoverable state of an aggregate carries.
pub open spec fn spec_arity(a: Aggregate) -> int {
    match a {
        Aggregate::Count => 1,
        Aggregate::Sum => 1,
        Aggregate::Avg => 2,
    }
}

/// The component state rebuilt from a recoverable state array.
pub open spec fn spec_from_array(a: Aggregate, comps: Seq<ValueView>) -> ComponentsView
    recommends
        comps.len() >= spec_arity(a),
{
    match a {
        Aggregate::Count => ComponentsView::Count(comps[0]),
        Aggregate::Sum => ComponentsView::Sum(comps[0]),
        Aggregate::Avg => ComponentsView::Avg { sum: comps[0], count: comps[1] },
    }
}

/// What folding one row value into a component does: the shape is kept,
/// counts add one, sums add the value.
pub open spec fn aggregate_behavior(
    old_c: ComponentsView,
    v: ValueView,
    new_c: ComponentsView,
) -> bool {
    match (old_c, new_c) {
        (ComponentsView::Count(a), ComponentsView::Count(b)) => add_behavior(
            a,
            ValueView::Int(1i64),
            b,
        ),
        (ComponentsView::Sum(a), ComponentsView::Sum(b)) => add_behavior(a, v, b),
        (
            ComponentsView::Avg { sum: s0, count: c0 },
            ComponentsView::Avg { sum: s1, count: c1 },
        ) => add_behavior(s0, v, s1) && add_behavior(c0, ValueView::Int(1i64), c1),
        _ => false,
    }
}

/// What merging two partial states does: components of the same shape
/// combine additively, a shape mismatch leaves the left state unchanged.
pub open spec fn comp_merge_behavior(
    l: ComponentsView,
    r: ComponentsView,
    new_c: ComponentsView,
) -> bool {
    match (l, r) {
        (ComponentsView::Count(a), ComponentsView::Count(b)) => match new_c {
            ComponentsView::Count(x) => add_behavior(a, b, x),
            _ => false,
        },
        (ComponentsView::Sum(a), ComponentsView::Sum(b)) => match new_c {
            ComponentsView::Sum(x) => add_behavior(a, b, x),
            _ => false,
        },
        (
            ComponentsView::Avg { sum: s0, count: c0 },
            ComponentsView::Avg { sum: s1, count: c1 },
        ) => match new_c {
            ComponentsView::Avg { sum: s2, count: c2 } => add_behavior(s0, s1, s2)
                && add_behavior(c0, c1, c2),
            _ => false,
        },
        _ => new_c == l,
    }
}

/// What finalizing a state yields: the aggregate's value and its full
/// recoverable state. An average divides sum by count, so an average over
/// zero rows finalizes to null.
pub open spec fn compute_behavior(
    c: ComponentsView,
    value: ValueView,
    comps: Seq<ValueView>,
) -> bool {
    match c {
        ComponentsView::Count(x) => value == x && comps == seq![x],
        ComponentsView::Sum(s) => value == s && comps == seq![s],
        ComponentsView::Avg { sum, count } => div_behavior(sum, count, value) && comps == seq![
            sum,
            count,
        ],
    }
}

impl AggregateComponents {
    pub fn new(aggregate_column: &AggregateColumn) -> (r: Self)
        ensures
            r@ == spec_init_components(aggregate_column@),
    {
        match aggregate_column.0 {
            Aggregate::Count => AggregateComponents::Count(ColumnValue::Integer(0)),
            Aggregate::Sum => AggregateComponents::Sum(
                ColumnValue::default_for(aggregate_column.1.ty),
            ),
            Aggregate::Avg => AggregateComponents::Avg {
                sum: ColumnValue::default_for(aggregate_column.1.ty),
                count: ColumnValue::Integer(0),
            },
        }
    }

    /// Rebuilds a component state from its recoverable state array, as
    /// carried on the wire: one element for count and sum, sum then count
    /// for an average.
    pub fn from_components_array(
        aggregate_column: &AggregateColumn,
        components: Vec<ColumnValue>,
    ) -> (r: Self)
        requires
            components@.len() >= spec_arity(aggregate_column.0),
        ensures
            r@ == spec_from_array(aggregate_column.0, value_views(components@)),
    {
        match aggregate_column.0 {
            Aggregate::Count => AggregateComponents::Count(components[0].duplicate()),
            Aggregate::Sum => AggregateComponents::Sum(components[0].duplicate()),
            Aggregate::Avg => AggregateComponents::Avg {
                sum: components[0].duplicate(),
                count: components[1].duplicate(),
            },
        }
    }

    /// Folds one row's value into this state.
    pub fn aggregate<A: FloatArith>(&mut self, value: &ColumnValue, arith: &A)
        ensures
            aggregate_behavior(old(self)@, value@, final (self)@),
    {
        match self {
            AggregateComponents::Count(count) => {
                count.merge(MergeOp::Count, value.duplicate(), arith);
            },
            AggregateComponents::Sum(sum) => {
                sum.merge(MergeOp::Sum, value.duplicate(), arith);
            },
            AggregateComponents::Avg { sum, count } => {
                sum.merge(MergeOp::Sum, value.duplicate(), arith);
                count.merge(MergeOp::Count, value.duplicate(), arith);
            },
        }
    }

    /// Combines another partial state into this one, additively.
    pub fn merge<A: FloatArith>(&mut self, other: AggregateComponents, arith: &A)
        ensures
            comp_merge_behavior(old(self)@, other@, final (self)@),
    {
        match (&mut *self, other) {
            (AggregateComponents::Count(left), AggregateComponents::Count(right)) => {
                left.merge(MergeOp::Sum, right, arith);
            },
            (AggregateComponents::Sum(left), AggregateComponents::Sum(right)) => {
                left.merge(MergeOp::Sum, right, arith);
            },
            (
                AggregateComponents::Avg { sum: left_sum, count: left_count },
                AggregateComponents::Avg { sum: right_sum, count: right_count },
            ) => {
                left_sum.merge(MergeOp::Sum, right_sum, arith);
                left_count.merge(MergeOp::Sum, right_count, arith);
            },
            _ => {},
        }
    }

    /// Finalizes this state into the aggregate's value and its full
    /// recoverable state.
    pub fn compute<A: FloatArith>(self, arith: &A) -> (r: (ColumnValue, Vec<ColumnValue>))
        ensures
            compute_behavior(self@, r.0@, value_views(r.1@)),
            (self@ matches ComponentsView::Avg { count, .. } && count == ValueView::Int(0i64))
                ==> r.0@ is Null,
    {
        match self {
            AggregateComponents::Count(count) => {
                let out = count.duplicate();
                let mut comps: Vec<ColumnValue> = Vec::new();
                comps.push(count);
                proof {
                    assert(value_views(comps@) =~= seq![out@]);
                }
                (out, comps)
            },
            AggregateComponents::Sum(sum) => {
                let out = sum.duplicate();
                let mut comps: Vec<ColumnValue> = Vec::new();
                comps.push(sum);
                proof {
                    assert(value_views(comps@) =~= seq![out@]);
                }
                (out, comps)
            },
            AggregateComponents::Avg { sum, count } => {
                let value = sum.duplicate().div(count.duplicate(), arith);
                let ghost sv = sum@;
                let ghost cv = count@;
                let mut comps: Vec<ColumnValue> = Vec::new();
                comps.push(sum);
                comps.push(count);
                proof {
                    assert(value_views(comps@) =~= seq![sv, cv]);
                }
                (value, comps)
            },
        }
    }

    /// A copy whose mathematical state equals this one's.
    pub fn duplicate(&self) -> (r: Self)
        ensures
            r@ == self@,
    {
        match self {
            AggregateComponents::Count(c) => AggregateComponents::Count(c.duplicate()),
            AggregateComponents::Sum(s) => AggregateComponents::Sum(s.duplicate()),
            AggregateComponents::Avg { sum, count } => AggregateComponents::Avg {
                sum: sum.duplicate(),
                count: count.duplicate(),
            },
        }
    }
}

/// The views of an aggregate state list.
pub open spec fn gv_views(s: Seq<(AggregateColumn, AggregateComponents)>) -> Seq<
    ((Aggregate, ColView), ComponentsView),
> {
    s.map_values(|p: (AggregateColumn, AggregateComponents)| (p.0@, p.1@))
}

/// The first position in `aggs` whose aggregate column equals `ac`.
#[verifier::loop_isolation(false)]
fn find_aggregate_position(
    aggs: &Vec<(AggregateColumn, AggregateComponents)>,
    ac: &AggregateColumn,
) -> (r: Option<usize>)
    ensures
        match r {
            Some(j) => (j as int) < aggs@.len() && (aggs@[j as int].0)@ == ac@ && forall|k: int|
                0 <= k < j ==> ((#[trigger] aggs@[k]).0)@ != ac@,
            None => forall|k: int| 0 <= k < aggs@.len() ==> ((#[trigger] aggs@[k]).0)@ != ac@,
        },
{
    let m: usize = aggs.len();
    let mut j: usize = 0;
    while j < m
        invariant
            0 <= j <= m,
            forall|k: int| 0 <= k < j ==> ((#[trigger] aggs@[k]).0)@ != ac@,
        decreases m - j,
    {
        if aggs[j].0.eq(ac) {
            return Some(j);
        }
        j += 1;
    }
    None
}


/// The position of the first state in `others` carried under aggregate
/// column `ac`, or `-1`.
pub open spec fn spec_agg_position(
    others: Seq<((Aggregate, ColView), ComponentsView)>,
    ac: (Aggregate, ColView),
) -> int
    decreases others.len(),
{
    if others.len() == 0 {
        -1
    } else if others[0].0 == ac {
        0
    } else {
        let r = spec_agg_position(others.drop_first(), ac);
        if r < 0 {
            -1
        } else {
            r + 1
        }
    }
}

pub proof fn lemma_agg_position_at(
    others: Seq<((Aggregate, ColView), ComponentsView)>,
    ac: (Aggregate, ColView),
    i: int,
)
    requires
        0 <= i <= others.len(),
        forall|k: int| 0 <= k < i ==> (#[trigger] others[k]).0 != ac,
        i < others.len() ==> others[i].0 == ac,
    ensures
        i < others.len() ==> spec_agg_position(others, ac) == i,
        i == others.len() ==> spec_agg_position(others, ac) == -1,
    decreases i,
{
    if others.len() == 0 {
    } else if i == 0 {
    } else {
        lemma_agg_position_at(others.drop_first(), ac, i - 1);
    }
}

/// What the search-and-consume pass of a merge decides: for each
/// aggregate column in order, the other side's state consumed for it —
/// the first remaining one under the same column, each consumed at most
/// once — and the other states left over.
pub open spec fn spec_consume(
    cols: Seq<(Aggregate, ColView)>,
    others: Seq<((Aggregate, ColView), ComponentsView)>,
) -> (Seq<Option<ComponentsView>>, Seq<((Aggregate, ColView), ComponentsView)>)
    decreases cols.len(),
{
    if cols.len() == 0 {
        (Seq::<Option<ComponentsView>>::empty(), others)
    } else {
        let p = spec_agg_position(others, cols[0]);
        if p < 0 || p >= others.len() {
            let rest = spec_consume(cols.drop_first(), others);
            (seq![None] + rest.0, rest.1)
        } else {
            let rest = spec_consume(cols.drop_first(), others.remove(p));
            (seq![Some(others[p].1)] + rest.0, rest.1)
        }
    }
}


/// The consume pass decides once per aggregate column.
pub proof fn lemma_consume_len(
    cols: Seq<(Aggregate, ColView)>,
    others: Seq<((Aggregate, ColView), ComponentsView)>,
)
    ensures
        spec_consume(cols, others).0.len() == cols.len(),
    decreases cols.len(),
{
    if cols.len() > 0 {
        let p = spec_agg_position(others, cols[0]);
        if p < 0 || p >= others.len() {
            lemma_consume_len(cols.drop_first(), others);
        } else {
            lemma_consume_len(cols.drop_first(), others.remove(p));
        }
    }
}

/// The partial aggregation state of one group: one component state per
/// aggregate column, in select order.
#[derive(Debug)]
pub struct GroupValue {
    pub aggregates: Vec<(AggregateColumn, AggregateComponents)>,
}

/// What folding one row into a group state does, elementwise.
pub open spec fn group_add_behavior(
    old_v: Seq<((Aggregate, ColView), ComponentsView)>,
    row_pairs: Seq<(ColView, ValueView)>,
    new_v: Seq<((Aggregate, ColView), ComponentsView)>,
) -> bool {
    &&& new_v.len() == old_v.len()
    &&& forall|i: int|
        0 <= i < old_v.len() ==> {
            &&& (#[trigger] new_v[i]).0 == old_v[i].0
            &&& match spec_row_value(row_pairs, old_v[i].0.1) {
                Some(v) => aggregate_behavior(old_v[i].1, v, new_v[i].1),
                None => new_v[i].1 == old_v[i].1,
            }
        }
}

/// What merging two group states does when both carry the same aggregate
/// columns in the same order, elementwise.
pub open spec fn group_merge_behavior(
    old_v: Seq<((Aggregate, ColView), ComponentsView)>,
    other_v: Seq<((Aggregate, ColView), ComponentsView)>,
    new_v: Seq<((Aggregate, ColView), ComponentsView)>,
) -> bool {
    &&& new_v.len() == old_v.len()
    &&& forall|i: int|
        0 <= i < old_v.len() ==> {
            &&& (#[trigger] new_v[i]).0 == old_v[i].0
            &&& comp_merge_behavior(old_v[i].1, other_v[i].1, new_v[i].1)
        }
}

/// The aggregate columns of a group state.
pub open spec fn gv_columns(s: Seq<((Aggregate, ColView), ComponentsView)>) -> Seq<
    (Aggregate, ColView),
> {
    s.map_values(|p: ((Aggregate, ColView), ComponentsView)| p.0)
}

impl GroupValue {
    /// A fresh group state: every component at its seed.
    #[verifier::loop_isolation(false)]
    pub fn new(aggregate_columns: Vec<AggregateColumn>) -> (r: Self)
        ensures
            gv_views(r.aggregates@).len() == aggregate_columns@.len(),
            forall|i: int|
                0 <= i < aggregate_columns@.len() ==> #[trigger] gv_views(r.aggregates@)[i] == (
                    aggregate_columns@[i]@,
                    spec_init_components(aggregate_columns@[i]@),
                ),
    {
        let n: usize = aggregate_columns.len();
        let mut out: Vec<(AggregateColumn, AggregateComponents)> = Vec::new();
        let mut i: usize = 0;
        while i < n
            invariant
                n == aggregate_columns@.len(),
                0 <= i <= n,
                out@.len() == i,
                forall|k: int| 0 <= k < i ==> ((#[trigger] out@[k]).0)@ == aggregate_columns@[k]@,
                forall|k: int|
                    0 <= k < i ==> ((#[trigger] out@[k]).1)@ == spec_init_components(
                        aggregate_columns@[k]@,
                    ),
            decreases n - i,
        {
            let c = AggregateComponents::new(&aggregate_columns[i]);
            out.push((aggregate_columns[i].duplicate(), c));
            i += 1;
        }
        proof {
            assert forall|k: int| 0 <= k < n implies #[trigger] gv_views(out@)[k] == (
                aggregate_columns@[k]@,
                spec_init_components(aggregate_columns@[k]@),
            ) by {
                assert(gv_views(out@)[k] == ((out@[k].0)@, (out@[k].1)@));
            }
        }
        Self { aggregates: out }
    }

    /// A group state rebuilt from recoverable state arrays.
    #[verifier::loop_isolation(false)]
    pub fn from_aggregates(aggregates: Vec<(AggregateColumn, Vec<ColumnValue>)>) -> (r: Self)
        requires
            forall|i: int|
                0 <= i < aggregates@.len() ==> (#[trigger] aggregates@[i]).1@.len() >= spec_arity(
                    aggregates@[i].0.0,
                ),
        ensures
            gv_views(r.aggregates@).len() == aggregates@.len(),
            forall|i: int|
                0 <= i < aggregates@.len() ==> #[trigger] gv_views(r.aggregates@)[i] == (
                    aggregates@[i].0@,
                    spec_from_array(
                        aggregates@[i].0.0,
                        value_views(aggregates@[i].1@),
                    ),
                ),
    {
        let n: usize = aggregates.len();
        let mut rest = aggregates;
        let mut out: Vec<(AggregateColumn, AggregateComponents)> = Vec::new();
        let mut i: usize = 0;
        let ghost orig = rest@;
        while i < n
            invariant
                n == orig.len(),
                0 <= i <= n,
                rest@ == orig.subrange(i as int, n as int),
                forall|k: int|
                    0 <= k < orig.len() ==> (#[trigger] orig[k]).1@.len() >= spec_arity(
                        orig[k].0.0,
                    ),
                out@.len() == i,
                forall|k: int| 0 <= k < i ==> ((#[trigger] out@[k]).0)@ == (orig[k].0)@,
                forall|k: int|
                    0 <= k < i ==> ((#[trigger] out@[k]).1)@ == spec_from_array(
                        orig[k].0.0,
                        value_views(orig[k].1@),
                    ),
            decreases n - i,
        {
            proof {
                assert(orig.subrange(i as int, n as int)[0] == orig[i as int]);
                assert(orig.subrange(i as int, n as int).remove(0) =~= orig.subrange(
                    i + 1,
                    n as int,
                ));
            }
            let (ac, comps) = rest.remove(0);
            let c = AggregateComponents::from_components_array(&ac, comps);
            out.push((ac, c));
            i += 1;
        }
        proof {
            assert forall|k: int| 0 <= k < n implies #[trigger] gv_views(out@)[k] == (
                orig[k].0@,
                spec_from_array(orig[k].0.0, value_views(orig[k].1@)),
            ) by {
                assert(gv_views(out@)[k] == ((out@[k].0)@, (out@[k].1)@));
            }
        }
        Self { aggregates: out }
    }

    /// Folds one row into this group's components: each aggregate folds
    /// the row's value for its column, when the row has one.
    #[verifier::loop_isolation(false)]
    pub fn add<A: FloatArith>(&mut self, row: &Row, arith: &A)
        ensures
            group_add_behavior(
                gv_views(old(self).aggregates@),
                pair_views(row.values@),
                gv_views(final (self).aggregates@),
            ),
    {
        let ghost orig = self.aggregates@;
        let mut rest: Vec<(AggregateColumn, AggregateComponents)> = Vec::new();
        core::mem::swap(&mut rest, &mut self.aggregates);
        let n: usize = rest.len();
        let mut out: Vec<(AggregateColumn, AggregateComponents)> = Vec::new();
        let mut i: usize = 0;
        while i < n
            invariant
                0 <= i <= n,
                n == orig.len(),
                rest@ == orig.subrange(i as int, n as int),
                out@.len() == i,
                forall|k: int| 0 <= k < i ==> ((#[trigger] out@[k]).0)@ == (orig[k].0)@,
                forall|k: int|
                    0 <= k < i ==> match spec_row_value(
                        pair_views(row.values@),
                        (orig[k].0)@.1,
                    ) {
                        Some(v) => aggregate_behavior(
                            (orig[k].1)@,
                            v,
                            ((#[trigger] out@[k]).1)@,
                        ),
                        None => (out@[k].1)@ == (orig[k].1)@,
                    },
            decreases n - i,
        {
            proof {
                assert(orig.subrange(i as int, n as int)[0] == orig[i as int]);
                assert(orig.subrange(i as int, n as int).remove(0) =~= orig.subrange(
                    i + 1,
                    n as int,
                ));
            }
            let (ac, mut comp) = rest.remove(0);
            let value_opt = row.value(&ac.1);
            match value_opt {
                Some(value) => {
                    let v = value.duplicate();
                    comp.aggregate(&v, arith);
                },
                None => {},
            }
            out.push((ac, comp));
            i += 1;
        }
        core::mem::swap(&mut out, &mut self.aggregates);
        proof {
            assert(gv_views(self.aggregates@).len() == gv_views(orig).len());
            assert forall|k: int| 0 <= k < gv_views(orig).len() implies {
                &&& (#[trigger] gv_views(self.aggregates@)[k]).0 == gv_views(orig)[k].0
                &&& match spec_row_value(pair_views(row.values@), gv_views(orig)[k].0.1) {
                    Some(v) => aggregate_behavior(
                        gv_views(orig)[k].1,
                        v,
                        gv_views(self.aggregates@)[k].1,
                    ),
                    None => gv_views(self.aggregates@)[k].1 == gv_views(orig)[k].1,
                }
            } by {
                assert(gv_views(orig)[k] == ((orig[k].0)@, (orig[k].1)@));
                assert(gv_views(self.aggregates@)[k] == ((self.aggregates@[k].0)@, (
                self.aggregates@[k].1)@));
            }
        }
    }

    /// Combines another group's partial state into this one. The states of
    /// one query carry the same aggregate columns in the same order; then
    /// every component combines additively with its counterpart.
    #[verifier::loop_isolation(false)]
    pub fn merge<A: FloatArith>(&mut self, other: GroupValue, arith: &A)
        ensures
            gv_views(final (self).aggregates@).len() == gv_views(old(self).aggregates@).len(),
            forall|i: int|
                0 <= i < gv_views(old(self).aggregates@).len() ==> (#[trigger] gv_views(
                    final (self).aggregates@,
                )[i]).0 == gv_views(old(self).aggregates@)[i].0,
            gv_columns(gv_views(other.aggregates@)) == gv_columns(gv_views(old(self).aggregates@))
                ==> group_merge_behavior(
                gv_views(old(self).aggregates@),
                gv_views(other.aggregates@),
                gv_views(final (self).aggregates@),
            ),
            forall|i: int|
                0 <= i < gv_views(old(self).aggregates@).len() ==> (match (#[trigger] spec_consume(
                    gv_columns(gv_views(old(self).aggregates@)),
                    gv_views(other.aggregates@),
                ).0[i]) {
                    Some(oc) => comp_merge_behavior(
                        gv_views(old(self).aggregates@)[i].1,
                        oc,
                        gv_views(final (self).aggregates@)[i].1,
                    ),
                    None => gv_views(final (self).aggregates@)[i].1 == gv_views(
                        old(self).aggregates@,
                    )[i].1,
                }),
    {
        let ghost orig = self.aggregates@;
        let ghost orig_other = other.aggregates@;
        let ghost aligned = gv_columns(gv_views(orig_other)) == gv_columns(gv_views(orig));
        let mut rest: Vec<(AggregateColumn, AggregateComponents)> = Vec::new();
        core::mem::swap(&mut rest, &mut self.aggregates);
        let mut other_aggs = other.aggregates;
        let n: usize = rest.len();
        let mut out: Vec<(AggregateColumn, AggregateComponents)> = Vec::new();
        let mut i: usize = 0;
        let ghost all_cols = gv_columns(gv_views(orig));
        let ghost full = spec_consume(all_cols, gv_views(orig_other));
        proof {
            if aligned {
                assert(gv_columns(gv_views(orig_other)).len() == gv_columns(
                    gv_views(orig),
                ).len());
                assert(other_aggs@ =~= orig_other.subrange(0, orig_other.len() as int));
            }
            assert(all_cols.len() == n);
            lemma_consume_len(all_cols, gv_views(orig_other));
            assert(all_cols.subrange(0, n as int) =~= all_cols);
            assert(full.0.subrange(0, n as int) =~= full.0);
            assert(spec_consume(all_cols.subrange(0, n as int), gv_views(other_aggs@)) == (
                full.0.subrange(0, n as int),
                full.1,
            ));
        }
        while i < n
            invariant
                0 <= i <= n,
                n == orig.len(),
                rest@ == orig.subrange(i as int, n as int),
                out@.len() == i,
                forall|k: int| 0 <= k < i ==> ((#[trigger] out@[k]).0)@ == (orig[k].0)@,
                aligned ==> orig_other.len() == n && other_aggs@ == orig_other.subrange(
                    i as int,
                    n as int,
                ),
                aligned ==> forall|k: int|
                    0 <= k < i ==> comp_merge_behavior(
                        (orig[k].1)@,
                        (orig_other[k].1)@,
                        ((#[trigger] out@[k]).1)@,
                    ),
                spec_consume(all_cols.subrange(i as int, n as int), gv_views(other_aggs@)) == (
                    full.0.subrange(i as int, n as int),
                    full.1,
                ),
                forall|k: int|
                    0 <= k < i ==> (match full.0[k] {
                        Some(oc) => comp_merge_behavior(
                            (orig[k].1)@,
                            oc,
                            ((#[trigger] out@[k]).1)@,
                        ),
                        None => ((#[trigger] out@[k]).1)@ == (orig[k].1)@,
                    }),
            decreases n - i,
        {
            proof {
                assert(orig.subrange(i as int, n as int)[0] == orig[i as int]);
                assert(orig.subrange(i as int, n as int).remove(0) =~= orig.subrange(
                    i + 1,
                    n as int,
                ));
                if aligned {
                    assert(gv_views(orig_other)[i as int] == ((orig_other[i as int].0)@, (
                    orig_other[i as int].1)@));
                    assert(gv_views(orig)[i as int] == ((orig[i as int].0)@, (
                    orig[i as int].1)@));
                    assert(gv_columns(gv_views(orig_other))[i as int] == gv_views(
                        orig_other,
                    )[i as int].0);
                    assert(gv_columns(gv_views(orig))[i as int] == gv_views(
                        orig,
                    )[i as int].0);
                    assert((orig_other[i as int].0)@ == (orig[i as int].0)@);
                    assert(other_aggs@[0] == orig_other[i as int]);
                }
            }
            proof {
                assert(all_cols.subrange(i as int, n as int)[0] == all_cols[i as int]);
                assert(all_cols.subrange(i as int, n as int).drop_first() =~= all_cols.subrange(
                    i + 1,
                    n as int,
                ));
                assert(all_cols[i as int] == gv_views(orig)[i as int].0);
                assert(gv_views(orig)[i as int] == ((orig[i as int].0)@, (orig[i as int].1)@));
                assert(full.0.subrange(i as int, n as int)[0] == full.0[i as int]);
                assert(full.0.subrange(i as int, n as int).drop_first() =~= full.0.subrange(
                    i + 1,
                    n as int,
                ));
            }
            let (ac, mut comp) = rest.remove(0);
            let pos = find_aggregate_position(&other_aggs, &ac);
            match pos {
                Some(j) => {
                    proof {
                        if aligned {
                            assert(j == 0);
                        }
                        // The find is the first match of the consume pass.
                        assert forall|k: int| 0 <= k < j implies (#[trigger] gv_views(
                            other_aggs@,
                        )[k]).0 != ac@ by {
                            assert(gv_views(other_aggs@)[k] == ((other_aggs@[k].0)@, (
                            other_aggs@[k].1)@));
                        }
                        assert(gv_views(other_aggs@)[j as int].0 == ac@) by {
                            assert(gv_views(other_aggs@)[j as int] == ((other_aggs@[
                            j as int].0)@, (other_aggs@[j as int].1)@));
                        }
                        lemma_agg_position_at(gv_views(other_aggs@), ac@, j as int);
                        assert(full.0[i as int] == Some(gv_views(other_aggs@)[j as int].1));
                    }
                    let ghost other_before = other_aggs@;
                    let (_, other_comp) = other_aggs.remove(j);
                    comp.merge(other_comp, arith);
                    proof {
                        if aligned {
                            assert(other_aggs@ =~= orig_other.subrange(i + 1, n as int));
                        }
                        assert(other_comp@ == gv_views(other_before)[j as int].1);
                        assert(gv_views(other_aggs@) =~= gv_views(other_before).remove(
                            j as int,
                        )) by {
                            assert forall|k: int|
                                0 <= k < gv_views(other_aggs@).len() implies #[trigger] gv_views(
                                other_aggs@,
                            )[k] == gv_views(other_before).remove(j as int)[k] by {
                                assert(gv_views(other_aggs@)[k] == ((other_aggs@[k].0)@, (
                                other_aggs@[k].1)@));
                                if k < j {
                                    assert(other_aggs@[k] == other_before[k]);
                                    assert(gv_views(other_before)[k] == ((other_before[
                                    k].0)@, (other_before[k].1)@));
                                } else {
                                    assert(other_aggs@[k] == other_before[k + 1]);
                                    assert(gv_views(other_before)[k + 1] == ((other_before[
                                    k + 1].0)@, (other_before[k + 1].1)@));
                                }
                            }
                        }
                        assert(spec_consume(
                            all_cols.subrange(i + 1, n as int),
                            gv_views(other_aggs@),
                        ) == (full.0.subrange(i + 1, n as int), full.1));
                    }
                },
                None => {
                    proof {
                        if aligned {
                            assert(false);
                        }
                        assert forall|k: int|
                            0 <= k < gv_views(other_aggs@).len() implies (#[trigger] gv_views(
                            other_aggs@,
                        )[k]).0 != ac@ by {
                            assert(gv_views(other_aggs@)[k] == ((other_aggs@[k].0)@, (
                            other_aggs@[k].1)@));
                        }
                        lemma_agg_position_at(
                            gv_views(other_aggs@),
                            ac@,
                            gv_views(other_aggs@).len() as int,
                        );
                        assert(full.0[i as int] == None::<ComponentsView>);
                    }
                },
            }
            out.push((ac, comp));
            i += 1;
        }
        core::mem::swap(&mut out, &mut self.aggregates);
        proof {
            assert(gv_views(self.aggregates@).len() == gv_views(orig).len());
            assert forall|k: int| 0 <= k < gv_views(orig).len() implies (#[trigger] gv_views(
                self.aggregates@,
            )[k]).0 == gv_views(orig)[k].0 by {
                assert(gv_views(orig)[k] == ((orig[k].0)@, (orig[k].1)@));
                assert(gv_views(self.aggregates@)[k] == ((self.aggregates@[k].0)@, (
                self.aggregates@[k].1)@));
            }
            if aligned {
                assert forall|k: int| 0 <= k < gv_views(orig).len() implies comp_merge_behavior(
                    gv_views(orig)[k].1,
                    gv_views(orig_other)[k].1,
                    (#[trigger] gv_views(self.aggregates@)[k]).1,
                ) by {
                    assert(gv_views(orig)[k] == ((orig[k].0)@, (orig[k].1)@));
                    assert(gv_views(orig_other)[k] == ((orig_other[k].0)@, (orig_other[k].1)@));
                    assert(gv_views(self.aggregates@)[k] == ((self.aggregates@[k].0)@, (
                    self.aggregates@[k].1)@));
                }
            }
            assert forall|k: int| 0 <= k < gv_views(orig).len() implies (match (
            #[trigger] spec_consume(
                gv_columns(gv_views(orig)),
                gv_views(orig_other),
            ).0[k]) {
                Some(oc) => comp_merge_behavior(
                    gv_views(orig)[k].1,
                    oc,
                    gv_views(self.aggregates@)[k].1,
                ),
                None => gv_views(self.aggregates@)[k].1 == gv_views(orig)[k].1,
            }) by {
                assert(full == spec_consume(gv_columns(gv_views(orig)), gv_views(orig_other)));
                assert(gv_views(orig)[k] == ((orig[k].0)@, (orig[k].1)@));
                assert(gv_views(self.aggregates@)[k] == ((self.aggregates@[k].0)@, (
                self.aggregates@[k].1)@));
            }
        }
    }

    /// A copy whose mathematical state equals this one's.
    #[verifier::loop_isolation(false)]
    pub fn duplicate(&self) -> (r: GroupValue)
        ensures
            gv_views(r.aggregates@) == gv_views(self.aggregates@),
    {
        let n: usize = self.aggregates.len();
        let mut out: Vec<(AggregateColumn, AggregateComponents)> = Vec::new();
        let mut i: usize = 0;
        while i < n
            invariant
                0 <= i <= n,
                out@.len() == i,
                forall|k: int| 0 <= k < i ==> ((#[trigger] out@[k]).0)@ == (
                self.aggregates@[k].0)@,
                forall|k: int| 0 <= k < i ==> ((#[trigger] out@[k]).1)@ == (
                self.aggregates@[k].1)@,
            decreases n - i,
        {
            out.push(
                (self.aggregates[i].0.duplicate(), self.aggregates[i].1.duplicate()),
            );
            i += 1;
        }
        proof {
            assert(gv_views(out@).len() == gv_views(self.aggregates@).len());
            assert forall|k: int| 0 <= k < gv_views(out@).len() implies #[trigger] gv_views(
                out@,
            )[k] == gv_views(self.aggregates@)[k] by {
                assert(gv_views(out@)[k] == ((out@[k].0)@, (out@[k].1)@));
                assert(gv_views(self.aggregates@)[k] == ((self.aggregates@[k].0)@, (
                self.aggregates@[k].1)@));
            }
            assert(gv_views(out@) =~= gv_views(self.aggregates@));
        }
        GroupValue { aggregates: out }
    }
}


/// One deterministic fold step: counts add one, sums add the value. This
/// is what [`AggregateComponents::aggregate`] computes whenever no float
/// arithmetic is involved.
pub open spec fn spec_agg_step(c: ComponentsView, v: ValueView) -> ComponentsView {
    match c {
        ComponentsView::Count(x) => ComponentsView::Count(spec_add(x, ValueView::Int(1i64))),
        ComponentsView::Sum(s) => ComponentsView::Sum(spec_add(s, v)),
        ComponentsView::Avg { sum, count } => ComponentsView::Avg {
            sum: spec_add(sum, v),
            count: spec_add(count, ValueView::Int(1i64)),
        },
    }
}

/// The fold of a whole sequence of row values into a component state.
pub open spec fn spec_fold(c: ComponentsView, vs: Seq<ValueView>) -> ComponentsView
    decreases vs.len(),
{
    if vs.len() == 0 {
        c
    } else {
        spec_fold(spec_agg_step(c, vs[0]), vs.drop_first())
    }
}

/// The deterministic additive combine of two partial states of the same
/// shape; this is what [`AggregateComponents::merge`] computes whenever
/// no float arithmetic is involved.
pub open spec fn spec_comp_merge(l: ComponentsView, r: ComponentsView) -> ComponentsView {
    match (l, r) {
        (ComponentsView::Count(a), ComponentsView::Count(b)) => ComponentsView::Count(
            spec_add(a, b),
        ),
        (ComponentsView::Sum(a), ComponentsView::Sum(b)) => ComponentsView::Sum(spec_add(a, b)),
        (
            ComponentsView::Avg { sum: s0, count: c0 },
            ComponentsView::Avg { sum: s1, count: c1 },
        ) => ComponentsView::Avg { sum: spec_add(s0, s1), count: spec_add(c0, c1) },
        _ => l,
    }
}

/// Whether every value a component state carries is an integer.
pub open spec fn comp_is_int(c: ComponentsView) -> bool {
    match c {
        ComponentsView::Count(x) => x is Int,
        ComponentsView::Sum(x) => x is Int,
        ComponentsView::Avg { sum, count } => sum is Int && count is Int,
    }
}

/// Whether a component state is the integer-zero seed of its shape.
pub open spec fn comp_int_zero(c: ComponentsView) -> bool {
    match c {
        ComponentsView::Count(x) => x == ValueView::Int(0i64),
        ComponentsView::Sum(x) => x == ValueView::Int(0i64),
        ComponentsView::Avg { sum, count } => sum == ValueView::Int(0i64) && count
            == ValueView::Int(0i64),
    }
}

/// The integer-zero seed of a state's shape.
pub open spec fn spec_zero_like(c: ComponentsView) -> ComponentsView {
    match c {
        ComponentsView::Count(_) => ComponentsView::Count(ValueView::Int(0i64)),
        ComponentsView::Sum(_) => ComponentsView::Sum(ValueView::Int(0i64)),
        ComponentsView::Avg { .. } => ComponentsView::Avg {
            sum: ValueView::Int(0i64),
            count: ValueView::Int(0i64),
        },
    }
}

/// Whether every value of a sequence is an integer.
pub open spec fn all_int(vs: Seq<ValueView>) -> bool {
    forall|i: int| 0 <= i < vs.len() ==> (#[trigger] vs[i]) is Int
}

/// Whether a component state carries no float.
pub open spec fn comp_no_float(c: ComponentsView) -> bool {
    match c {
        ComponentsView::Count(x) => !(x is Float),
        ComponentsView::Sum(x) => !(x is Float),
        ComponentsView::Avg { sum, count } => !(sum is Float) && !(count is Float),
    }
}

/// Folding one value is deterministic wherever no float arithmetic is
/// involved: the relational contract of `aggregate` then pins exactly one
/// result, the deterministic step.
pub proof fn lemma_aggregate_step_exact(old_c: ComponentsView, v: ValueView, new_c: ComponentsView)
    requires
        aggregate_behavior(old_c, v, new_c),
        comp_no_float(old_c),
        !(v is Float),
    ensures
        new_c == spec_agg_step(old_c, v),
{
}

/// Merging two partial states is deterministic wherever no float
/// arithmetic is involved.
pub proof fn lemma_comp_merge_exact(l: ComponentsView, r: ComponentsView, new_c: ComponentsView)
    requires
        comp_merge_behavior(l, r, new_c),
        comp_no_float(l),
        comp_no_float(r),
    ensures
        new_c == spec_comp_merge(l, r),
{
}

/// Wrapping addition of signed 64-bit integers is commutative.
pub proof fn lemma_wrap_add_comm(a: i64, b: i64)
    ensures
        vstd::wrapping::i64_specs::wrapping_add(a, b) == vstd::wrapping::i64_specs::wrapping_add(
            b,
            a,
        ),
{
}

/// Wrapping addition of signed 64-bit integers is associative.
pub proof fn lemma_wrap_add_assoc(a: i64, b: i64, c: i64)
    ensures
        vstd::wrapping::i64_specs::wrapping_add(
            vstd::wrapping::i64_specs::wrapping_add(a, b),
            c,
        ) == vstd::wrapping::i64_specs::wrapping_add(
            a,
            vstd::wrapping::i64_specs::wrapping_add(b, c),
        ),
{
}

/// A fold never changes the shape of a component state.
pub proof fn lemma_fold_shape(c: ComponentsView, vs: Seq<ValueView>)
    ensures
        spec_tag_of(spec_fold(c, vs)) == spec_tag_of(c),
    decreases vs.len(),
{
    if vs.len() > 0 {
        lemma_fold_shape(spec_agg_step(c, vs[0]), vs.drop_first());
    }
}

/// A fold of integer values over an integer state stays integer; a count
/// stays integer whatever the values.
pub proof fn lemma_fold_int(c: ComponentsView, vs: Seq<ValueView>)
    requires
        comp_is_int(c),
        c is Count || all_int(vs),
    ensures
        comp_is_int(spec_fold(c, vs)),
    decreases vs.len(),
{
    if vs.len() > 0 {
        assert(all_int(vs) ==> all_int(vs.drop_first()));
        lemma_fold_int(spec_agg_step(c, vs[0]), vs.drop_first());
    }
}

/// Folding a concatenation is folding the two parts in turn.
pub proof fn lemma_fold_concat(c: ComponentsView, vs1: Seq<ValueView>, vs2: Seq<ValueView>)
    ensures
        spec_fold(c, vs1 + vs2) == spec_fold(spec_fold(c, vs1), vs2),
    decreases vs1.len(),
{
    if vs1.len() == 0 {
        assert(vs1 + vs2 =~= vs2);
    } else {
        assert((vs1 + vs2)[0] == vs1[0]);
        assert((vs1 + vs2).drop_first() =~= vs1.drop_first() + vs2);
        lemma_fold_concat(spec_agg_step(c, vs1[0]), vs1.drop_first(), vs2);
    }
}

/// Merging the integer-zero seed into an integer state is the identity.
pub proof fn lemma_merge_zero(c: ComponentsView)
    requires
        comp_is_int(c),
    ensures
        spec_comp_merge(c, spec_zero_like(c)) == c,
{
}

/// An integer fold from any integer start equals the merge of the start
/// with the fold from the zero seed.
pub proof fn lemma_fold_shift(c: ComponentsView, vs: Seq<ValueView>)
    requires
        comp_is_int(c),
        c is Count || all_int(vs),
    ensures
        spec_fold(c, vs) == spec_comp_merge(c, spec_fold(spec_zero_like(c), vs)),
    decreases vs.len(),
{
    let zero = spec_zero_like(c);
    if vs.len() == 0 {
        lemma_merge_zero(c);
    } else {
        let v = vs[0];
        let rest = vs.drop_first();
        assert(all_int(vs) ==> all_int(rest));
        let c1 = spec_agg_step(c, v);
        let z1 = spec_agg_step(zero, v);
        lemma_fold_shift(c1, rest);
        lemma_fold_shift(z1, rest);
        lemma_fold_int(spec_zero_like(c1), rest);
        let x = spec_fold(spec_zero_like(c1), rest);
        assert(spec_zero_like(c1) == zero);
        assert(spec_zero_like(z1) == zero);
        match c {
            ComponentsView::Count(a) => {
                match (a, x) {
                    (ValueView::Int(ai), ComponentsView::Count(ValueView::Int(xi))) => {
                        lemma_wrap_add_assoc(ai, 1, xi);
                        lemma_wrap_add_comm(0, 1);
                    },
                    _ => {},
                }
            },
            ComponentsView::Sum(a) => {
                match (a, v, x) {
                    (
                        ValueView::Int(ai),
                        ValueView::Int(vi),
                        ComponentsView::Sum(ValueView::Int(xi)),
                    ) => {
                        lemma_wrap_add_assoc(ai, vi, xi);
                        lemma_wrap_add_comm(0, vi);
                    },
                    _ => {},
                }
            },
            ComponentsView::Avg { sum: a, count: b } => {
                match (a, b, v, x) {
                    (
                        ValueView::Int(ai),
                        ValueView::Int(bi),
                        ValueView::Int(vi),
                        ComponentsView::Avg {
                            sum: ValueView::Int(xs),
                            count: ValueView::Int(xc),
                        },
                    ) => {
                        lemma_wrap_add_assoc(ai, vi, xs);
                        lemma_wrap_add_comm(0, vi);
                        lemma_wrap_add_assoc(bi, 1, xc);
                        lemma_wrap_add_comm(0, 1);
                    },
                    _ => {},
                }
            },
        }
    }
}

/// The partition law: splitting a batch of rows anywhere, folding the
/// parts separately and merging the partial states yields exactly the
/// fold of the whole batch. This holds for counts over any values, and
/// for integer sums and averages; it is what makes cross-shard merging
/// exact.
pub proof fn lemma_fold_merge_partition(
    c0: ComponentsView,
    vs1: Seq<ValueView>,
    vs2: Seq<ValueView>,
)
    requires
        comp_int_zero(c0),
        c0 is Count || (all_int(vs1) && all_int(vs2)),
    ensures
        spec_fold(c0, vs1 + vs2) == spec_comp_merge(spec_fold(c0, vs1), spec_fold(c0, vs2)),
{
    lemma_fold_concat(c0, vs1, vs2);
    let f1 = spec_fold(c0, vs1);
    lemma_fold_int(c0, vs1);
    lemma_fold_shape(c0, vs1);
    assert(spec_zero_like(f1) == c0);
    lemma_fold_shift(f1, vs2);
}

/// Rehydration is exact: the recoverable state that `compute` attaches to
/// a finalized aggregate rebuilds, through `from_components_array`, the
/// very component state it came from.
pub proof fn lemma_components_round_trip(
    c: ComponentsView,
    value: ValueView,
    comps: Seq<ValueView>,
)
    requires
        compute_behavior(c, value, comps),
    ensures
        comps.len() == spec_arity(spec_tag_of(c)),
        spec_from_array(spec_tag_of(c), comps) == c,
{
}

} // verus!


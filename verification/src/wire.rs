//! The wire-visible request and response model.
//!
//! These are the shapes the HTTP layer moves as JSON; the embedding
//! process maps them one-to-one onto its serialized structs. An
//! aggregated row travels with its grouping columns, its aggregate
//! columns — each named `fn(column)` and carrying the source column's
//! type — and, per aggregate, the finalized value together with its full
//! recoverable state, so the coordinator can rehydrate and merge partial
//! aggregates exactly.

use vstd::prelude::*;
use crate::column::{name_views, try_parse_queried_column, Aggregate, AggregateColumn, ColView};
use crate::error::DbError;
use crate::query::QueryResult;
use crate::row::{pair_views, AggregatedRow, Row};
use crate::value::{json_views, ColumnValue, JsonValue, JsonView, ValueView};

verus! {

/// A column type as written on the wire.
#[derive(Debug, Clone, Copy, PartialEq, Eq, Structural)]
pub enum ColumnType {
    Integer,
    Float,
    String,
    Null,
}

impl ColumnType {
    /// The storage type this wire type names.
    pub fn to_table_type(&self) -> (r: crate::value::ColumnType)
        ensures
            r == self.spec_table_type(),
    {
        match self {
            ColumnType::Integer => crate::value::ColumnType::Integer,
            ColumnType::Float => crate::value::ColumnType::Float,
            ColumnType::String => crate::value::ColumnType::String,
            ColumnType::Null => crate::value::ColumnType::Null,
        }
    }

    pub open spec fn spec_table_type(self) -> crate::value::ColumnType {
        match self {
            ColumnType::Integer => crate::value::ColumnType::Integer,
            ColumnType::Float => crate::value::ColumnType::Float,
            ColumnType::String => crate::value::ColumnType::String,
            ColumnType::Null => crate::value::ColumnType::Null,
        }
    }

    /// The wire name of a storage type.
    pub fn from_table_type(ty: crate::value::ColumnType) -> (r: ColumnType)
        ensures
            r.spec_table_type() == ty,
    {
        match ty {
            crate::value::ColumnType::Integer => ColumnType::Integer,
            crate::value::ColumnType::Float => ColumnType::Float,
            crate::value::ColumnType::String => ColumnType::String,
            crate::value::ColumnType::Null => ColumnType::Null,
        }
    }
}

/// A column as written on the wire; `source_ty` travels only on
/// aggregate columns, where it names the source column's type.
#[derive(Debug, Clone)]
pub struct Column {
    pub name: String,
    pub ty: ColumnType,
    pub source_ty: Option<ColumnType>,
}

impl Column {
    /// The storage column this wire column names.
    pub fn to_table_column(&self) -> (r: crate::column::Column)
        ensures
            r@ == (ColView { name: self.name@, ty: self.ty.spec_table_type() }),
    {
        crate::column::Column::new(self.name.clone(), self.ty.to_table_type())
    }

    /// The wire form of a storage column.
    pub fn from_table_column(c: &crate::column::Column) -> (r: Column)
        ensures
            r.name@ == c@.name,
            r.ty.spec_table_type() == c@.ty,
            r.source_ty is None,
    {
        Column { name: c.name.clone(), ty: ColumnType::from_table_type(c.ty), source_ty: None }
    }
}

/// A request to create a table.
#[derive(Debug, Clone)]
pub struct CreateTableRequest {
    pub name: String,
    pub columns: Vec<Column>,
}

/// A request to insert rows.
#[derive(Debug, Clone)]
pub struct InsertRequest {
    pub insert: Vec<String>,
    pub into: String,
    pub values: Vec<Vec<JsonValue>>,
}

/// The views of the value rows of an insert request.
pub open spec fn row_views(s: Seq<Vec<JsonValue>>) -> Seq<Seq<JsonView>> {
    crate::value::json_row_views(s)
}

/// The concatenation of the value rows of a list of requests.
pub open spec fn spec_concat_chunks(chunks: Seq<Seq<Seq<JsonView>>>) -> Seq<Seq<JsonView>>
    decreases chunks.len(),
{
    if chunks.len() == 0 {
        Seq::<Seq<JsonView>>::empty()
    } else {
        spec_concat_chunks(chunks.drop_last()) + chunks.last()
    }
}


/// The chunk size striping uses: the ceiling of `len / n`.
pub open spec fn spec_chunk_size(len: int, n: int) -> int
    recommends
        n >= 1,
{
    if len == 0 {
        0
    } else {
        (len - 1) / n + 1
    }
}

impl InsertRequest {
    /// A duplicate of the column list and table name with a different
    /// slice of the values.
    #[verifier::loop_isolation(false)]
    fn with_values(&self, values: Vec<Vec<JsonValue>>) -> (r: InsertRequest)
        ensures
            name_views(r.insert@) == name_views(self.insert@),
            r.into@ == self.into@,
            r.values == values,
    {
        let n: usize = self.insert.len();
        let mut cols: Vec<String> = Vec::new();
        let mut i: usize = 0;
        while i < n
            invariant
                0 <= i <= n,
                cols@.len() == i,
                forall|k: int| 0 <= k < i ==> ((#[trigger] cols@[k]))@ == (self.insert@[k])@,
            decreases n - i,
        {
            cols.push(self.insert[i].clone());
            i += 1;
        }
        proof {
            assert(name_views(cols@) =~= name_views(self.insert@));
        }
        InsertRequest { insert: cols, into: self.into.clone(), values }
    }

    /// Splits the request into chunks of at most `ceil(len / n)` rows
    /// whose concatenation is exactly the request's batch; every chunk
    /// names the same columns and table. An empty batch yields one empty
    /// chunk.
    #[verifier::loop_isolation(false)]
    #[verifier::rlimit(50)]
    pub fn split(&mut self, n: usize) -> (r: Vec<InsertRequest>)
        requires
            n >= 1,
        ensures
            *final (self) == *old(self),
            r@.len() >= 1,
            r@.len() <= n,
            forall|c: int|
                0 <= c < r@.len() ==> name_views((#[trigger] r@[c]).insert@) == name_views(
                    final (self).insert@,
                ) && r@[c].into@ == final (self).into@,
            spec_concat_chunks(r@.map_values(|q: InsertRequest| row_views(q.values@)))
                == row_views(final (self).values@),
            forall|c: int|
                0 <= c < r@.len() ==> (#[trigger] r@[c]).values@.len() <= spec_chunk_size(
                    final (self).values@.len() as int,
                    n as int,
                ),
            forall|c: int|
                0 <= c < r@.len() - 1 ==> (#[trigger] r@[c]).values@.len() == spec_chunk_size(
                    final (self).values@.len() as int,
                    n as int,
                ),
    {
        let total: usize = self.values.len();
        if total == 0 {
            let mut out: Vec<InsertRequest> = Vec::new();
            out.push(self.with_values(Vec::new()));
            proof {
                let chunks = out@.map_values(|q: InsertRequest| row_views(q.values@));
                assert(chunks[0] == row_views(out@[0].values@));
                assert(chunks.drop_last() =~= Seq::<Seq<Seq<JsonView>>>::empty());
                assert(chunks.last() =~= Seq::<Seq<JsonView>>::empty());
                assert(spec_concat_chunks(chunks.drop_last()) =~= Seq::<Seq<JsonView>>::empty());
                assert(spec_concat_chunks(chunks) =~= row_views(self.values@));
            }
            return out;
        }
        let chunk_size: usize = (total - 1) / n + 1;
        proof {
            assert(chunk_size == spec_chunk_size(total as int, n as int));
        }
        let mut out: Vec<InsertRequest> = Vec::new();
        let mut start: usize = 0;
        while start < total
            invariant
                chunk_size >= 1,
                chunk_size == spec_chunk_size(total as int, n as int),
                0 <= start <= total,
                total == self.values@.len(),
                spec_concat_chunks(out@.map_values(|q: InsertRequest| row_views(q.values@)))
                    == row_views(self.values@).subrange(0, start as int),
                forall|c: int|
                    0 <= c < out@.len() ==> name_views((#[trigger] out@[c]).insert@)
                        == name_views(self.insert@) && out@[c].into@ == self.into@,
                start > 0 ==> out@.len() >= 1,
                forall|c: int|
                    0 <= c < out@.len() ==> (#[trigger] out@[c]).values@.len() <= chunk_size,
                forall|c: int|
                    0 <= c < out@.len() ==> ((#[trigger] out@[c]).values@.len() == chunk_size || (
                    start == total && c == out@.len() - 1)),
                start == out@.len() * chunk_size || (start == total && out@.len() >= 1 && (
                out@.len() - 1) * chunk_size < total),
            decreases total - start,
        {
            let end: usize = if total - start < chunk_size {
                total
            } else {
                start + chunk_size
            };
            let mut chunk: Vec<Vec<JsonValue>> = Vec::new();
            let mut i: usize = start;
            while i < end
                invariant
                    start <= i <= end <= total,
                    total == self.values@.len(),
                    chunk@.len() == i - start,
                    forall|k: int|
                        0 <= k < i - start ==> row_views(chunk@)[k] == row_views(self.values@)[
                            k + start
                        ],
                decreases end - i,
            {
                let mut row: Vec<JsonValue> = Vec::new();
                let row_len: usize = self.values[i].len();
                let mut j: usize = 0;
                while j < row_len
                    invariant
                        0 <= j <= row_len,
                        i < total,
                        total == self.values@.len(),
                        row_len == self.values@[i as int]@.len(),
                        row@.len() == j,
                        forall|k: int|
                            0 <= k < j ==> ((#[trigger] row@[k]))@ == (self.values@[i as int]@[
                                k
                            ])@,
                    decreases row_len - j,
                {
                    row.push(self.values[i][j].duplicate());
                    j += 1;
                }
                let ghost prev = chunk@;
                chunk.push(row);
                proof {
                    assert(json_views(chunk@[(i - start) as int]@) =~= json_views(
                        self.values@[i as int]@,
                    ));
                    assert forall|k: int| 0 <= k < i + 1 - start implies row_views(chunk@)[k]
                        == row_views(self.values@)[k + start] by {
                        assert(row_views(chunk@)[k] == json_views(chunk@[k]@));
                        assert(row_views(self.values@)[k + start] == json_views(
                            self.values@[k + start]@,
                        ));
                        if k < i - start {
                            assert(chunk@[k] == prev[k]);
                            assert(row_views(prev)[k] == row_views(self.values@)[k + start]);
                            assert(row_views(prev)[k] == json_views(prev[k]@));
                        }
                    }
                }
                i += 1;
            }
            let ghost prev_out = out@;
            let piece = self.with_values(chunk);
            out.push(piece);
            proof {
                assert(out@[out@.len() - 1].values@.len() == end - start);
                // Before this push the loop was still running, so every
                // earlier chunk is full and the counter is exact.
                assert(start == prev_out.len() * chunk_size);
                if end < total {
                    assert(end == start + chunk_size);
                    assert((prev_out.len() + 1) * chunk_size == prev_out.len() * chunk_size
                        + chunk_size) by (nonlinear_arith);
                    assert(end == out@.len() * chunk_size);
                } else {
                    assert(end == total);
                    assert((out@.len() - 1) * chunk_size < total);
                }
                assert forall|c: int| 0 <= c < out@.len() - 1 implies (#[trigger] out@[
                c]).values@.len() == chunk_size by {
                    assert(out@[c] == prev_out[c]);
                }
                let chunks = out@.map_values(|q: InsertRequest| row_views(q.values@));
                let idx = out@.len() - 1;
                assert(chunks[idx] == row_views(out@[idx].values@));
                assert(chunks.drop_last() =~= prev_out.map_values(
                    |q: InsertRequest| row_views(q.values@),
                ));
                assert(chunks.last() =~= row_views(self.values@).subrange(
                    start as int,
                    end as int,
                ));
                assert(row_views(self.values@).subrange(0, start as int) + row_views(
                    self.values@,
                ).subrange(start as int, end as int) =~= row_views(self.values@).subrange(
                    0,
                    end as int,
                ));
            }
            start = end;
        }
        proof {
            assert(row_views(self.values@).subrange(0, total as int) =~= row_views(
                self.values@,
            ));
            // At most n chunks: every chunk but the last is full, and
            // n chunks of the ceiling size already cover the batch.
            vstd::arithmetic::div_mod::lemma_fundamental_div_mod((total - 1) as int, n as int);
            assert((n as int) * (chunk_size as int) >= total as int) by (nonlinear_arith)
                requires
                    n >= 1,
                    total >= 1,
                    chunk_size as int == ((total - 1) as int) / (n as int) + 1,
                    (total - 1) as int == (n as int) * (((total - 1) as int) / (n as int)) + ((
                    total - 1) as int) % (n as int),
                    0 <= ((total - 1) as int) % (n as int) < n as int,
            ;
            assert((out@.len() - 1) * (chunk_size as int) < total as int) by {
                if start == out@.len() * chunk_size {
                    assert((out@.len() - 1) * (chunk_size as int) == out@.len() * (
                    chunk_size as int) - chunk_size) by (nonlinear_arith);
                }
            }
            assert(out@.len() <= n) by (nonlinear_arith)
                requires
                    chunk_size >= 1,
                    (out@.len() - 1) * (chunk_size as int) < total as int,
                    (n as int) * (chunk_size as int) >= total as int,
            ;
        }
        out
    }
}

impl JsonValue {
    /// A copy whose mathematical value equals this one's.
    pub fn duplicate(&self) -> (r: JsonValue)
        ensures
            r@ == self@,
    {
        match self {
            JsonValue::Int(x) => JsonValue::Int(*x),
            JsonValue::Float(b) => JsonValue::Float(*b),
            JsonValue::Str(s) => JsonValue::Str(s.clone()),
            JsonValue::Null => JsonValue::Null,
            JsonValue::Other => JsonValue::Other,
        }
    }
}

/// A request to query a table.
#[derive(Debug, Clone)]
pub struct QueryRequest {
    pub select: Vec<String>,
    pub from: String,
    pub group_by: Option<Vec<String>>,
}

/// A finalized aggregate on the wire: its value and its recoverable
/// state.
#[derive(Debug)]
pub struct AggregateData {
    pub value: JsonValue,
    pub components: Vec<JsonValue>,
}

/// A query response on the wire.
#[derive(Debug)]
pub enum QueryResponse {
    Empty { errors: Vec<String> },
    WithAggregatedData {
        columns: Vec<Column>,
        aggregate_columns: Vec<Column>,
        data: Vec<Vec<JsonValue>>,
        aggregates: Vec<Vec<AggregateData>>,
    },
    WithData { columns: Vec<Column>, data: Vec<Vec<JsonValue>> },
}

impl QueryResponse {
    /// The empty response: no rows and no errors.
    pub fn empty() -> (r: QueryResponse)
        ensures
            r matches QueryResponse::Empty { errors } && errors@.len() == 0,
    {
        QueryResponse::Empty { errors: Vec::new() }
    }
}

/// What a stored value looks like on the wire.
pub open spec fn spec_value_to_json(v: ValueView) -> JsonView {
    match v {
        ValueView::Int(x) => JsonView::Int(x),
        ValueView::Float(b) => JsonView::Float(b),
        ValueView::Str(s) => JsonView::Str(s),
        ValueView::Null => JsonView::Null,
    }
}

/// Converts a stored value for the wire.
pub fn value_to_json(v: &ColumnValue) -> (r: JsonValue)
    ensures
        r@ == spec_value_to_json(v@),
{
    match v {
        ColumnValue::Integer(x) => JsonValue::Int(*x),
        ColumnValue::Float(b) => JsonValue::Float(*b),
        ColumnValue::String(s) => JsonValue::Str(s.clone()),
        ColumnValue::Null => JsonValue::Null,
    }
}

/// What a wire value rehydrates to under a wire column's type: the typed
/// value when the shapes agree, and null otherwise.
pub open spec fn spec_json_to_value(ty: ColumnType, v: JsonView) -> ValueView {
    match (ty, v) {
        (ColumnType::Integer, JsonView::Int(x)) => ValueView::Int(x),
        (ColumnType::Float, JsonView::Float(b)) => ValueView::Float(b),
        (ColumnType::String, JsonView::Str(s)) => ValueView::Str(s),
        (ColumnType::Null, JsonView::Null) => ValueView::Null,
        _ => ValueView::Null,
    }
}

/// Rehydrates one wire value against a wire column, yielding the storage
/// column and the typed value; a shape mismatch reads as null.
pub fn build_column_and_column_value(column: &Column, value: &JsonValue) -> (r: (
    crate::column::Column,
    ColumnValue,
))
    ensures
        r.0@ == (ColView { name: column.name@, ty: column.ty.spec_table_type() }),
        r.1@ == spec_json_to_value(column.ty, value@),
{
    let table_column = column.to_table_column();
    let v = match (column.ty, value) {
        (ColumnType::Integer, JsonValue::Int(x)) => ColumnValue::Integer(*x),
        (ColumnType::Float, JsonValue::Float(b)) => ColumnValue::Float(*b),
        (ColumnType::String, JsonValue::Str(s)) => ColumnValue::String(s.clone()),
        (ColumnType::Null, JsonValue::Null) => ColumnValue::Null,
        _ => ColumnValue::Null,
    };
    (table_column, v)
}


/// Mathematical model of a wire [`Column`].
pub struct WireColView {
    pub name: Seq<char>,
    pub ty: ColumnType,
    pub source_ty: Option<ColumnType>,
}

impl View for Column {
    type V = WireColView;

    open spec fn view(&self) -> WireColView {
        WireColView { name: self.name@, ty: self.ty, source_ty: self.source_ty }
    }
}

/// The views of a wire column list.
pub open spec fn wire_col_views(s: Seq<Column>) -> Seq<WireColView> {
    s.map_values(|c: Column| c@)
}

/// The views of a wire value row.
pub open spec fn wire_row_views(s: Seq<Vec<JsonValue>>) -> Seq<Seq<JsonView>> {
    crate::value::json_row_views(s)
}

/// Builds rows from a plain-data response: each wire row pairs the
/// response's columns with its values, rehydrated by the column types.
#[verifier::loop_isolation(false)]
fn build_row_query_result(columns: Vec<Column>, data: Vec<Vec<JsonValue>>) -> (r: Vec<Row>)
    ensures
        r@.len() == data@.len(),
        forall|k: int|
            0 <= k < data@.len() ==> pair_views((#[trigger] r@[k]).values@).len() == (if wire_row_views(
                data@,
            )[k].len() < wire_col_views(columns@).len() {
                wire_row_views(data@)[k].len()
            } else {
                wire_col_views(columns@).len()
            }),
        forall|k: int, c: int|
            0 <= k < data@.len() && 0 <= c < pair_views(#[trigger] (r@[k]).values@).len() ==> (
            #[trigger] pair_views(r@[k].values@)[c]) == (
                (ColView {
                    name: wire_col_views(columns@)[c].name,
                    ty: wire_col_views(columns@)[c].ty.spec_table_type(),
                }),
                spec_json_to_value(wire_col_views(columns@)[c].ty, wire_row_views(data@)[k][c]),
            ),
{
    let n: usize = data.len();
    let m: usize = columns.len();
    let ghost orig = data@;
    let mut rest = data;
    let mut out: Vec<Row> = Vec::new();
    let mut k: usize = 0;
    while k < n
        invariant
            0 <= k <= n,
            n == orig.len(),
            rest@ == orig.subrange(k as int, n as int),
            out@.len() == k,
            forall|x: int|
                0 <= x < k ==> pair_views((#[trigger] out@[x]).values@).len() == (if wire_row_views(
                    orig,
                )[x].len() < wire_col_views(columns@).len() {
                    wire_row_views(orig)[x].len()
                } else {
                    wire_col_views(columns@).len()
                }),
            forall|x: int, c: int|
                0 <= x < k && 0 <= c < pair_views(#[trigger] (out@[x]).values@).len() ==> (
                #[trigger] pair_views(out@[x].values@)[c]) == (
                    (ColView {
                        name: wire_col_views(columns@)[c].name,
                        ty: wire_col_views(columns@)[c].ty.spec_table_type(),
                    }),
                    spec_json_to_value(wire_col_views(columns@)[c].ty, wire_row_views(orig)[x][c]),
                ),
        decreases n - k,
    {
        proof {
            assert(orig.subrange(k as int, n as int)[0] == orig[k as int]);
            assert(orig.subrange(k as int, n as int).remove(0) =~= orig.subrange(k + 1, n as int));
            assert(wire_row_views(orig)[k as int] == json_views(orig[k as int]@));
        }
        let data_row = rest.remove(0);
        let width: usize = if data_row.len() < m {
            data_row.len()
        } else {
            m
        };
        let mut comps: Vec<(crate::column::Column, ColumnValue)> = Vec::new();
        let mut c: usize = 0;
        while c < width
            invariant
                0 <= c <= width,
                width <= m,
                width <= data_row@.len(),
                m == columns@.len(),
                comps@.len() == c,
                forall|x: int|
                    0 <= x < c ==> (#[trigger] pair_views(comps@)[x]) == (
                        (ColView {
                            name: wire_col_views(columns@)[x].name,
                            ty: wire_col_views(columns@)[x].ty.spec_table_type(),
                        }),
                        spec_json_to_value(
                            wire_col_views(columns@)[x].ty,
                            json_views(data_row@)[x],
                        ),
                    ),
            decreases width - c,
        {
            let pair = build_column_and_column_value(&columns[c], &data_row[c]);
            let ghost prev = pair_views(comps@);
            comps.push(pair);
            proof {
                assert(wire_col_views(columns@)[c as int] == (columns@[c as int])@);
                assert(json_views(data_row@)[c as int] == (data_row@[c as int])@);
                assert(pair_views(comps@)[c as int] == ((comps@[c as int].0)@, (
                comps@[c as int].1)@));
                assert forall|x: int| 0 <= x < c implies #[trigger] pair_views(comps@)[x]
                    == prev[x] by {
                    assert(comps@[x] == comps@.drop_last()[x]);
                }
            }
            c += 1;
        }
        let row = match Row::from_components(0, 0, comps) {
            Some(row) => row,
            None => Row { index_id: 0, timestamp: 0, values: Vec::new() },
        };
        let ghost prev_out = out@;
        out.push(row);
        proof {
            assert forall|x: int| 0 <= x < k implies #[trigger] out@[x] == prev_out[x] by {}
        }
        k += 1;
    }
    out
}


/// Whether an aggregated response cannot rehydrate: some aggregate
/// column that the zipped rows reach parses as `fn(column)` but lacks
/// its source type.
pub open spec fn agg_response_bad(
    aggregate_columns: Seq<Column>,
    data: Seq<Vec<JsonValue>>,
    aggregates: Seq<Vec<AggregateData>>,
) -> bool {
    exists|k: int, j: int|
        #![trigger aggregates[k], aggregate_columns[j]]
        {
            &&& 0 <= k
            &&& k < data.len()
            &&& k < aggregates.len()
            &&& 0 <= j
            &&& j < aggregates[k]@.len()
            &&& j < aggregate_columns.len()
            &&& wire_agg_col_bad((aggregate_columns[j])@)
        }
}

/// What rehydrating an aggregated response yields: one aggregated row
/// per zipped data/aggregates row, its values rehydrated against the
/// grouping columns and each aggregate entry rebuilt as
/// [`wire_agg_entry_ok`] states.
pub open spec fn agg_rehydrate_post(
    columns: Seq<Column>,
    aggregate_columns: Seq<Column>,
    data: Seq<Vec<JsonValue>>,
    aggregates: Seq<Vec<AggregateData>>,
    ars: Seq<AggregatedRow>,
) -> bool {
    let count = if aggregates.len() < data.len() {
        aggregates.len() as int
    } else {
        data.len() as int
    };
    &&& ars.len() == count
    &&& forall|k: int|
        0 <= k && k < count ==> {
            let width = if (#[trigger] data[k])@.len() < columns.len() {
                data[k]@.len() as int
            } else {
                columns.len() as int
            };
            &&& pair_views(ars[k].values@).len() == width
            &&& forall|c: int|
                0 <= c && c < width ==> #[trigger] pair_views(ars[k].values@)[c] == (
                    (ColView {
                        name: (columns[c])@.name,
                        ty: (columns[c])@.ty.spec_table_type(),
                    }),
                    spec_json_to_value((columns[c])@.ty, (data[k]@[c])@),
                )
        }
    &&& forall|k: int|
        0 <= k && k < count ==> (#[trigger] ars[k]).aggregates@.len() == (if (
        aggregates[k])@.len() < aggregate_columns.len() {
            aggregates[k]@.len() as int
        } else {
            aggregate_columns.len() as int
        })
    &&& forall|k: int, j: int|
        #![trigger ars[k].aggregates@[j]]
        0 <= k && k < count && 0 <= j && j < ars[k].aggregates@.len() ==> wire_agg_entry_ok(
            (aggregate_columns[j])@,
            (aggregates[k]@[j].value)@,
            json_views(aggregates[k]@[j].components@),
            ars[k].aggregates@[j],
        )
}

impl QueryResponse {
    /// Rehydrates a peer's response into a local result. An empty
    /// response reads as empty rows. An aggregated response rebuilds
    /// each row's aggregate columns from their wire names and source
    /// types; a response whose aggregate column lacks its source type is
    /// rejected as corrupt.
    #[verifier::loop_isolation(false)]
    pub fn to_query_result(self) -> (r: Result<QueryResult, DbError>)
        ensures
            self matches QueryResponse::Empty { .. } ==> (r matches Ok(qr) && qr
                matches QueryResult::Rows(rows) && rows@.len() == 0),
            self matches QueryResponse::WithData { columns, data } ==> (r matches Ok(qr) && qr
                matches QueryResult::Rows(rows) && rows@.len() == data@.len() && (forall|k: int|
                0 <= k < data@.len() ==> pair_views((#[trigger] rows@[k]).values@).len() == (
                if wire_row_views(data@)[k].len() < wire_col_views(columns@).len() {
                    wire_row_views(data@)[k].len() as int
                } else {
                    wire_col_views(columns@).len() as int
                })) && (forall|
                k: int,
                c: int,
            |
                0 <= k < data@.len() && 0 <= c < pair_views(
                    #[trigger] (rows@[k]).values@,
                ).len() ==> (#[trigger] pair_views(rows@[k].values@)[c]) == (
                    (ColView {
                        name: wire_col_views(columns@)[c].name,
                        ty: wire_col_views(columns@)[c].ty.spec_table_type(),
                    }),
                    spec_json_to_value(
                        wire_col_views(columns@)[c].ty,
                        wire_row_views(data@)[k][c],
                    ),
                ))),
            self matches QueryResponse::WithAggregatedData {
                columns,
                aggregate_columns,
                data,
                aggregates,
            } ==> {
                &&& (r is Err <==> agg_response_bad(aggregate_columns@, data@, aggregates@))
                &&& (r matches Ok(qr) ==> (qr matches QueryResult::AggregatedRows(ars)
                    && agg_rehydrate_post(
                    columns@,
                    aggregate_columns@,
                    data@,
                    aggregates@,
                    ars@,
                )))
            },
            r matches Err(e) ==> e is Corrupt && self matches QueryResponse::WithAggregatedData {
                ..
            },
    {
        match self {
            QueryResponse::Empty { .. } => Ok(QueryResult::Rows(Vec::new())),
            QueryResponse::WithData { columns, data } => Ok(
                QueryResult::Rows(build_row_query_result(columns, data)),
            ),
            QueryResponse::WithAggregatedData { columns, aggregate_columns, data, aggregates } => {
                let n: usize = data.len();
                let an: usize = aggregates.len();
                let count: usize = if an < n {
                    an
                } else {
                    n
                };
                let ghost orig_data = data@;
                let ghost orig_aggs = aggregates@;
                let mut rest_data = data;
                let mut rest_aggs = aggregates;
                let mut out: Vec<AggregatedRow> = Vec::new();
                let mut k: usize = 0;
                while k < count
                    invariant
                        0 <= k <= count,
                        rest_data@ == orig_data.subrange(k as int, n as int),
                        rest_aggs@ == orig_aggs.subrange(k as int, an as int),
                        out@.len() == k,
                        forall|x: int|
                            0 <= x < k ==> {
                                let width = if (#[trigger] orig_data[x])@.len()
                                    < columns@.len() {
                                    orig_data[x]@.len() as int
                                } else {
                                    columns@.len() as int
                                };
                                &&& pair_views(out@[x].values@).len() == width
                                &&& forall|c: int|
                                    0 <= c && c < width ==> #[trigger] pair_views(
                                        out@[x].values@,
                                    )[c] == (
                                        (ColView {
                                            name: (columns@[c])@.name,
                                            ty: (columns@[c])@.ty.spec_table_type(),
                                        }),
                                        spec_json_to_value(
                                            (columns@[c])@.ty,
                                            (orig_data[x]@[c])@,
                                        ),
                                    )
                            },
                        forall|x: int|
                            0 <= x < k ==> (#[trigger] out@[x]).aggregates@.len() == (if (
                            orig_aggs[x])@.len() < aggregate_columns@.len() {
                                orig_aggs[x]@.len() as int
                            } else {
                                aggregate_columns@.len() as int
                            }),
                        forall|x: int, j2: int|
                            #![trigger out@[x].aggregates@[j2]]
                            0 <= x && x < k && 0 <= j2 && j2 < out@[x].aggregates@.len()
                                ==> wire_agg_entry_ok(
                                (aggregate_columns@[j2])@,
                                (orig_aggs[x]@[j2].value)@,
                                json_views(orig_aggs[x]@[j2].components@),
                                out@[x].aggregates@[j2],
                            ),
                    decreases count - k,
                {
                    proof {
                        assert(orig_data.subrange(k as int, n as int)[0] == orig_data[k as int]);
                        assert(orig_data.subrange(k as int, n as int).remove(0) =~= orig_data
                            .subrange(k + 1, n as int));
                        assert(orig_aggs.subrange(k as int, an as int)[0] == orig_aggs[k as int]);
                        assert(orig_aggs.subrange(k as int, an as int).remove(0) =~= orig_aggs
                            .subrange(k + 1, an as int));
                    }
                    let data_row = rest_data.remove(0);
                    let aggs_row = rest_aggs.remove(0);
                    let ghost data_row_snap = data_row@;
                    let ghost aggs_row_snap = aggs_row@;
                    let width: usize = if data_row.len() < columns.len() {
                        data_row.len()
                    } else {
                        columns.len()
                    };
                    let mut values: Vec<(crate::column::Column, ColumnValue)> = Vec::new();
                    let mut c: usize = 0;
                    while c < width
                        invariant
                            0 <= c <= width,
                            width <= data_row@.len(),
                            width <= columns@.len(),
                            data_row@ == data_row_snap,
                            values@.len() == c,
                            forall|x: int|
                                0 <= x < c ==> #[trigger] pair_views(values@)[x] == (
                                    (ColView {
                                        name: (columns@[x])@.name,
                                        ty: (columns@[x])@.ty.spec_table_type(),
                                    }),
                                    spec_json_to_value(
                                        (columns@[x])@.ty,
                                        (data_row_snap[x])@,
                                    ),
                                ),
                        decreases width - c,
                    {
                        let pair = build_column_and_column_value(&columns[c], &data_row[c]);
                        let ghost prev = pair_views(values@);
                        values.push(pair);
                        proof {
                            assert(pair_views(values@)[c as int] == ((values@[c as int].0)@, (
                            values@[c as int].1)@));
                            assert forall|x: int| 0 <= x < c implies #[trigger] pair_views(
                                values@,
                            )[x] == prev[x] by {
                                assert(values@[x] == values@.drop_last()[x]);
                            }
                        }
                        c += 1;
                    }
                    let awidth: usize = if aggs_row.len() < aggregate_columns.len() {
                        aggs_row.len()
                    } else {
                        aggregate_columns.len()
                    };
                    let mut entries: Vec<(AggregateColumn, ColumnValue, Vec<ColumnValue>)> =
                        Vec::new();
                    let mut rest_row = aggs_row;
                    let mut j: usize = 0;
                    while j < awidth
                        invariant
                            0 <= j <= awidth,
                            awidth <= aggs_row_snap.len(),
                            awidth <= aggregate_columns@.len(),
                            rest_row@ == aggs_row_snap.subrange(j as int, aggs_row_snap.len() as int),
                            entries@.len() == j,
                            forall|x: int|
                                0 <= x < j ==> wire_agg_entry_ok(
                                    (aggregate_columns@[x])@,
                                    (aggs_row_snap[x].value)@,
                                    json_views(aggs_row_snap[x].components@),
                                    #[trigger] entries@[x],
                                ),
                        decreases awidth - j,
                    {
                        proof {
                            assert(aggs_row_snap.subrange(j as int, aggs_row_snap.len() as int)[0]
                                == aggs_row_snap[j as int]);
                            assert(aggs_row_snap.subrange(
                                j as int,
                                aggs_row_snap.len() as int,
                            ).remove(0) =~= aggs_row_snap.subrange(
                                j + 1,
                                aggs_row_snap.len() as int,
                            ));
                        }
                        let ad = rest_row.remove(0);
                        match build_aggregated_row_component(&aggregate_columns[j], ad) {
                            Ok(entry) => {
                                entries.push(entry);
                            },
                            Err(e) => {
                                proof {
                                    assert(wire_agg_col_bad((aggregate_columns@[j as int])@));
                                    assert(agg_response_bad(
                                        aggregate_columns@,
                                        orig_data,
                                        orig_aggs,
                                    )) by {
                                        assert(orig_aggs[k as int] == orig_aggs[k as int]
                                            && aggregate_columns@[j as int]
                                            == aggregate_columns@[j as int]);
                                        assert(orig_aggs[k as int]@ == aggs_row_snap);
                                        assert({
                                            &&& 0 <= k as int
                                            &&& (k as int) < orig_data.len()
                                            &&& (k as int) < orig_aggs.len()
                                            &&& 0 <= j as int
                                            &&& (j as int) < orig_aggs[k as int]@.len()
                                            &&& (j as int) < aggregate_columns@.len()
                                            &&& wire_agg_col_bad(
                                                (aggregate_columns@[j as int])@,
                                            )
                                        });
                                    }
                                }
                                return Err(e);
                            },
                        }
                        j += 1;
                    }
                    let ghost prev_out = out@;
                    out.push(AggregatedRow::new(values, entries));
                    proof {
                        assert forall|x: int| 0 <= x < k implies #[trigger] out@[x]
                            == prev_out[x] by {}
                        assert(out@[k as int].values@ == values@);
                        assert(out@[k as int].aggregates@ == entries@);
                        assert(orig_data[k as int]@ == data_row_snap);
                        assert(orig_aggs[k as int]@ == aggs_row_snap);
                    }
                    k += 1;
                }
                proof {
                    // Everything rehydrated, so no reached aggregate
                    // column lacks its source type.
                    if agg_response_bad(aggregate_columns@, orig_data, orig_aggs) {
                        let (kb, jb) = choose|kb: int, jb: int|
                            #![trigger orig_aggs[kb], aggregate_columns@[jb]]
                            {
                                &&& 0 <= kb
                                &&& kb < orig_data.len()
                                &&& kb < orig_aggs.len()
                                &&& 0 <= jb
                                &&& jb < orig_aggs[kb]@.len()
                                &&& jb < aggregate_columns@.len()
                                &&& wire_agg_col_bad((aggregate_columns@[jb])@)
                            };
                        assert(kb < count);
                        assert(jb < out@[kb].aggregates@.len());
                        assert(wire_agg_entry_ok(
                            (aggregate_columns@[jb])@,
                            (orig_aggs[kb]@[jb].value)@,
                            json_views(orig_aggs[kb]@[jb].components@),
                            out@[kb].aggregates@[jb],
                        ));
                        assert(false);
                    }
                }
                Ok(QueryResult::AggregatedRows(out))
            },
        }
    }
}


/// What one finalized aggregate rehydrates to from the wire, given its
/// wire column, value and recoverable state. A name that does not parse
/// as an aggregate reads as a count over the column as named with no
/// state; a parsed name requires the source type, types the value by it,
/// and rehydrates the state under the aggregate column's own type.
pub open spec fn wire_agg_entry_ok(
    colv: WireColView,
    value: JsonView,
    comps: Seq<JsonView>,
    entry: (AggregateColumn, ColumnValue, Vec<ColumnValue>),
) -> bool {
    let pr = crate::column::spec_try_parse_queried(colv.name);
    match pr.0 {
        None => {
            &&& entry.0@ == (
                Aggregate::Count,
                ColView { name: colv.name, ty: colv.ty.spec_table_type() },
            )
            &&& entry.1@ == ValueView::Null
            &&& entry.2@.len() == 0
        },
        Some(agg) => match colv.source_ty {
            None => false,
            Some(src) => {
                &&& entry.0@ == (agg, ColView { name: pr.1, ty: src.spec_table_type() })
                &&& entry.1@ == spec_json_to_value(src, value)
                &&& crate::row::value_views(entry.2@).len() == comps.len()
                &&& forall|x: int|
                    0 <= x < comps.len() ==> #[trigger] crate::row::value_views(entry.2@)[x]
                        == spec_json_to_value(colv.ty, comps[x])
            },
        },
    }
}

/// Whether this wire aggregate column cannot rehydrate: its name parses
/// as an aggregate but the mandatory source type is missing.
pub open spec fn wire_agg_col_bad(colv: WireColView) -> bool {
    crate::column::spec_try_parse_queried(colv.name).0 is Some && colv.source_ty is None
}

/// Rebuilds one finalized aggregate from the wire: the aggregate and its
/// source column come from the wire name `fn(column)` and the mandatory
/// source type; the value rehydrates under the source type and the
/// recoverable state under the aggregate column's own type. A name that
/// does not parse as an aggregate reads as a count over the column as
/// named, with no state.
#[verifier::loop_isolation(false)]
fn build_aggregated_row_component(column: &Column, aggregate_data: AggregateData) -> (r: Result<
    (AggregateColumn, ColumnValue, Vec<ColumnValue>),
    DbError,
>)
    ensures
        r is Err <==> wire_agg_col_bad(column@),
        r matches Err(e) ==> e is Corrupt,
        r matches Ok(entry) ==> wire_agg_entry_ok(
            column@,
            aggregate_data.value@,
            json_views(aggregate_data.components@),
            entry,
        ),
{
    let (agg_opt, column_name) = try_parse_queried_column(column.name.as_str());
    let agg = match agg_opt {
        Some(a) => a,
        None => {
            return Ok(
                (
                    AggregateColumn(Aggregate::Count, column.to_table_column()),
                    ColumnValue::Null,
                    Vec::new(),
                ),
            );
        },
    };
    let source_ty = match &column.source_ty {
        Some(ty) => *ty,
        None => {
            return Err(DbError::Corrupt);
        },
    };
    let source_column = Column { name: column_name, ty: source_ty, source_ty: None };
    let (main_column, column_value) = build_column_and_column_value(
        &source_column,
        &aggregate_data.value,
    );
    let aggregate_column = AggregateColumn(agg, main_column);
    let m: usize = aggregate_data.components.len();
    let ghost comps_orig = aggregate_data.components@;
    let mut comps: Vec<ColumnValue> = Vec::new();
    let mut rest = aggregate_data.components;
    let mut i: usize = 0;
    while i < m
        invariant
            0 <= i <= m,
            m == comps_orig.len(),
            rest@ == comps_orig.subrange(i as int, m as int),
            comps@.len() == i,
            forall|x: int|
                0 <= x < i ==> ((#[trigger] comps@[x]))@ == spec_json_to_value(
                    column@.ty,
                    (comps_orig[x])@,
                ),
        decreases m - i,
    {
        proof {
            assert(comps_orig.subrange(i as int, m as int)[0] == comps_orig[i as int]);
            assert(comps_orig.subrange(i as int, m as int).remove(0) =~= comps_orig.subrange(
                i + 1,
                m as int,
            ));
        }
        let v = rest.remove(0);
        let pair = build_column_and_column_value(column, &v);
        comps.push(pair.1);
        i += 1;
    }
    proof {
        assert forall|x: int| 0 <= x < m implies #[trigger] crate::row::value_views(comps@)[x]
            == spec_json_to_value(column@.ty, json_views(comps_orig)[x]) by {
            assert(crate::row::value_views(comps@)[x] == (comps@[x])@);
            assert(json_views(comps_orig)[x] == (comps_orig[x])@);
        }
    }
    Ok((aggregate_column, column_value, comps))
}

/// Serializes a result for the wire. An empty result of either variant
/// serializes as the empty response with no errors; rows serialize with
/// their columns and values; aggregated rows additionally carry their
/// aggregate columns — named `fn(column)`, typed by the finalized value,
/// with the source column's type — and each aggregate's recoverable
/// state.
#[verifier::loop_isolation(false)]
pub fn serialize_query_result(query_result: QueryResult) -> (r: QueryResponse)
    ensures
        (match query_result {
            QueryResult::Rows(rows) => rows@.len() == 0,
            QueryResult::AggregatedRows(ars) => ars@.len() == 0,
        }) <==> (r matches QueryResponse::Empty { errors } && errors@.len() == 0),
        query_result matches QueryResult::Rows(rows) ==> (rows@.len() > 0
            ==> rows_response_post(rows@, r)),
        query_result matches QueryResult::AggregatedRows(ars) ==> (ars@.len() > 0
            ==> agg_response_post(ars@, r)),
{
    match query_result {
        QueryResult::Rows(rows) => {
            if rows.len() == 0 {
                return QueryResponse::empty();
            }
            serialize_rows(rows)
        },
        QueryResult::AggregatedRows(ars) => {
            if ars.len() == 0 {
                return QueryResponse::empty();
            }
            serialize_aggregated_rows(ars)
        },
    }
}


/// The wire form of one row's values.
pub open spec fn spec_row_to_wire(pairs: Seq<(ColView, ValueView)>) -> Seq<JsonView> {
    pairs.map_values(|p: (ColView, ValueView)| spec_value_to_json(p.1))
}

/// What serializing plain rows yields: the first row's columns, then
/// one wire row per row holding exactly its values in wire form.
pub open spec fn rows_response_post(rows: Seq<Row>, r: QueryResponse) -> bool {
    r matches QueryResponse::WithData { columns, data } && {
        &&& data@.len() == rows.len()
        &&& wire_col_views(columns@).len() == pair_views(rows[0].values@).len()
        &&& forall|c: int|
            0 <= c < pair_views(rows[0].values@).len() ==> {
                &&& (#[trigger] wire_col_views(columns@)[c]).name == pair_views(
                    rows[0].values@,
                )[c].0.name
                &&& wire_col_views(columns@)[c].ty.spec_table_type() == pair_views(
                    rows[0].values@,
                )[c].0.ty
            }
        &&& forall|k: int|
            0 <= k < rows.len() ==> #[trigger] wire_row_views(data@)[k] == spec_row_to_wire(
                pair_views(rows[k].values@),
            )
    }
}

/// Serializes plain rows: the columns of the first row, then one wire
/// row per row holding exactly its values in wire form.
#[verifier::loop_isolation(false)]
fn serialize_rows(rows: Vec<Row>) -> (r: QueryResponse)
    requires
        rows@.len() > 0,
    ensures
        rows_response_post(rows@, r),
{
    let ghost orig = rows@;
    let first_columns = rows[0].columns();
    let m: usize = first_columns.len();
    let mut columns: Vec<Column> = Vec::new();
    let mut c: usize = 0;
    while c < m
        invariant
            0 <= c <= m,
            columns@.len() == c,
            forall|x: int|
                0 <= x < c ==> ((#[trigger] columns@[x]).name@ == pair_views(
                    orig[0].values@,
                )[x].0.name && columns@[x].ty.spec_table_type() == pair_views(
                    orig[0].values@,
                )[x].0.ty),
        decreases m - c,
    {
        proof {
            assert(crate::column::col_views(first_columns@)[c as int] == (
            first_columns@[c as int])@);
            assert(crate::column::col_views(first_columns@)[c as int] == pair_views(
                orig[0].values@,
            )[c as int].0);
        }
        columns.push(Column::from_table_column(&first_columns[c]));
        c += 1;
    }
    proof {
        assert forall|x: int| 0 <= x < m implies {
            &&& (#[trigger] wire_col_views(columns@)[x]).name == pair_views(
                orig[0].values@,
            )[x].0.name
            &&& wire_col_views(columns@)[x].ty.spec_table_type() == pair_views(
                orig[0].values@,
            )[x].0.ty
        } by {
            assert(wire_col_views(columns@)[x] == (columns@[x])@);
        }
    }
    let n: usize = rows.len();
    let mut rest = rows;
    let mut data: Vec<Vec<JsonValue>> = Vec::new();
    let mut k: usize = 0;
    while k < n
        invariant
            0 <= k <= n,
            n == orig.len(),
            rest@ == orig.subrange(k as int, n as int),
            data@.len() == k,
            forall|x: int|
                0 <= x < k ==> #[trigger] wire_row_views(data@)[x] == spec_row_to_wire(
                    pair_views(orig[x].values@),
                ),
        decreases n - k,
    {
        proof {
            assert(orig.subrange(k as int, n as int)[0] == orig[k as int]);
            assert(orig.subrange(k as int, n as int).remove(0) =~= orig.subrange(k + 1, n as int));
        }
        let row = rest.remove(0);
        let ghost row_pairs = pair_views(row.values@);
        let values = row.into_values();
        let mut wire_row: Vec<JsonValue> = Vec::new();
        let vn: usize = values.len();
        let mut i: usize = 0;
        while i < vn
            invariant
                0 <= i <= vn,
                vn == values@.len(),
                vn == row_pairs.len(),
                wire_row@.len() == i,
                forall|x: int|
                    0 <= x < i ==> ((#[trigger] wire_row@[x]))@ == spec_value_to_json(
                        row_pairs[x].1,
                    ),
            decreases vn - i,
        {
            proof {
                assert(crate::row::value_views(values@)[i as int] == (values@[i as int])@);
                assert(crate::row::value_views(values@)[i as int] == row_pairs[i as int].1);
            }
            wire_row.push(value_to_json(&values[i]));
            i += 1;
        }
        let ghost prev_data = data@;
        data.push(wire_row);
        proof {
            assert(wire_row@.len() == row_pairs.len());
            assert forall|x: int| 0 <= x < row_pairs.len() implies json_views(
                data@[k as int]@,
            )[x] == spec_row_to_wire(row_pairs)[x] by {
                assert(json_views(wire_row@)[x] == (wire_row@[x])@);
                assert(spec_row_to_wire(row_pairs)[x] == spec_value_to_json(row_pairs[x].1));
            }
            assert(json_views(data@[k as int]@) =~= spec_row_to_wire(row_pairs));
            assert forall|x: int| 0 <= x < k + 1 implies #[trigger] wire_row_views(data@)[x]
                == spec_row_to_wire(pair_views(orig[x].values@)) by {
                assert(wire_row_views(data@)[x] == json_views(data@[x]@));
                if x < k {
                    assert(data@[x] == prev_data[x]);
                    assert(wire_row_views(prev_data)[x] == json_views(prev_data[x]@));
                }
            }
        }
        k += 1;
    }
    QueryResponse::WithData { columns, data }
}

/// What serializing aggregated rows yields: the first row's grouping and
/// aggregate columns — the latter named `fn(column)`, typed by the
/// finalized value and carrying the source column's type — then per row
/// the grouping values in wire form and each aggregate's finalized value
/// with its full recoverable state.
pub open spec fn agg_response_post(aggregated_rows: Seq<AggregatedRow>, r: QueryResponse) -> bool {
    r matches QueryResponse::WithAggregatedData { columns, aggregate_columns, data, aggregates }
        && {
            &&& data@.len() == aggregated_rows.len()
            &&& aggregates@.len() == aggregated_rows.len()
            &&& wire_col_views(columns@).len() == pair_views(aggregated_rows[0].values@).len()
            &&& forall|c: int|
                0 <= c < pair_views(aggregated_rows[0].values@).len() ==> {
                    &&& (#[trigger] wire_col_views(columns@)[c]).name == pair_views(
                        aggregated_rows[0].values@,
                    )[c].0.name
                    &&& wire_col_views(columns@)[c].ty.spec_table_type() == pair_views(
                        aggregated_rows[0].values@,
                    )[c].0.ty
                }
            &&& wire_col_views(aggregate_columns@).len() == aggregated_rows[0].aggregates@.len()
            &&& forall|a: int|
                0 <= a < aggregated_rows[0].aggregates@.len() ==> {
                    &&& (#[trigger] wire_col_views(aggregate_columns@)[a]).name
                        == AggregateColumn::spec_wire_name(
                        (aggregated_rows[0].aggregates@[a].0)@,
                    )
                    &&& wire_col_views(aggregate_columns@)[a].ty.spec_table_type()
                        == crate::value::spec_type_of((aggregated_rows[0].aggregates@[a].1)@)
                    &&& (wire_col_views(aggregate_columns@)[a].source_ty matches Some(st)
                        && st.spec_table_type() == (aggregated_rows[0].aggregates@[a].0)@.1.ty)
                }
            &&& forall|k: int|
                0 <= k < aggregated_rows.len() ==> #[trigger] wire_row_views(data@)[k]
                    == spec_row_to_wire(pair_views(aggregated_rows[k].values@))
            &&& forall|k: int|
                0 <= k < aggregated_rows.len() ==> (#[trigger] aggregates@[k])@.len()
                    == aggregated_rows[k].aggregates@.len()
            &&& forall|k: int, j: int|
                0 <= k < aggregated_rows.len() && 0 <= j < aggregated_rows[k].aggregates@.len()
                    ==> {
                    &&& ((#[trigger] aggregates@[k]@[j]).value)@ == spec_value_to_json(
                        (aggregated_rows[k].aggregates@[j].1)@,
                    )
                    &&& json_views(aggregates@[k]@[j].components@).len()
                        == aggregated_rows[k].aggregates@[j].2@.len()
                    &&& forall|x: int|
                        0 <= x < aggregated_rows[k].aggregates@[j].2@.len()
                            ==> #[trigger] json_views(aggregates@[k]@[j].components@)[x]
                            == spec_value_to_json(
                            crate::row::value_views(aggregated_rows[k].aggregates@[j].2@)[x],
                        )
                }
        }
}

/// Serializes aggregated rows, as [`agg_response_post`] states.
#[verifier::loop_isolation(false)]
#[verifier::rlimit(100)]
fn serialize_aggregated_rows(aggregated_rows: Vec<AggregatedRow>) -> (r: QueryResponse)
    requires
        aggregated_rows@.len() > 0,
    ensures
        agg_response_post(aggregated_rows@, r),
{
    let ghost orig = aggregated_rows@;
    let first_columns = aggregated_rows[0].columns();
    let m: usize = first_columns.len();
    let mut columns: Vec<Column> = Vec::new();
    let mut c: usize = 0;
    while c < m
        invariant
            0 <= c <= m,
            columns@.len() == c,
            forall|x: int|
                0 <= x < c ==> ((#[trigger] columns@[x]).name@ == pair_views(
                    orig[0].values@,
                )[x].0.name && columns@[x].ty.spec_table_type() == pair_views(
                    orig[0].values@,
                )[x].0.ty),
        decreases m - c,
    {
        proof {
            assert(crate::column::col_views(first_columns@)[c as int] == (
            first_columns@[c as int])@);
            assert(crate::column::col_views(first_columns@)[c as int] == pair_views(
                orig[0].values@,
            )[c as int].0);
        }
        columns.push(Column::from_table_column(&first_columns[c]));
        c += 1;
    }
    proof {
        assert forall|x: int| 0 <= x < m implies {
            &&& (#[trigger] wire_col_views(columns@)[x]).name == pair_views(
                orig[0].values@,
            )[x].0.name
            &&& wire_col_views(columns@)[x].ty.spec_table_type() == pair_views(
                orig[0].values@,
            )[x].0.ty
        } by {
            assert(wire_col_views(columns@)[x] == (columns@[x])@);
        }
    }
    let first_aggs = aggregated_rows[0].aggregate_columns();
    let am: usize = first_aggs.len();
    let mut aggregate_columns: Vec<Column> = Vec::new();
    let mut a: usize = 0;
    while a < am
        invariant
            0 <= a <= am,
            am == orig[0].aggregates@.len(),
            am == first_aggs@.len(),
            forall|x: int|
                0 <= x < am ==> ((#[trigger] first_aggs@[x]).0)@ == (orig[0].aggregates@[x].0)@
                    && (first_aggs@[x].1)@ == (orig[0].aggregates@[x].1)@,
            aggregate_columns@.len() == a,
            forall|x: int|
                0 <= x < a ==> {
                    &&& (#[trigger] aggregate_columns@[x]).name@
                        == AggregateColumn::spec_wire_name((orig[0].aggregates@[x].0)@)
                    &&& aggregate_columns@[x].ty.spec_table_type()
                        == crate::value::spec_type_of((orig[0].aggregates@[x].1)@)
                    &&& (aggregate_columns@[x].source_ty matches Some(st) && st.spec_table_type()
                        == (orig[0].aggregates@[x].0)@.1.ty)
                },
        decreases am - a,
    {
        // The wire name is `fn(column)`; the type is the finalized
        // value's, and the source column's type travels alongside.
        let name = first_aggs[a].0.wire_name();
        let ty = ColumnType::from_table_type(first_aggs[a].1.column_type());
        let source_ty = Some(ColumnType::from_table_type(first_aggs[a].0.1.ty));
        aggregate_columns.push(Column { name, ty, source_ty });
        a += 1;
    }
    proof {
        assert forall|x: int| 0 <= x < am implies {
            &&& (#[trigger] wire_col_views(aggregate_columns@)[x]).name
                == AggregateColumn::spec_wire_name((orig[0].aggregates@[x].0)@)
            &&& wire_col_views(aggregate_columns@)[x].ty.spec_table_type()
                == crate::value::spec_type_of((orig[0].aggregates@[x].1)@)
            &&& (wire_col_views(aggregate_columns@)[x].source_ty matches Some(st)
                && st.spec_table_type() == (orig[0].aggregates@[x].0)@.1.ty)
        } by {
            assert(wire_col_views(aggregate_columns@)[x] == (aggregate_columns@[x])@);
        }
    }
    let n: usize = aggregated_rows.len();
    let mut rest = aggregated_rows;
    let mut data: Vec<Vec<JsonValue>> = Vec::new();
    let mut aggregates: Vec<Vec<AggregateData>> = Vec::new();
    let mut k: usize = 0;
    while k < n
        invariant
            0 <= k <= n,
            n == orig.len(),
            rest@ == orig.subrange(k as int, n as int),
            data@.len() == k,
            aggregates@.len() == k,
            forall|x: int|
                0 <= x < k ==> #[trigger] wire_row_views(data@)[x] == spec_row_to_wire(
                    pair_views(orig[x].values@),
                ),
            forall|x: int|
                0 <= x < k ==> (#[trigger] aggregates@[x])@.len() == orig[x].aggregates@.len(),
            forall|x: int, j: int|
                0 <= x < k && 0 <= j < orig[x].aggregates@.len() ==> {
                    &&& ((#[trigger] aggregates@[x]@[j]).value)@ == spec_value_to_json(
                        (orig[x].aggregates@[j].1)@,
                    )
                    &&& json_views(aggregates@[x]@[j].components@).len()
                        == orig[x].aggregates@[j].2@.len()
                    &&& forall|y: int|
                        0 <= y < orig[x].aggregates@[j].2@.len() ==> #[trigger] json_views(
                            aggregates@[x]@[j].components@,
                        )[y] == spec_value_to_json(
                            crate::row::value_views(orig[x].aggregates@[j].2@)[y],
                        )
                },
        decreases n - k,
    {
        proof {
            assert(orig.subrange(k as int, n as int)[0] == orig[k as int]);
            assert(orig.subrange(k as int, n as int).remove(0) =~= orig.subrange(k + 1, n as int));
        }
        let row = rest.remove(0);
        let ghost row_snap = row;
        let (values, aggregate_values) = row.into_values();
        let ghost row_pairs = pair_views(row_snap.values@);
        let mut wire_row: Vec<JsonValue> = Vec::new();
        let vn: usize = values.len();
        let mut i: usize = 0;
        while i < vn
            invariant
                0 <= i <= vn,
                vn == values@.len(),
                vn == row_pairs.len(),
                wire_row@.len() == i,
                forall|x: int|
                    0 <= x < i ==> ((#[trigger] wire_row@[x]))@ == spec_value_to_json(
                        row_pairs[x].1,
                    ),
            decreases vn - i,
        {
            proof {
                assert(crate::row::value_views(values@)[i as int] == (values@[i as int])@);
                assert(crate::row::value_views(values@)[i as int] == row_pairs[i as int].1);
            }
            wire_row.push(value_to_json(&values[i]));
            i += 1;
        }
        let ghost prev_data = data@;
        data.push(wire_row);
        proof {
            assert(wire_row@.len() == row_pairs.len());
            assert forall|x: int| 0 <= x < row_pairs.len() implies json_views(
                data@[k as int]@,
            )[x] == spec_row_to_wire(row_pairs)[x] by {
                assert(json_views(wire_row@)[x] == (wire_row@[x])@);
                assert(spec_row_to_wire(row_pairs)[x] == spec_value_to_json(row_pairs[x].1));
            }
            assert(json_views(data@[k as int]@) =~= spec_row_to_wire(row_pairs));
            assert forall|x: int| 0 <= x < k + 1 implies #[trigger] wire_row_views(data@)[x]
                == spec_row_to_wire(pair_views(orig[x].values@)) by {
                assert(wire_row_views(data@)[x] == json_views(data@[x]@));
                if x < k {
                    assert(data@[x] == prev_data[x]);
                    assert(wire_row_views(prev_data)[x] == json_views(prev_data[x]@));
                }
            }
        }
        let mut wire_aggs: Vec<AggregateData> = Vec::new();
        let gn: usize = aggregate_values.len();
        let ghost avals = aggregate_values@;
        let mut rest_aggs = aggregate_values;
        let mut j: usize = 0;
        while j < gn
            invariant
                0 <= j <= gn,
                gn == avals.len(),
                gn == row_snap.aggregates@.len(),
                rest_aggs@ == avals.subrange(j as int, gn as int),
                forall|x: int|
                    0 <= x < gn ==> ((#[trigger] avals[x]).0)@ == (row_snap.aggregates@[x].1)@
                        && crate::row::value_views(avals[x].1@) == crate::row::value_views(
                        row_snap.aggregates@[x].2@,
                    ),
                wire_aggs@.len() == j,
                forall|x: int|
                    0 <= x < j ==> {
                        &&& ((#[trigger] wire_aggs@[x]).value)@ == spec_value_to_json(
                            (row_snap.aggregates@[x].1)@,
                        )
                        &&& json_views(wire_aggs@[x].components@).len()
                            == row_snap.aggregates@[x].2@.len()
                        &&& forall|y: int|
                            0 <= y < row_snap.aggregates@[x].2@.len() ==> #[trigger] json_views(
                                wire_aggs@[x].components@,
                            )[y] == spec_value_to_json(
                                crate::row::value_views(row_snap.aggregates@[x].2@)[y],
                            )
                    },
            decreases gn - j,
        {
            proof {
                assert(avals.subrange(j as int, gn as int)[0] == avals[j as int]);
                assert(avals.subrange(j as int, gn as int).remove(0) =~= avals.subrange(
                    j + 1,
                    gn as int,
                ));
            }
            let (value, comps) = rest_aggs.remove(0);
            let ghost comps_snap = comps@;
            let mut wire_comps: Vec<JsonValue> = Vec::new();
            let cn: usize = comps.len();
            let mut x: usize = 0;
            while x < cn
                invariant
                    0 <= x <= cn,
                    cn == comps@.len(),
                    comps@ == comps_snap,
                    wire_comps@.len() == x,
                    forall|y: int|
                        0 <= y < x ==> ((#[trigger] wire_comps@[y]))@ == spec_value_to_json(
                            (comps_snap[y])@,
                        ),
                decreases cn - x,
            {
                wire_comps.push(value_to_json(&comps[x]));
                x += 1;
            }
            let ghost prev_aggs = wire_aggs@;
            wire_aggs.push(AggregateData { value: value_to_json(&value), components: wire_comps });
            proof {
                let cv = crate::row::value_views(row_snap.aggregates@[j as int].2@);
                assert(crate::row::value_views(comps_snap) == cv);
                assert(cv.len() == comps_snap.len());
                assert forall|y: int| 0 <= y < row_snap.aggregates@[j as int].2@.len() implies
                    #[trigger] json_views(wire_aggs@[j as int].components@)[y]
                    == spec_value_to_json(cv[y]) by {
                    assert(json_views(wire_comps@)[y] == (wire_comps@[y])@);
                    assert(crate::row::value_views(comps_snap)[y] == (comps_snap[y])@);
                }
                assert(((wire_aggs@[j as int]).value)@ == spec_value_to_json(
                    (avals[j as int].0)@,
                ));
                assert forall|x2: int| 0 <= x2 < j implies #[trigger] wire_aggs@[x2]
                    == prev_aggs[x2] by {}
            }
            j += 1;
        }
        let ghost prev_wire = aggregates@;
        aggregates.push(wire_aggs);
        proof {
            assert(aggregates@[k as int] == wire_aggs);
            assert forall|x: int, j2: int|
                0 <= x < k + 1 && 0 <= j2 < orig[x].aggregates@.len() implies {
                &&& ((#[trigger] aggregates@[x]@[j2]).value)@ == spec_value_to_json(
                    (orig[x].aggregates@[j2].1)@,
                )
                &&& json_views(aggregates@[x]@[j2].components@).len()
                    == orig[x].aggregates@[j2].2@.len()
                &&& forall|y: int|
                    0 <= y < orig[x].aggregates@[j2].2@.len() ==> #[trigger] json_views(
                        aggregates@[x]@[j2].components@,
                    )[y] == spec_value_to_json(
                        crate::row::value_views(orig[x].aggregates@[j2].2@)[y],
                    )
            } by {
                if x < k {
                    assert(aggregates@[x] == prev_wire[x]);
                }
            }
        }
        k += 1;
    }
    QueryResponse::WithAggregatedData { columns, aggregate_columns, data, aggregates }
}

} // verus!

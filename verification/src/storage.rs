//! The per-node columnar storage engine, modeled in memory.
//!
//! A table is a directory holding an index file, a stats file and one
//! file per column. This module holds the decoded image of those files —
//! entries, not bytes — together with the invariants that tie them: the
//! stats counters equal the number of index entries, every column file's
//! row-ids are strictly increasing and refer to index rows, stored values
//! match their column's type and are never null. The byte codecs here map
//! each image to and from the exact on-disk format; the embedding process
//! does the reading and writing of the files themselves.

use vstd::prelude::*;
use vstd::bytes::{
    lemma_auto_spec_u64_to_from_le_bytes, spec_u64_from_le_bytes, spec_u64_to_le_bytes,
    u64_from_le_bytes, u64_to_le_bytes,
};
use crate::codec::{decode_value_payload, encode_value_payload, spec_encode_payload};
use crate::column::{ColView, Column};
use crate::error::DbError;
use crate::value::{spec_type_of, ColumnType, ColumnValue, ValueView};

verus! {

/// The durable counters of a table: how many rows it holds and the
/// row-id the next insert receives. The two advance together.
#[derive(Debug, Clone, Copy, PartialEq, Eq, Structural)]
pub struct TableStats {
    pub row_count: u64,
    pub next_index: u64,
}

/// What a stats file image holds: each counter is read from its eight
/// little-endian bytes, and an absent or short region reads as zero.
pub open spec fn spec_stats_from_bytes(b: Seq<u8>) -> TableStats {
    TableStats {
        row_count: if b.len() >= 8 {
            spec_u64_from_le_bytes(b.subrange(0, 8))
        } else {
            0u64
        },
        next_index: if b.len() >= 16 {
            spec_u64_from_le_bytes(b.subrange(8, 16))
        } else {
            0u64
        },
    }
}

impl TableStats {
    /// Parses the 16-byte stats header; a short image reads as zeros, so
    /// a freshly created empty file starts both counters at zero.
    pub fn from_bytes(bytes: &[u8]) -> (r: TableStats)
        ensures
            r == spec_stats_from_bytes(bytes@),
    {
        let row_count: u64 = if bytes.len() >= 8 {
            let head = vstd::slice::slice_subrange(bytes, 0, 8);
            u64_from_le_bytes(head)
        } else {
            0
        };
        let next_index: u64 = if bytes.len() >= 16 {
            let tail = vstd::slice::slice_subrange(bytes, 8, 16);
            u64_from_le_bytes(tail)
        } else {
            0
        };
        TableStats { row_count, next_index }
    }

    /// The 16-byte on-disk image of the counters.
    pub fn to_bytes(&self) -> (r: Vec<u8>)
        ensures
            r@.len() == 16,
            r@ == spec_u64_to_le_bytes(self.row_count) + spec_u64_to_le_bytes(self.next_index),
            spec_stats_from_bytes(r@) == *self,
    {
        let mut out = u64_to_le_bytes(self.row_count);
        let mut tail = u64_to_le_bytes(self.next_index);
        out.append(&mut tail);
        proof {
            lemma_auto_spec_u64_to_from_le_bytes();
            assert(out@.subrange(0, 8) =~= spec_u64_to_le_bytes(self.row_count));
            assert(out@.subrange(8, 16) =~= spec_u64_to_le_bytes(self.next_index));
        }
        out
    }

    /// Advances both counters by one row.
    pub fn increment(&mut self)
        requires
            old(self).row_count < u64::MAX,
            old(self).next_index < u64::MAX,
        ensures
            final (self).row_count == old(self).row_count + 1,
            final (self).next_index == old(self).next_index + 1,
    {
        self.row_count = self.row_count + 1;
        self.next_index = self.next_index + 1;
    }
}

/// One index file entry: the identity and insertion time of a row.
#[derive(Debug, Clone, Copy, PartialEq, Eq, Structural)]
pub struct IndexEntry {
    pub index_id: u64,
    pub timestamp: u64,
}

/// One column file entry: the row it belongs to, the row's insertion
/// time, and the stored value.
#[derive(Debug)]
pub struct ColumnEntry {
    pub index_id: u64,
    pub timestamp: u64,
    pub value: ColumnValue,
}

/// Mathematical model of a [`ColumnEntry`].
pub struct EntryView {
    pub index_id: u64,
    pub timestamp: u64,
    pub value: ValueView,
}

impl View for ColumnEntry {
    type V = EntryView;

    open spec fn view(&self) -> EntryView {
        EntryView { index_id: self.index_id, timestamp: self.timestamp, value: self.value@ }
    }
}

/// The views of a column entry list.
pub open spec fn entry_views(s: Seq<ColumnEntry>) -> Seq<EntryView> {
    s.map_values(|e: ColumnEntry| e@)
}

/// One column's on-disk log: the column and its entries in file order.
#[derive(Debug)]
pub struct ColumnFile {
    pub column: Column,
    pub entries: Vec<ColumnEntry>,
}

/// Mathematical model of a [`ColumnFile`].
pub struct ColumnFileView {
    pub column: ColView,
    pub entries: Seq<EntryView>,
}

impl View for ColumnFile {
    type V = ColumnFileView;

    open spec fn view(&self) -> ColumnFileView {
        ColumnFileView { column: self.column@, entries: entry_views(self.entries@) }
    }
}

/// The views of a column file list.
pub open spec fn file_views(s: Seq<ColumnFile>) -> Seq<ColumnFileView> {
    s.map_values(|f: ColumnFile| f@)
}

/// The invariant of one column file against the index: row-ids strictly
/// increase and refer to index rows, the timestamp of an entry is its
/// row's, values fit the column's type, and null is never stored.
pub open spec fn wf_column_file(cf: ColumnFileView, index: Seq<IndexEntry>) -> bool {
    &&& forall|i: int|
        0 <= i < cf.entries.len() ==> (#[trigger] cf.entries[i]).index_id < index.len()
    &&& forall|i: int|
        0 < i < cf.entries.len() ==> cf.entries[i - 1].index_id < (#[trigger] cf.entries[i]).index_id
    &&& forall|i: int|
        0 <= i < cf.entries.len() ==> (#[trigger] cf.entries[i]).timestamp == index[
            cf.entries[i].index_id as int
        ].timestamp
    &&& forall|i: int|
        0 <= i < cf.entries.len() ==> spec_type_of((#[trigger] cf.entries[i]).value)
            == cf.column.ty
    &&& forall|i: int| 0 <= i < cf.entries.len() ==> !((#[trigger] cf.entries[i]).value is Null)
}

/// A table's name and columns, as discovered or created.
#[derive(Debug)]
pub struct TableDefinition {
    pub name: String,
    pub columns: Vec<Column>,
}

impl TableDefinition {
    pub fn new(name: String, columns: Vec<Column>) -> (r: Self)
        ensures
            r.name == name,
            r.columns == columns,
    {
        Self { name, columns }
    }

    /// Reconstructs a definition from a directory listing, keeping every
    /// well-formed column file name; the index and stats files fail the
    /// three-part rule and are skipped.
    pub fn open(name: String, file_names: &Vec<String>) -> (r: Self)
        ensures
            r.name == name,
            crate::column::col_views(r.columns@) == crate::column::spec_columns_from_names(
                crate::column::name_views(file_names@),
            ),
    {
        let columns = crate::column::columns_from_file_names(file_names);
        Self { name, columns }
    }

    /// A copy whose name and columns equal this one's.
    #[verifier::loop_isolation(false)]
    pub fn duplicate(&self) -> (r: Self)
        ensures
            r.name@ == self.name@,
            crate::column::col_views(r.columns@) == crate::column::col_views(self.columns@),
    {
        let n: usize = self.columns.len();
        let mut cols: Vec<Column> = Vec::new();
        let mut i: usize = 0;
        while i < n
            invariant
                0 <= i <= n,
                cols@.len() == i,
                forall|k: int| 0 <= k < i ==> ((#[trigger] cols@[k]))@ == (self.columns@[k])@,
            decreases n - i,
        {
            cols.push(self.columns[i].duplicate());
            i += 1;
        }
        proof {
            assert(crate::column::col_views(cols@) =~= crate::column::col_views(self.columns@));
        }
        Self { name: self.name.clone(), columns: cols }
    }
}

/// A loaded table: its definition, counters, index and column files.
pub struct Table {
    pub definition: TableDefinition,
    pub stats: TableStats,
    pub index: Vec<IndexEntry>,
    pub files: Vec<ColumnFile>,
}

impl Table {
    /// The storage invariants. The counters equal the number of index
    /// entries, the k-th index entry records row-id k, and every column
    /// file is one per column and well formed against the index.
    pub open spec fn wf(self) -> bool {
        &&& self.stats.row_count == self.stats.next_index
        &&& self.stats.row_count == self.index@.len()
        &&& forall|k: int| 0 <= k < self.index@.len() ==> (#[trigger] self.index@[k]).index_id == k
        &&& self.files@.len() == self.definition.columns@.len()
        &&& forall|j: int|
            0 <= j < self.files@.len() ==> (#[trigger] file_views(self.files@)[j]).column
                == crate::column::col_views(self.definition.columns@)[j]
        &&& forall|j: int|
            0 <= j < self.files@.len() ==> wf_column_file(
                #[trigger] file_views(self.files@)[j],
                self.index@,
            )
    }

    pub fn name(&self) -> (r: &str)
        ensures
            r@ == self.definition.name@,
    {
        self.definition.name.as_str()
    }
}

/// The byte image of one index entry.
pub open spec fn spec_index_entry_bytes(e: IndexEntry) -> Seq<u8> {
    spec_u64_to_le_bytes(e.index_id) + spec_u64_to_le_bytes(e.timestamp)
}

/// The byte image of an index file: sixteen bytes per entry, in order.
pub open spec fn spec_index_bytes(s: Seq<IndexEntry>) -> Seq<u8>
    decreases s.len(),
{
    if s.len() == 0 {
        Seq::<u8>::empty()
    } else {
        spec_index_entry_bytes(s[0]) + spec_index_bytes(s.drop_first())
    }
}

/// The index file's size is sixteen bytes per row.
pub proof fn lemma_index_bytes_len(s: Seq<IndexEntry>)
    ensures
        spec_index_bytes(s).len() == 16 * s.len(),
    decreases s.len(),
{
    lemma_auto_spec_u64_to_from_le_bytes();
    if s.len() > 0 {
        lemma_index_bytes_len(s.drop_first());
    }
}

/// The byte image of one column entry: row-id, timestamp, payload.
pub open spec fn spec_column_entry_bytes(e: EntryView) -> Seq<u8> {
    spec_u64_to_le_bytes(e.index_id) + spec_u64_to_le_bytes(e.timestamp) + spec_encode_payload(
        e.value,
    )
}

/// The byte image of a column file's entries.
pub open spec fn spec_column_file_bytes(s: Seq<EntryView>) -> Seq<u8>
    decreases s.len(),
{
    if s.len() == 0 {
        Seq::<u8>::empty()
    } else {
        spec_column_entry_bytes(s[0]) + spec_column_file_bytes(s.drop_first())
    }
}

/// A column file's size is an integer multiple of sixteen plus the
/// column type's payload width, provided its values fit the type.
pub proof fn lemma_column_file_bytes_len(s: Seq<EntryView>, ty: ColumnType)
    requires
        forall|i: int| 0 <= i < s.len() ==> spec_type_of((#[trigger] s[i]).value) == ty,
    ensures
        spec_column_file_bytes(s).len() == (16 + ty.spec_size()) * s.len(),
    decreases s.len(),
{
    lemma_auto_spec_u64_to_from_le_bytes();
    if s.len() > 0 {
        assert(spec_type_of(s[0].value) == ty);
        lemma_column_file_bytes_len(s.drop_first(), ty);
        assert(spec_encode_payload(s[0].value).len() == ty.spec_size());
        assert((16 + ty.spec_size()) * s.len() == (16 + ty.spec_size()) * (s.len() - 1) + (16
            + ty.spec_size())) by (nonlinear_arith);
    }
}

impl Table {
    /// The on-disk image of the stats file.
    pub fn stats_bytes(&self) -> (r: Vec<u8>)
        ensures
            r@.len() == 16,
            spec_stats_from_bytes(r@) == self.stats,
    {
        self.stats.to_bytes()
    }

    /// The on-disk image of the index file.
    #[verifier::loop_isolation(false)]
    pub fn index_bytes(&self) -> (r: Vec<u8>)
        ensures
            r@ == spec_index_bytes(self.index@),
            r@.len() == 16 * self.index@.len(),
    {
        let n: usize = self.index.len();
        let mut out: Vec<u8> = Vec::new();
        let mut i: usize = 0;
        proof {
            lemma_index_bytes_len(self.index@);
        }
        while i < n
            invariant
                0 <= i <= n,
                out@ == spec_index_bytes(self.index@.subrange(0, i as int)),
            decreases n - i,
        {
            proof {
                lemma_index_bytes_snoc(self.index@.subrange(0, i + 1));
                assert(self.index@.subrange(0, i + 1).drop_last() =~= self.index@.subrange(
                    0,
                    i as int,
                ));
            }
            let mut a = u64_to_le_bytes(self.index[i].index_id);
            let mut b = u64_to_le_bytes(self.index[i].timestamp);
            out.append(&mut a);
            out.append(&mut b);
            proof {
                assert(out@ =~= spec_index_bytes(self.index@.subrange(0, i as int))
                    + spec_index_entry_bytes(self.index@[i as int]));
            }
            i += 1;
        }
        proof {
            assert(self.index@.subrange(0, n as int) =~= self.index@);
        }
        out
    }

    /// The on-disk image of the column file at position `j`.
    #[verifier::loop_isolation(false)]
    pub fn column_file_bytes(&self, j: usize) -> (r: Vec<u8>)
        requires
            j < self.files@.len(),
            forall|i: int|
                0 <= i < file_views(self.files@)[j as int].entries.len() ==> spec_type_of(
                    (#[trigger] file_views(self.files@)[j as int].entries[i]).value,
                ) == file_views(self.files@)[j as int].column.ty,
        ensures
            r@ == spec_column_file_bytes(file_views(self.files@)[j as int].entries),
            r@.len() == (16 + file_views(self.files@)[j as int].column.ty.spec_size())
                * file_views(self.files@)[j as int].entries.len(),
    {
        let file = &self.files[j];
        let ghost entries = file_views(self.files@)[j as int].entries;
        proof {
            assert(file_views(self.files@)[j as int] == self.files@[j as int]@);
            lemma_column_file_bytes_len(entries, file.column@.ty);
        }
        let n: usize = file.entries.len();
        let mut out: Vec<u8> = Vec::new();
        let mut i: usize = 0;
        while i < n
            invariant
                0 <= i <= n,
                n == entries.len(),
                entries == entry_views(file.entries@),
                out@ == spec_column_file_bytes(entries.subrange(0, i as int)),
            decreases n - i,
        {
            proof {
                lemma_column_file_bytes_snoc(entries.subrange(0, i + 1));
                assert(entries.subrange(0, i + 1).drop_last() =~= entries.subrange(0, i as int));
                assert(entries[i as int] == file.entries@[i as int]@);
            }
            let mut a = u64_to_le_bytes(file.entries[i].index_id);
            let mut b = u64_to_le_bytes(file.entries[i].timestamp);
            let mut p = encode_value_payload(&file.entries[i].value);
            out.append(&mut a);
            out.append(&mut b);
            out.append(&mut p);
            proof {
                assert(out@ =~= spec_column_file_bytes(entries.subrange(0, i as int))
                    + spec_column_entry_bytes(entries[i as int]));
            }
            i += 1;
        }
        proof {
            assert(entries.subrange(0, n as int) =~= entries);
        }
        out
    }
}

/// Appending one entry appends its byte image.
pub proof fn lemma_index_bytes_snoc(s: Seq<IndexEntry>)
    requires
        s.len() > 0,
    ensures
        spec_index_bytes(s) == spec_index_bytes(s.drop_last()) + spec_index_entry_bytes(s.last()),
    decreases s.len(),
{
    if s.len() == 1 {
        assert(s.drop_last() =~= Seq::<IndexEntry>::empty());
        assert(s.drop_first() =~= Seq::<IndexEntry>::empty());
        assert(spec_index_bytes(s) == spec_index_entry_bytes(s[0]) + spec_index_bytes(
            s.drop_first(),
        ));
        assert(spec_index_bytes(s.drop_first()) =~= Seq::<u8>::empty());
        assert(spec_index_bytes(s) =~= spec_index_entry_bytes(s[0]));
        assert(spec_index_bytes(s.drop_last()) + spec_index_entry_bytes(s.last())
            =~= spec_index_entry_bytes(s[0]));
    } else {
        lemma_index_bytes_snoc(s.drop_first());
        assert(s.drop_first().drop_last() =~= s.drop_last().drop_first());
        assert(s.drop_last()[0] == s[0]);
        assert(s.drop_first().last() == s.last());
        assert(spec_index_bytes(s) == spec_index_entry_bytes(s[0]) + (spec_index_bytes(
            s.drop_first().drop_last(),
        ) + spec_index_entry_bytes(s.last())));
        assert(spec_index_bytes(s.drop_last()) == spec_index_entry_bytes(s[0]) + spec_index_bytes(
            s.drop_last().drop_first(),
        ));
        assert(spec_index_entry_bytes(s[0]) + (spec_index_bytes(s.drop_first().drop_last())
            + spec_index_entry_bytes(s.last())) =~= (spec_index_entry_bytes(s[0])
            + spec_index_bytes(s.drop_first().drop_last())) + spec_index_entry_bytes(s.last()));
    }
}

/// Appending one entry appends its byte image.
pub proof fn lemma_column_file_bytes_snoc(s: Seq<EntryView>)
    requires
        s.len() > 0,
    ensures
        spec_column_file_bytes(s) == spec_column_file_bytes(s.drop_last())
            + spec_column_entry_bytes(s.last()),
    decreases s.len(),
{
    if s.len() == 1 {
        assert(s.drop_last() =~= Seq::<EntryView>::empty());
        assert(s.drop_first() =~= Seq::<EntryView>::empty());
        assert(spec_column_file_bytes(s) == spec_column_entry_bytes(s[0])
            + spec_column_file_bytes(s.drop_first()));
        assert(spec_column_file_bytes(s.drop_first()) =~= Seq::<u8>::empty());
        assert(spec_column_file_bytes(s) =~= spec_column_entry_bytes(s[0]));
        assert(spec_column_file_bytes(s.drop_last()) + spec_column_entry_bytes(s.last())
            =~= spec_column_entry_bytes(s[0]));
    } else {
        lemma_column_file_bytes_snoc(s.drop_first());
        assert(s.drop_first().drop_last() =~= s.drop_last().drop_first());
        assert(s.drop_last()[0] == s[0]);
        assert(s.drop_first().last() == s.last());
        assert(spec_column_file_bytes(s) == spec_column_entry_bytes(s[0]) + (
        spec_column_file_bytes(s.drop_first().drop_last()) + spec_column_entry_bytes(s.last())));
        assert(spec_column_file_bytes(s.drop_last()) == spec_column_entry_bytes(s[0])
            + spec_column_file_bytes(s.drop_last().drop_first()));
        assert(spec_column_entry_bytes(s[0]) + (spec_column_file_bytes(s.drop_first().drop_last())
            + spec_column_entry_bytes(s.last())) =~= (spec_column_entry_bytes(s[0])
            + spec_column_file_bytes(s.drop_first().drop_last())) + spec_column_entry_bytes(
            s.last(),
        ));
    }
}



/// Whether a value of this shape is accepted by a column of this type:
/// integers fit integer and float columns, numbers fit float columns,
/// strings fit string columns when their truncated image reads back.
pub open spec fn spec_coerce_accepts(ty: ColumnType, v: crate::value::JsonView) -> bool {
    match (ty, v) {
        (ColumnType::Integer, crate::value::JsonView::Int(_)) => true,
        (ColumnType::Float, crate::value::JsonView::Int(_)) => true,
        (ColumnType::Float, crate::value::JsonView::Float(_)) => true,
        (ColumnType::String, crate::value::JsonView::Str(s)) => crate::codec::spec_decode_payload(
            ColumnType::String,
            crate::codec::spec_string_payload(s),
        ) is Some,
        _ => false,
    }
}

/// What an accepted value is stored as: integers and float bits keep
/// their value, an integer in a float column becomes a float of
/// unspecified bits, and a string is stored as what its truncated,
/// NUL-padded image reads back as.
pub open spec fn coerce_ok(ty: ColumnType, v: crate::value::JsonView, r: ValueView) -> bool {
    match (ty, v) {
        (ColumnType::Integer, crate::value::JsonView::Int(x)) => r == ValueView::Int(x),
        (ColumnType::Float, crate::value::JsonView::Int(_)) => r is Float,
        (ColumnType::Float, crate::value::JsonView::Float(b)) => r == ValueView::Float(b),
        (ColumnType::String, crate::value::JsonView::Str(s)) => Some(r)
            == crate::codec::spec_decode_payload(
            ColumnType::String,
            crate::codec::spec_string_payload(s),
        ),
        _ => false,
    }
}

/// Whether a rejected value is a type mismatch (a number or string of
/// the wrong shape for the column) rather than an unsupported value.
pub open spec fn spec_coerce_mismatch(ty: ColumnType, v: crate::value::JsonView) -> bool {
    match (ty, v) {
        (_, crate::value::JsonView::Null) => false,
        (_, crate::value::JsonView::Other) => false,
        (ColumnType::String, crate::value::JsonView::Str(_)) => false,
        _ => true,
    }
}

/// A stored coerced value fits its column's type and is never null.
pub proof fn lemma_coerce_ok_type(ty: ColumnType, v: crate::value::JsonView, r: ValueView)
    requires
        coerce_ok(ty, v, r),
    ensures
        spec_type_of(r) == ty,
        !(r is Null),
{
}

/// Checks one value against one column and yields the stored value.
fn coerce_value<A: crate::value::FloatArith>(
    column: &Column,
    value: &crate::value::JsonValue,
    arith: &A,
) -> (r: Result<ColumnValue, DbError>)
    ensures
        r is Ok <==> spec_coerce_accepts(column@.ty, value@),
        r matches Ok(cv) ==> coerce_ok(column@.ty, value@, cv@),
        r matches Err(e) ==> if spec_coerce_mismatch(column@.ty, value@) {
            e matches DbError::TypeMismatch { column: c, declared: d } && c@ == column@.name && d
                == column@.ty
        } else {
            e is UnsupportedValue
        },
{
    match value {
        crate::value::JsonValue::Int(x) => {
            match column.ty {
                ColumnType::Integer => Ok(ColumnValue::Integer(*x)),
                ColumnType::Float => Ok(ColumnValue::Float(arith.int_to_bits(*x))),
                _ => Err(
                    DbError::TypeMismatch { column: column.name.clone(), declared: column.ty },
                ),
            }
        },
        crate::value::JsonValue::Float(b) => {
            match column.ty {
                ColumnType::Float => Ok(ColumnValue::Float(*b)),
                _ => Err(
                    DbError::TypeMismatch { column: column.name.clone(), declared: column.ty },
                ),
            }
        },
        crate::value::JsonValue::Str(s) => {
            match column.ty {
                ColumnType::String => {
                    let payload = crate::codec::encode_string_payload(s.as_str());
                    match crate::codec::decode_value_payload(
                        ColumnType::String,
                        payload.as_slice(),
                    ) {
                        Some(cv) => Ok(cv),
                        None => Err(DbError::UnsupportedValue),
                    }
                },
                _ => Err(
                    DbError::TypeMismatch { column: column.name.clone(), declared: column.ty },
                ),
            }
        },
        crate::value::JsonValue::Null => Err(DbError::UnsupportedValue),
        crate::value::JsonValue::Other => Err(DbError::UnsupportedValue),
    }
}

/// The first file whose column carries that name.
#[verifier::loop_isolation(false)]
pub(crate) fn position_of_file(files: &Vec<ColumnFile>, name: &str) -> (r: Option<usize>)
    ensures
        match r {
            Some(j) => (j as int) < files@.len() && (files@[j as int].column)@.name == name@
                && forall|k: int|
                0 <= k < j ==> ((#[trigger] files@[k]).column)@.name != name@,
            None => forall|k: int|
                0 <= k < files@.len() ==> ((#[trigger] files@[k]).column)@.name != name@,
        },
{
    let n: usize = files.len();
    let mut j: usize = 0;
    while j < n
        invariant
            0 <= j <= n,
            forall|k: int| 0 <= k < j ==> ((#[trigger] files@[k]).column)@.name != name@,
        decreases n - j,
    {
        if crate::value::str_eq(files[j].column.name.as_str(), name) {
            return Some(j);
        }
        j += 1;
    }
    None
}

/// The views of the staged value matrix.
pub open spec fn staged_views(s: Seq<Vec<ColumnValue>>) -> Seq<Seq<ValueView>> {
    s.map_values(|r: Vec<ColumnValue>| crate::row::value_views(r@))
}

/// Whether no insert name occurs twice.
pub open spec fn spec_distinct_names(names: Seq<Seq<char>>) -> bool {
    forall|a: int, b: int| 0 <= a < b < names.len() ==> #[trigger] names[a] != #[trigger] names[b]
}

/// When an insert is owed success: every name resolves, no name repeats,
/// every row has one value per name, every value fits its column, and
/// the row-ids to be assigned fit in 64 bits.
pub open spec fn insert_accepted(
    columns: Seq<ColView>,
    index_len: int,
    names: Seq<Seq<char>>,
    rows: Seq<Seq<crate::value::JsonView>>,
) -> bool {
    &&& crate::column::spec_validate_columns(columns, names) is Some
    &&& spec_distinct_names(names)
    &&& forall|r: int| 0 <= r < rows.len() ==> (#[trigger] rows[r]).len() == names.len()
    &&& (forall|r: int, c: int|
        0 <= r < rows.len() && 0 <= c < names.len() ==> spec_coerce_accepts(
            crate::column::spec_validate_columns(columns, names).unwrap()[c].ty,
            #[trigger] rows[r][c],
        ))
    &&& index_len + rows.len() <= u64::MAX
}

/// What a successful insert does, given the staged stored values: one
/// index entry per row with consecutive row-ids and the call's timestamp,
/// and for each named column, one entry per row appended to its file;
/// every other file is untouched.
pub open spec fn insert_result(
    columns: Seq<ColView>,
    old_index: Seq<IndexEntry>,
    old_files: Seq<ColumnFileView>,
    new_index: Seq<IndexEntry>,
    new_files: Seq<ColumnFileView>,
    names: Seq<Seq<char>>,
    rows: Seq<Seq<crate::value::JsonView>>,
    staged: Seq<Seq<ValueView>>,
    timestamp: u64,
) -> bool {
    let res = crate::column::spec_validate_columns(columns, names).unwrap();
    let base = old_index.len() as int;
    &&& staged.len() == rows.len()
    &&& forall|r: int| 0 <= r < staged.len() ==> (#[trigger] staged[r]).len() == names.len()
    &&& (forall|r: int, c: int|
        0 <= r < rows.len() && 0 <= c < names.len() ==> coerce_ok(
            res[c].ty,
            rows[r][c],
            #[trigger] staged[r][c],
        ))
    &&& new_index == old_index + Seq::new(
        rows.len(),
        |k: int| IndexEntry { index_id: (base + k) as u64, timestamp },
    )
    &&& new_files.len() == old_files.len()
    &&& forall|j: int|
        0 <= j < old_files.len() ==> (#[trigger] new_files[j]).column == old_files[j].column
    &&& (forall|c: int|
        0 <= c < names.len() ==> (#[trigger] new_files[crate::column::spec_col_position(
            columns,
            names[c],
        )]).entries == old_files[crate::column::spec_col_position(columns, names[c])].entries
            + Seq::new(
            rows.len(),
            |k: int| EntryView { index_id: (base + k) as u64, timestamp, value: staged[k][c] },
        ))
    &&& (forall|j: int|
        0 <= j < old_files.len() && (forall|c: int|
            0 <= c < names.len() ==> crate::column::spec_col_position(columns, #[trigger] names[c])
                != j) ==> (#[trigger] new_files[j]).entries == old_files[j].entries)
}

/// Whether `(r1, c1)` comes before `(r2, c2)` in row-major order.
pub open spec fn row_major_earlier(r1: int, c1: int, r2: int, c2: int) -> bool {
    r1 < r2 || (r1 == r2 && c1 < c2)
}

/// Whether `(r, c)` is the first value, in row-major order, that its
/// column rejects.
pub open spec fn first_rejected(
    res: Seq<ColView>,
    rows: Seq<Seq<crate::value::JsonView>>,
    r: int,
    c: int,
) -> bool {
    &&& 0 <= r < rows.len()
    &&& 0 <= c < res.len()
    &&& !spec_coerce_accepts(res[c].ty, rows[r][c])
    &&& forall|r2: int, c2: int|
        0 <= r2 < rows.len() && 0 <= c2 < res.len() && row_major_earlier(r2, c2, r, c)
            ==> spec_coerce_accepts(res[c2].ty, #[trigger] rows[r2][c2])
}

/// Which error a rejected insert reports, and on exactly which inputs:
/// unknown column, then duplicate name, then row arity, then the first
/// rejected value (a type mismatch naming the column, or an unsupported
/// value), then the row-id limit.
pub open spec fn insert_error(
    columns: Seq<ColView>,
    index_len: int,
    names: Seq<Seq<char>>,
    rows: Seq<Seq<crate::value::JsonView>>,
    e: DbError,
) -> bool {
    let resolved = crate::column::spec_validate_columns(columns, names);
    let arity_ok = forall|r: int| 0 <= r < rows.len() ==> (#[trigger] rows[r]).len()
        == names.len();
    match e {
        DbError::UnknownColumn => resolved is None,
        DbError::DuplicateColumn => resolved is Some && !spec_distinct_names(names),
        DbError::RowArity => resolved is Some && spec_distinct_names(names) && !arity_ok,
        DbError::TypeMismatch { column, declared } => resolved is Some && spec_distinct_names(
            names,
        ) && arity_ok && (exists|r: int, c: int|
            {
                &&& #[trigger] first_rejected(resolved.unwrap(), rows, r, c)
                &&& spec_coerce_mismatch(resolved.unwrap()[c].ty, rows[r][c])
                &&& column@ == resolved.unwrap()[c].name
                &&& declared == resolved.unwrap()[c].ty
            }),
        DbError::UnsupportedValue => resolved is Some && spec_distinct_names(names) && arity_ok
            && (exists|r: int, c: int|
            {
                &&& #[trigger] first_rejected(resolved.unwrap(), rows, r, c)
                &&& !spec_coerce_mismatch(resolved.unwrap()[c].ty, rows[r][c])
            }),
        DbError::Corrupt => resolved is Some && spec_distinct_names(names) && arity_ok && (forall|
            r: int,
            c: int,
        |
            0 <= r < rows.len() && 0 <= c < names.len() ==> spec_coerce_accepts(
                resolved.unwrap()[c].ty,
                #[trigger] rows[r][c],
            )) && index_len + rows.len() > u64::MAX,
        _ => false,
    }
}

impl Table {
    /// Inserts a batch of rows: each name must resolve to a distinct
    /// existing column, each row carries one value per name, and each
    /// value must fit its column's type. The whole batch is validated
    /// first, so a rejected insert leaves the table untouched; an
    /// accepted one appends one index entry per row and one entry per
    /// named column and row, all carrying the same timestamp, and
    /// advances the counters.
    #[verifier::loop_isolation(false)]
    pub fn insert<A: crate::value::FloatArith>(
        &mut self,
        columns: Vec<String>,
        values: Vec<Vec<crate::value::JsonValue>>,
        timestamp: u64,
        arith: &A,
    ) -> (r: Result<(), DbError>)
        requires
            old(self).wf(),
        ensures
            final (self).wf(),
            final (self).definition.name@ == old(self).definition.name@,
            final (self).definition.columns == old(self).definition.columns,
            match r {
                Ok(_) => insert_accepted(
                    crate::column::col_views(old(self).definition.columns@),
                    old(self).index@.len() as int,
                    crate::column::name_views(columns@),
                    crate::value::json_row_views(values@),
                ) && (exists|staged: Seq<Seq<ValueView>>|
                    #[trigger] insert_result(
                        crate::column::col_views(old(self).definition.columns@),
                        old(self).index@,
                        file_views(old(self).files@),
                        final (self).index@,
                        file_views(final (self).files@),
                        crate::column::name_views(columns@),
                        crate::value::json_row_views(values@),
                        staged,
                        timestamp,
                    )),
                Err(e) => *final (self) == *old(self) && !insert_accepted(
                    crate::column::col_views(old(self).definition.columns@),
                    old(self).index@.len() as int,
                    crate::column::name_views(columns@),
                    crate::value::json_row_views(values@),
                ) && insert_error(
                    crate::column::col_views(old(self).definition.columns@),
                    old(self).index@.len() as int,
                    crate::column::name_views(columns@),
                    crate::value::json_row_views(values@),
                    e,
                ),
            },
    {
        let ghost cols_v = crate::column::col_views(self.definition.columns@);
        let ghost names = crate::column::name_views(columns@);
        let ghost rows = crate::value::json_row_views(values@);
        // Resolve every name to its column.
        let resolved = match crate::column::parse_and_validate_columns(
            &self.definition.columns,
            &columns,
        ) {
            Ok(cols) => cols,
            Err(e) => {
                return Err(e);
            },
        };
        let ghost res = crate::column::spec_validate_columns(cols_v, names).unwrap();
        proof {
            assert(crate::column::col_views(resolved@) == res);
            crate::column::lemma_validate_columns_elements(cols_v, names);
        }
        let m: usize = resolved.len();
        proof {
            assert(crate::column::col_views(resolved@).len() == res.len());
        }
        // Locate each named column's file; well-formedness guarantees one.
        let mut positions: Vec<usize> = Vec::new();
        let mut c: usize = 0;
        while c < m
            invariant
                0 <= c <= m,
                positions@.len() == c,
                forall|k: int|
                    0 <= k < c ==> (#[trigger] positions@[k]) as int
                        == crate::column::spec_col_position(cols_v, names[k]),
                forall|k: int| 0 <= k < c ==> ((#[trigger] positions@[k]) as int) < self.files@.len(),
            decreases m - c,
        {
            proof {
                assert(crate::column::col_views(resolved@)[c as int] == (resolved@[c as int])@);
                crate::column::lemma_find_is_position(cols_v, names[c as int]);
            }
            match position_of_file(&self.files, resolved[c].name.as_str()) {
                Some(j) => {
                    proof {
                        let p = crate::column::spec_col_position(cols_v, names[c as int]);
                        assert(res[c as int].name == names[c as int]);
                        assert((resolved@[c as int])@.name == names[c as int]);
                        assert forall|k: int| 0 <= k < j implies (#[trigger] cols_v[k]).name
                            != names[c as int] by {
                            assert(((self.files@[k]).column)@.name != names[c as int]);
                            assert(file_views(self.files@)[k].column == cols_v[k]);
                        }
                        assert(cols_v[j as int].name == names[c as int]) by {
                            assert(file_views(self.files@)[j as int].column == cols_v[j as int]);
                        }
                        crate::column::lemma_col_position_at(cols_v, names[c as int], j as int);
                    }
                    positions.push(j);
                },
                None => {
                    proof {
                        let p = crate::column::spec_col_position(cols_v, names[c as int]);
                        assert(0 <= p < cols_v.len());
                        assert(file_views(self.files@)[p].column == cols_v[p]);
                        assert(((self.files@[p]).column)@.name == names[c as int]);
                        assert(false);
                    }
                },
            }
            c += 1;
        }
        // Reject a name that occurs twice: its entries would share a row-id.
        let mut a: usize = 0;
        while a < m
            invariant
                0 <= a <= m,
                forall|x: int, y: int| 0 <= x < y < m && x < a ==> #[trigger] names[x] != #[trigger] names[y],
            decreases m - a,
        {
            let mut b: usize = a + 1;
            while b < m
                invariant
                    a < m,
                    a < b <= m,
                    forall|y: int| a < y < b ==> names[a as int] != (#[trigger] names[y]),
                decreases m - b,
            {
                if positions[a] == positions[b] {
                    proof {
                        let pa = crate::column::spec_col_position(cols_v, names[a as int]);
                        assert(cols_v[pa].name == names[a as int]) by {
                            crate::column::lemma_find_is_position(cols_v, names[a as int]);
                        }
                        assert(cols_v[pa].name == names[b as int]) by {
                            crate::column::lemma_find_is_position(cols_v, names[b as int]);
                        }
                        assert(names[a as int] == names[b as int]);
                    }
                    return Err(DbError::DuplicateColumn);
                }
                proof {
                    let pa = crate::column::spec_col_position(cols_v, names[a as int]);
                    let pb = crate::column::spec_col_position(cols_v, names[b as int]);
                    assert(cols_v[pa].name == names[a as int]) by {
                        crate::column::lemma_find_is_position(cols_v, names[a as int]);
                    }
                    assert(cols_v[pb].name == names[b as int]) by {
                        crate::column::lemma_find_is_position(cols_v, names[b as int]);
                    }
                }
                b += 1;
            }
            a += 1;
        }
        // Every row must carry one value per named column.
        let nrows: usize = values.len();
        let mut r0: usize = 0;
        while r0 < nrows
            invariant
                0 <= r0 <= nrows,
                forall|k: int| 0 <= k < r0 ==> (#[trigger] rows[k]).len() == m,
            decreases nrows - r0,
        {
            proof {
                assert(rows[r0 as int] == crate::value::json_views(values@[r0 as int]@));
            }
            if values[r0].len() != m {
                return Err(DbError::RowArity);
            }
            r0 += 1;
        }
        // Check every value and stage its stored form, in row-major order.
        let mut staged: Vec<Vec<ColumnValue>> = Vec::new();
        let mut r1: usize = 0;
        while r1 < nrows
            invariant
                0 <= r1 <= nrows,
                staged@.len() == r1,
                forall|k: int|
                    0 <= k < r1 ==> (#[trigger] staged_views(staged@)[k]).len() == m,
                forall|k: int, c2: int|
                    0 <= k < r1 && 0 <= c2 < m ==> coerce_ok(
                        res[c2].ty,
                        rows[k][c2],
                        #[trigger] staged_views(staged@)[k][c2],
                    ),
            decreases nrows - r1,
        {
            let row_len: usize = values[r1].len();
            let mut staged_row: Vec<ColumnValue> = Vec::new();
            let mut c2: usize = 0;
            proof {
                assert(rows[r1 as int] == crate::value::json_views(values@[r1 as int]@));
            }
            while c2 < m
                invariant
                    0 <= c2 <= m,
                    staged_row@.len() == c2,
                    forall|k: int|
                        0 <= k < c2 ==> coerce_ok(
                            res[k].ty,
                            rows[r1 as int][k],
                            (#[trigger] staged_row@[k])@,
                        ),
                decreases m - c2,
            {
                proof {
                    assert(rows[r1 as int][c2 as int] == (values@[r1 as int]@[c2 as int])@);
                    assert(crate::column::col_views(resolved@)[c2 as int] == (
                    resolved@[c2 as int])@);
                }
                match coerce_value(&resolved[c2], &values[r1][c2], arith) {
                    Ok(cv) => {
                        staged_row.push(cv);
                    },
                    Err(e) => {
                        proof {
                            assert(first_rejected(res, rows, r1 as int, c2 as int)) by {
                                assert forall|rr: int, cc: int|
                                    0 <= rr < rows.len() && 0 <= cc < res.len()
                                        && row_major_earlier(rr, cc, r1 as int, c2 as int)
                                    implies spec_coerce_accepts(
                                    res[cc].ty,
                                    #[trigger] rows[rr][cc],
                                ) by {
                                    if rr < r1 as int {
                                        assert(coerce_ok(
                                            res[cc].ty,
                                            rows[rr][cc],
                                            staged_views(staged@)[rr][cc],
                                        ));
                                        lemma_coerce_accepts_of_ok(
                                            res[cc].ty,
                                            rows[rr][cc],
                                            staged_views(staged@)[rr][cc],
                                        );
                                    } else {
                                        assert(coerce_ok(
                                            res[cc].ty,
                                            rows[rr][cc],
                                            (staged_row@[cc])@,
                                        ));
                                        lemma_coerce_accepts_of_ok(
                                            res[cc].ty,
                                            rows[rr][cc],
                                            (staged_row@[cc])@,
                                        );
                                    }
                                }
                            }
                        }
                        return Err(e);
                    },
                }
                c2 += 1;
            }
            let ghost staged_before = staged@;
            staged.push(staged_row);
            proof {
                assert(staged@[r1 as int] == staged_row);
                assert(staged_views(staged@)[r1 as int] == crate::row::value_views(
                    staged_row@,
                ));
                assert(crate::row::value_views(staged_row@).len() == m);
                assert forall|c2: int| 0 <= c2 < m implies #[trigger] staged_views(
                    staged@,
                )[r1 as int][c2] == (staged_row@[c2])@ by {
                    assert(crate::row::value_views(staged_row@)[c2] == (staged_row@[c2])@);
                }
                assert forall|k: int| 0 <= k < r1 implies #[trigger] staged_views(staged@)[k]
                    == staged_views(staged_before)[k] by {
                    assert(staged@[k] == staged_before[k]);
                }
            }
            r1 += 1;
        }
        // The new row-ids must fit in 64 bits.
        let base64: u64 = self.stats.next_index;
        proof {
            assert(base64 == self.index@.len());
        }
        if nrows as u64 > u64::MAX - base64 {
            proof {
                assert forall|rr: int, cc: int|
                    0 <= rr < rows.len() && 0 <= cc < names.len() implies spec_coerce_accepts(
                    res[cc].ty,
                    #[trigger] rows[rr][cc],
                ) by {
                    lemma_coerce_accepts_of_ok(
                        res[cc].ty,
                        rows[rr][cc],
                        staged_views(staged@)[rr][cc],
                    );
                }
            }
            return Err(DbError::Corrupt);
        }
        // Apply: one index entry per row, one column entry per named
        // column and row, counters advanced once per row.
        let ghost sv = staged_views(staged@);
        let ghost old_index = self.index@;
        let ghost old_files = file_views(self.files@);
        let ghost base = self.index@.len() as int;
        let ghost pos = positions@;
        proof {
            assert forall|rr: int, cc: int|
                0 <= rr < rows.len() && 0 <= cc < names.len() implies spec_coerce_accepts(
                res[cc].ty,
                #[trigger] rows[rr][cc],
            ) by {
                lemma_coerce_accepts_of_ok(res[cc].ty, rows[rr][cc], sv[rr][cc]);
            }
        }
        let mut r2: usize = 0;
        while r2 < nrows
            invariant
                0 <= r2 <= nrows,
                nrows == sv.len(),
                self.definition == old(self).definition,
                self.stats.row_count == base + r2,
                self.stats.next_index == base + r2,
                self.index@ == old_index + Seq::new(
                    r2 as nat,
                    |k: int| IndexEntry { index_id: (base + k) as u64, timestamp },
                ),
                self.files@.len() == old_files.len(),
                forall|j: int|
                    0 <= j < old_files.len() ==> (#[trigger] file_views(self.files@)[j]).column
                        == old_files[j].column,
                forall|cc: int|
                    0 <= cc < m ==> (#[trigger] file_views(self.files@)[pos[cc] as int]).entries
                        == old_files[pos[cc] as int].entries + Seq::new(
                        r2 as nat,
                        |k: int| EntryView {
                            index_id: (base + k) as u64,
                            timestamp,
                            value: sv[k][cc],
                        },
                    ),
                forall|j: int|
                    0 <= j < old_files.len() && (forall|cc: int| 0 <= cc < m ==> (#[trigger] pos[cc]) as int != j)
                        ==> (#[trigger] file_views(self.files@)[j]).entries == old_files[j].entries,
            decreases nrows - r2,
        {
            let row_id: u64 = self.stats.next_index;
            self.index.push(IndexEntry { index_id: row_id, timestamp });
            proof {
                assert(self.index@ =~= old_index + Seq::new(
                    (r2 + 1) as nat,
                    |k: int| IndexEntry { index_id: (base + k) as u64, timestamp },
                ));
            }
            let mut c3: usize = 0;
            while c3 < m
                invariant
                    0 <= c3 <= m,
                    r2 < nrows,
                    nrows == sv.len(),
                    self.definition == old(self).definition,
                    self.stats.row_count == base + r2,
                    self.stats.next_index == base + r2,
                    row_id == base + r2,
                    self.index@ == old_index + Seq::new(
                        (r2 + 1) as nat,
                        |k: int| IndexEntry { index_id: (base + k) as u64, timestamp },
                    ),
                    self.files@.len() == old_files.len(),
                    forall|j: int|
                        0 <= j < old_files.len() ==> (#[trigger] file_views(self.files@)[j]).column
                            == old_files[j].column,
                    forall|cc: int|
                        0 <= cc < c3 ==> (#[trigger] file_views(self.files@)[pos[cc] as int]).entries
                            == old_files[pos[cc] as int].entries + Seq::new(
                            (r2 + 1) as nat,
                            |k: int| EntryView {
                                index_id: (base + k) as u64,
                                timestamp,
                                value: sv[k][cc],
                            },
                        ),
                    forall|cc: int|
                        c3 <= cc < m ==> (#[trigger] file_views(self.files@)[pos[cc] as int]).entries
                            == old_files[pos[cc] as int].entries + Seq::new(
                            r2 as nat,
                            |k: int| EntryView {
                                index_id: (base + k) as u64,
                                timestamp,
                                value: sv[k][cc],
                            },
                        ),
                    forall|j: int|
                        0 <= j < old_files.len() && (forall|cc: int| 0 <= cc < m ==> (#[trigger] pos[cc]) as int != j)
                            ==> (#[trigger] file_views(self.files@)[j]).entries == old_files[j].entries,
                decreases m - c3,
            {
                let j: usize = positions[c3];
                let ghost before_files = self.files@;
                self.files[j].entries.push(
                    ColumnEntry {
                        index_id: row_id,
                        timestamp,
                        value: staged[r2][c3].duplicate(),
                    },
                );
                proof {
                    assert(sv[r2 as int] == crate::row::value_views(staged@[r2 as int]@));
                    assert forall|k: int| 0 <= k < old_files.len() && k != j implies #[trigger]
                        file_views(self.files@)[k] == file_views(before_files)[k] by {
                        assert(self.files@[k] == before_files[k]);
                    }
                    assert(file_views(self.files@)[j as int].entries =~= file_views(
                        before_files,
                    )[j as int].entries + seq![
                        EntryView {
                            index_id: (base + r2) as u64,
                            timestamp,
                            value: sv[r2 as int][c3 as int],
                        },
                    ]);
                    assert(file_views(self.files@)[j as int].entries =~= old_files[
                        j as int].entries + Seq::new(
                        (r2 + 1) as nat,
                        |k: int| EntryView {
                            index_id: (base + k) as u64,
                            timestamp,
                            value: sv[k][c3 as int],
                        },
                    ));
                    assert(file_views(self.files@)[j as int].column == file_views(
                        before_files,
                    )[j as int].column) by {
                        assert(self.files@[j as int].column == before_files[j as int].column);
                    }
                    // Other targeted columns are untouched by this push.
                    assert forall|cc: int| 0 <= cc < m && cc != c3 implies pos[cc] as int
                        != j as int by {
                        if pos[cc] as int == j as int {
                            let na = names[cc];
                            let nb = names[c3 as int];
                            crate::column::lemma_find_is_position(cols_v, na);
                            crate::column::lemma_find_is_position(cols_v, nb);
                            assert(na == nb);
                        }
                    }
                }
                c3 += 1;
            }
            self.stats.increment();
            r2 += 1;
        }
        proof {
            // The invariants close back over well-formedness.
            let new_index = self.index@;
            assert(new_index.len() == base + nrows);
            assert forall|k: int| 0 <= k < new_index.len() implies (
            #[trigger] new_index[k]).index_id == k by {
                if k < base {
                    assert(new_index[k] == old_index[k]);
                } else {
                    assert(new_index[k] == IndexEntry {
                        index_id: (base + (k - base)) as u64,
                        timestamp,
                    });
                }
            }
            assert forall|j: int| 0 <= j < self.files@.len() implies wf_column_file(
                #[trigger] file_views(self.files@)[j],
                self.index@,
            ) by {
                let nf = file_views(self.files@)[j];
                let of = old_files[j];
                if exists|cc: int| 0 <= cc < m && (#[trigger] pos[cc]) as int == j {
                    let cc = choose|cc: int| 0 <= cc < m && (#[trigger] pos[cc]) as int == j;
                    let appended = Seq::new(
                        nrows as nat,
                        |k: int| EntryView {
                            index_id: (base + k) as u64,
                            timestamp,
                            value: sv[k][cc],
                        },
                    );
                    assert(nf.entries == of.entries + appended);
                    assert(wf_column_file(of, old_index));
                    assert(nf.column == of.column);
                    assert(res[cc] == cols_v[pos[cc] as int]) by {
                        crate::column::lemma_find_is_position(cols_v, names[cc]);
                    }
                    assert(of.column.ty == res[cc].ty);
                    assert forall|i: int| 0 <= i < nf.entries.len() implies {
                        &&& (#[trigger] nf.entries[i]).index_id < self.index@.len()
                        &&& nf.entries[i].timestamp == self.index@[nf.entries[i].index_id as int].timestamp
                        &&& spec_type_of(nf.entries[i].value) == nf.column.ty
                        &&& !(nf.entries[i].value is Null)
                        &&& 0 < i ==> nf.entries[i - 1].index_id < nf.entries[i].index_id
                    } by {
                        if i < of.entries.len() {
                            assert(nf.entries[i] == of.entries[i]);
                            assert(of.entries[i].index_id < old_index.len());
                            assert(self.index@[of.entries[i].index_id as int] == old_index[
                                of.entries[i].index_id as int]);
                            if 0 < i {
                                assert(nf.entries[i - 1] == of.entries[i - 1]);
                            }
                        } else {
                            let k = i - of.entries.len();
                            assert(nf.entries[i] == appended[k]);
                            assert(self.index@[base + k] == IndexEntry {
                                index_id: (base + k) as u64,
                                timestamp,
                            });
                            lemma_coerce_ok_type(res[cc].ty, rows[k][cc], sv[k][cc]);
                            if 0 < i {
                                if i - 1 < of.entries.len() {
                                    assert(nf.entries[i - 1] == of.entries[i - 1]);
                                    assert(of.entries[i - 1].index_id < old_index.len());
                                } else {
                                    assert(nf.entries[i - 1] == appended[k - 1]);
                                }
                            }
                        }
                    }
                } else {
                    assert(nf.entries == of.entries);
                    assert(wf_column_file(of, old_index));
                    assert forall|i: int| 0 <= i < nf.entries.len() implies (
                    #[trigger] nf.entries[i]).timestamp == self.index@[
                        nf.entries[i].index_id as int].timestamp by {
                        assert(nf.entries[i].index_id < old_index.len());
                        assert(self.index@[nf.entries[i].index_id as int] == old_index[
                            nf.entries[i].index_id as int]);
                    }
                }
            }
            assert(rows.len() == nrows);
            assert(sv.len() == nrows);
            assert(self.index@ =~= old_index + Seq::new(
                rows.len(),
                |k: int| IndexEntry { index_id: (base + k) as u64, timestamp },
            ));
            assert forall|cc: int| 0 <= cc < m implies (#[trigger] file_views(self.files@)[
                crate::column::spec_col_position(cols_v, names[cc])]).entries == old_files[
                crate::column::spec_col_position(cols_v, names[cc])].entries + Seq::new(
                rows.len(),
                |k: int| EntryView { index_id: (base + k) as u64, timestamp, value: sv[k][cc] },
            ) by {
                assert((pos[cc] as int) == crate::column::spec_col_position(cols_v, names[cc]));
                assert(file_views(self.files@)[pos[cc] as int].entries == old_files[
                    pos[cc] as int].entries + Seq::new(
                    nrows as nat,
                    |k: int| EntryView {
                        index_id: (base + k) as u64,
                        timestamp,
                        value: sv[k][cc],
                    },
                ));
                assert(Seq::new(
                    nrows as nat,
                    |k: int| EntryView {
                        index_id: (base + k) as u64,
                        timestamp,
                        value: sv[k][cc],
                    },
                ) =~= Seq::new(
                    rows.len(),
                    |k: int| EntryView {
                        index_id: (base + k) as u64,
                        timestamp,
                        value: sv[k][cc],
                    },
                ));
            }
            assert forall|j: int|
                0 <= j < old_files.len() && (forall|cc: int|
                    0 <= cc < names.len() ==> crate::column::spec_col_position(
                        cols_v,
                        #[trigger] names[cc],
                    ) != j) implies (#[trigger] file_views(self.files@)[j]).entries == old_files[
                j].entries by {
                assert forall|cc: int| 0 <= cc < m implies (#[trigger] pos[cc]) as int != j by {
                    assert(crate::column::spec_col_position(cols_v, names[cc]) != j);
                }
            }
            assert(insert_result(
                cols_v,
                old_index,
                old_files,
                self.index@,
                file_views(self.files@),
                names,
                rows,
                sv,
                timestamp,
            ));
        }
        Ok(())
    }
}

/// An accepted stored value certifies that the column accepts the input.
pub proof fn lemma_coerce_accepts_of_ok(
    ty: ColumnType,
    v: crate::value::JsonView,
    r: ValueView,
)
    requires
        coerce_ok(ty, v, r),
    ensures
        spec_coerce_accepts(ty, v),
{
}


/// Byte-for-byte equality of two slices.
#[verifier::loop_isolation(false)]
fn bytes_eq(a: &[u8], b: &[u8]) -> (r: bool)
    ensures
        r == (a@ == b@),
{
    let n: usize = a.len();
    if n != b.len() {
        return false;
    }
    let mut i: usize = 0;
    while i < n
        invariant
            0 <= i <= n,
            forall|k: int| 0 <= k < i ==> a@[k] == b@[k],
        decreases n - i,
    {
        if a[i] != b[i] {
            return false;
        }
        i += 1;
    }
    proof {
        assert(a@ =~= b@);
    }
    true
}

/// Decodes an index file image: sixteen bytes per entry. The image must
/// be a whole number of entries.
#[verifier::loop_isolation(false)]
pub fn index_from_bytes(bytes: &[u8]) -> (r: Result<Vec<IndexEntry>, DbError>)
    ensures
        r is Ok <==> bytes@.len() % 16 == 0,
        r matches Ok(es) ==> spec_index_bytes(es@) == bytes@ && 16 * es@.len() == bytes@.len(),
        r matches Err(e) ==> e is Corrupt,
{
    let n: usize = bytes.len();
    if n % 16 != 0 {
        return Err(DbError::Corrupt);
    }
    let count: usize = n / 16;
    proof {
        vstd::arithmetic::div_mod::lemma_fundamental_div_mod(n as int, 16);
        assert(n == 16 * count + n % 16);
    }
    let mut out: Vec<IndexEntry> = Vec::new();
    let mut i: usize = 0;
    while i < count
        invariant
            0 <= i <= count,
            n == 16 * count,
            n == bytes@.len(),
            out@.len() == i,
            spec_index_bytes(out@) == bytes@.subrange(0, 16 * i),
        decreases count - i,
    {
        let id_s = vstd::slice::slice_subrange(bytes, 16 * i, 16 * i + 8);
        let ts_s = vstd::slice::slice_subrange(bytes, 16 * i + 8, 16 * i + 16);
        let id = u64_from_le_bytes(id_s);
        let ts = u64_from_le_bytes(ts_s);
        let ghost prev = out@;
        out.push(IndexEntry { index_id: id, timestamp: ts });
        proof {
            lemma_auto_spec_u64_to_from_le_bytes();
            lemma_index_bytes_snoc(out@);
            assert(out@.drop_last() =~= prev);
            assert(spec_u64_to_le_bytes(id) =~= bytes@.subrange(16 * i as int, 16 * i + 8));
            assert(spec_u64_to_le_bytes(ts) =~= bytes@.subrange(16 * i + 8, 16 * i + 16));
            assert(spec_index_entry_bytes(out@.last()) =~= bytes@.subrange(
                16 * i as int,
                16 * (i + 1),
            ));
            assert(spec_index_bytes(out@) =~= bytes@.subrange(0, 16 * (i + 1)));
        }
        i += 1;
    }
    proof {
        assert(bytes@.subrange(0, n as int) =~= bytes@);
    }
    Ok(out)
}

/// Decodes a column file image: sixteen bytes plus the column's payload
/// width per entry. The image must be a whole number of entries and each
/// entry must be the canonical image of its value, so that what was
/// decoded writes back byte-identically.
#[verifier::loop_isolation(false)]
pub fn column_file_from_bytes(column: &Column, bytes: &[u8]) -> (r: Result<
    Vec<ColumnEntry>,
    DbError,
>)
    ensures
        r matches Ok(es) ==> spec_column_file_bytes(entry_views(es@)) == bytes@ && forall|i: int|
            0 <= i < es@.len() ==> spec_type_of((#[trigger] entry_views(es@)[i]).value)
                == column@.ty,
        (bytes@.len() as int) % (16 + column@.ty.spec_size() as int) != 0 ==> r is Err,
        r matches Err(e) ==> e is Corrupt,
{
    let width: usize = 16 + column.ty.size();
    let n: usize = bytes.len();
    if n % width != 0 {
        return Err(DbError::Corrupt);
    }
    let count: usize = n / width;
    proof {
        vstd::arithmetic::div_mod::lemma_fundamental_div_mod(n as int, width as int);
        assert(n == width * count + n % width);
    }
    let mut out: Vec<ColumnEntry> = Vec::new();
    let mut i: usize = 0;
    while i < count
        invariant
            0 <= i <= count,
            width == 16 + column@.ty.spec_size(),
            n == width * count,
            n == bytes@.len(),
            out@.len() == i,
            (width * i) as int <= n,
            spec_column_file_bytes(entry_views(out@)) == bytes@.subrange(0, (width * i) as int),
            forall|k: int|
                0 <= k < i ==> spec_type_of((#[trigger] entry_views(out@)[k]).value) == column@.ty,
        decreases count - i,
    {
        proof {
            assert(width * i + width <= width * count) by (nonlinear_arith)
                requires
                    i < count,
                    width > 0,
                    0 <= i,
            ;
            assert(width * (i + 1) == width * i + width) by (nonlinear_arith);
        }
        let off: usize = width * i;
        let id_s = vstd::slice::slice_subrange(bytes, off, off + 8);
        let ts_s = vstd::slice::slice_subrange(bytes, off + 8, off + 16);
        let payload = vstd::slice::slice_subrange(bytes, off + 16, off + width);
        let id = u64_from_le_bytes(id_s);
        let ts = u64_from_le_bytes(ts_s);
        let value = match decode_value_payload(column.ty, payload) {
            Some(v) => v,
            None => {
                return Err(DbError::Corrupt);
            },
        };
        // Only the canonical image is accepted: what was read must write
        // back byte-identically.
        let reencoded = encode_value_payload(&value);
        if !bytes_eq(reencoded.as_slice(), payload) {
            return Err(DbError::Corrupt);
        }
        let ghost prev = out@;
        out.push(ColumnEntry { index_id: id, timestamp: ts, value });
        proof {
            lemma_auto_spec_u64_to_from_le_bytes();
            lemma_column_file_bytes_snoc(entry_views(out@));
            assert(entry_views(out@).drop_last() =~= entry_views(prev));
            assert(spec_u64_to_le_bytes(id) =~= bytes@.subrange(off as int, off + 8));
            assert(spec_u64_to_le_bytes(ts) =~= bytes@.subrange(off + 8, off + 16));
            assert(spec_column_entry_bytes(entry_views(out@).last()) =~= bytes@.subrange(
                off as int,
                off + width,
            ));
            assert(spec_column_file_bytes(entry_views(out@)) =~= bytes@.subrange(
                0,
                (width * (i + 1)) as int,
            ));
            assert forall|k: int| 0 <= k < i + 1 implies spec_type_of(
                (#[trigger] entry_views(out@)[k]).value,
            ) == column@.ty by {
                if k < i {
                    assert(entry_views(out@)[k] == entry_views(prev)[k]);
                }
            }
        }
        i += 1;
    }
    proof {
        assert(bytes@.subrange(0, n as int) =~= bytes@);
    }
    Ok(out)
}


/// Whether the k-th index entry records row-id k, for every entry.
#[verifier::loop_isolation(false)]
fn validate_index_ids(index: &Vec<IndexEntry>) -> (r: bool)
    ensures
        r <==> (forall|k: int| 0 <= k < index@.len() ==> (#[trigger] index@[k]).index_id == k),
{
    let n: usize = index.len();
    let mut k: usize = 0;
    while k < n
        invariant
            0 <= k <= n,
            forall|x: int| 0 <= x < k ==> (#[trigger] index@[x]).index_id == x,
        decreases n - k,
    {
        if index[k].index_id != k as u64 {
            return false;
        }
        k += 1;
    }
    true
}

/// Whether a decoded column file satisfies the ordering, reference,
/// timestamp and non-null conditions against the index.
#[verifier::loop_isolation(false)]
fn validate_file_entries(entries: &Vec<ColumnEntry>, index: &Vec<IndexEntry>) -> (r: bool)
    ensures
        r <==> {
            &&& forall|x: int|
                0 <= x < entries@.len() ==> (((#[trigger] entry_views(entries@)[x]).index_id)
                    as int) < index@.len()
            &&& forall|x: int|
                0 < x < entries@.len() ==> (entry_views(entries@)[x - 1]).index_id < (
                #[trigger] entry_views(entries@)[x]).index_id
            &&& forall|x: int|
                0 <= x < entries@.len() ==> (#[trigger] entry_views(entries@)[x]).timestamp
                    == index@[entry_views(entries@)[x].index_id as int].timestamp
            &&& forall|x: int|
                0 <= x < entries@.len() ==> !((#[trigger] entry_views(entries@)[x]).value is Null)
        },
{
    let n: usize = index.len();
    let e_len: usize = entries.len();
    let mut i: usize = 0;
    while i < e_len
        invariant
            0 <= i <= e_len,
            forall|x: int|
                0 <= x < i ==> (((#[trigger] entry_views(entries@)[x]).index_id) as int) < n,
            forall|x: int|
                0 < x < i ==> (entry_views(entries@)[x - 1]).index_id < (#[trigger] entry_views(
                    entries@,
                )[x]).index_id,
            forall|x: int|
                0 <= x < i ==> (#[trigger] entry_views(entries@)[x]).timestamp == index@[
                    entry_views(entries@)[x].index_id as int
                ].timestamp,
            forall|x: int|
                0 <= x < i ==> !((#[trigger] entry_views(entries@)[x]).value is Null),
        decreases e_len - i,
    {
        proof {
            assert(entry_views(entries@)[i as int] == entries@[i as int]@);
            if i > 0 {
                assert(entry_views(entries@)[i - 1] == entries@[i - 1]@);
            }
        }
        if entries[i].index_id >= n as u64 {
            return false;
        }
        if i > 0 && entries[i - 1].index_id >= entries[i].index_id {
            return false;
        }
        if entries[i].timestamp != index[entries[i].index_id as usize].timestamp {
            return false;
        }
        let is_null = match &entries[i].value {
            ColumnValue::Null => true,
            _ => false,
        };
        if is_null {
            return false;
        }
        i += 1;
    }
    true
}

impl TableDefinition {
    /// Builds a live table from the on-disk images of the stats file,
    /// the index file, and one column file per column of the definition,
    /// in order. Everything is validated: a table this returns satisfies
    /// the storage invariants, and each image is exactly what the table
    /// writes back.
    #[verifier::loop_isolation(false)]
    #[verifier::rlimit(100)]
    pub fn load(self, stats_bytes: &[u8], index_bytes: &[u8], column_bytes: &Vec<Vec<u8>>) -> (r:
        Result<Table, DbError>)
        ensures
            r matches Ok(t) ==> {
                &&& t.wf()
                &&& t.definition.name@ == self.name@
                &&& t.definition.columns == self.columns
                &&& t.stats == spec_stats_from_bytes(stats_bytes@)
                &&& spec_index_bytes(t.index@) == index_bytes@
                &&& column_bytes@.len() == self.columns@.len()
                &&& forall|j: int|
                    0 <= j < column_bytes@.len() ==> spec_column_file_bytes(
                        (#[trigger] file_views(t.files@)[j]).entries,
                    ) == column_bytes@[j]@
            },
            r matches Err(e) ==> e is Corrupt,
    {
        let stats = TableStats::from_bytes(stats_bytes);
        let index = match index_from_bytes(index_bytes) {
            Ok(es) => es,
            Err(_) => {
                return Err(DbError::Corrupt);
            },
        };
        if stats.row_count != stats.next_index {
            return Err(DbError::Corrupt);
        }
        if stats.row_count != index.len() as u64 {
            return Err(DbError::Corrupt);
        }
        if !validate_index_ids(&index) {
            return Err(DbError::Corrupt);
        }
        if column_bytes.len() != self.columns.len() {
            return Err(DbError::Corrupt);
        }
        let m: usize = self.columns.len();
        let mut files: Vec<ColumnFile> = Vec::new();
        let mut j: usize = 0;
        while j < m
            invariant
                0 <= j <= m,
                stats.row_count == index@.len(),
                forall|x: int| 0 <= x < index@.len() ==> (#[trigger] index@[x]).index_id == x,
                m == self.columns@.len(),
                m == column_bytes@.len(),
                files@.len() == j,
                forall|x: int|
                    0 <= x < j ==> (#[trigger] file_views(files@)[x]).column
                        == crate::column::col_views(self.columns@)[x],
                forall|x: int|
                    0 <= x < j ==> wf_column_file(#[trigger] file_views(files@)[x], index@),
                forall|x: int|
                    0 <= x < j ==> spec_column_file_bytes(
                        (#[trigger] file_views(files@)[x]).entries,
                    ) == column_bytes@[x]@,
            decreases m - j,
        {
            let entries = match column_file_from_bytes(&self.columns[j], column_bytes[j].as_slice())
                {
                Ok(es) => es,
                Err(_) => {
                    return Err(DbError::Corrupt);
                },
            };
            if !validate_file_entries(&entries, &index) {
                return Err(DbError::Corrupt);
            }
            let column = self.columns[j].duplicate();
            let ghost prev = files@;
            files.push(ColumnFile { column, entries });
            proof {
                assert forall|x: int| 0 <= x < j + 1 implies {
                    &&& (#[trigger] file_views(files@)[x]).column == crate::column::col_views(
                        self.columns@,
                    )[x]
                    &&& wf_column_file(file_views(files@)[x], index@)
                    &&& spec_column_file_bytes(file_views(files@)[x].entries) == column_bytes@[x]@
                } by {
                    if x < j {
                        assert(files@[x] == prev[x]);
                        assert(file_views(files@)[x] == file_views(prev)[x]);
                    } else {
                        assert(file_views(files@)[x] == files@[x]@);
                    }
                }
            }
            j += 1;
        }
        let table = Table { definition: self, stats, index, files };
        proof {
            assert(table.wf());
        }
        Ok(table)
    }
}


/// The stored image of an accepted string: for a string whose encoding
/// is NUL-free up to the fixed width, the on-disk payload of the stored
/// value is exactly the string's bytes truncated at the width and
/// NUL-padded. A string with an embedded NUL inside the width stores the
/// canonical image of its NUL-trimmed prefix instead.
pub proof fn lemma_stored_string_image(s: Seq<char>, r: ValueView)
    requires
        coerce_ok(ColumnType::String, crate::value::JsonView::Str(s), r),
        forall|k: int|
            0 <= k < vstd::utf8::encode_utf8(s).len() && k < crate::value::STRING_VALUE_SIZE
                ==> (#[trigger] vstd::utf8::encode_utf8(s)[k]) != 0u8,
    ensures
        spec_encode_payload(r) == crate::codec::spec_string_payload(s),
{
    let payload = crate::codec::spec_string_payload(s);
    let trunc = crate::codec::spec_truncated_bytes(s);
    assert(forall|k: int| 0 <= k < trunc.len() ==> (#[trigger] trunc[k]) != 0u8);
    assert(forall|k: int| 0 <= k < trunc.len() ==> payload[k] == trunc[k]);
    if trunc.len() < crate::value::STRING_VALUE_SIZE {
        assert(payload[trunc.len() as int] == 0u8);
    }
    crate::codec::lemma_until_null_prefix(payload, trunc.len() as int);
    assert(crate::codec::spec_until_null(payload) =~= trunc);
    assert(crate::codec::spec_decode_payload(ColumnType::String, payload) == Some(r));
    assert(vstd::utf8::valid_utf8(trunc));
    assert(r == ValueView::Str(vstd::utf8::decode_utf8(trunc)));
    vstd::utf8::decode_utf8_encode_utf8(trunc);
    assert(vstd::utf8::encode_utf8(vstd::utf8::decode_utf8(trunc)) == trunc);
    assert(crate::codec::spec_truncated_bytes(vstd::utf8::decode_utf8(trunc)) == trunc);
    assert(spec_encode_payload(r) =~= payload);
}

/// The durable-state invariants of a well-formed table, spelled out: the
/// row counter, the next row-id and the number of index entries agree;
/// the index image is sixteen bytes per row; every column file's row-ids
/// strictly increase and each is the row-id of an index entry; a column
/// file's image is a whole number of fixed-width entries; and null is
/// never stored.
pub proof fn lemma_storage_invariants(t: Table)
    requires
        t.wf(),
    ensures
        t.stats.row_count == t.stats.next_index,
        t.stats.row_count == t.index@.len(),
        spec_index_bytes(t.index@).len() == 16 * t.index@.len(),
        forall|j: int, i: int|
            0 <= j < t.files@.len() && 0 < i < file_views(t.files@)[j].entries.len() ==> (
            #[trigger] file_views(t.files@)[j].entries[i]).index_id > file_views(
                t.files@,
            )[j].entries[i - 1].index_id,
        forall|j: int, i: int|
            0 <= j < t.files@.len() && 0 <= i < file_views(t.files@)[j].entries.len() ==> ((
            #[trigger] file_views(t.files@)[j].entries[i]).index_id as int) < t.index@.len()
                && t.index@[file_views(t.files@)[j].entries[i].index_id as int].index_id
                == file_views(t.files@)[j].entries[i].index_id,
        forall|j: int, i: int|
            0 <= j < t.files@.len() && 0 <= i < file_views(t.files@)[j].entries.len() ==> !((
            #[trigger] file_views(t.files@)[j].entries[i]).value is Null),
        forall|j: int|
            0 <= j < t.files@.len() ==> spec_column_file_bytes(
                (#[trigger] file_views(t.files@)[j]).entries,
            ).len() == (16 + file_views(t.files@)[j].column.ty.spec_size()) * file_views(
                t.files@,
            )[j].entries.len(),
{
    lemma_index_bytes_len(t.index@);
    assert forall|j: int| 0 <= j < t.files@.len() implies spec_column_file_bytes(
        (#[trigger] file_views(t.files@)[j]).entries,
    ).len() == (16 + file_views(t.files@)[j].column.ty.spec_size()) * file_views(
        t.files@,
    )[j].entries.len() by {
        lemma_column_file_bytes_len(
            file_views(t.files@)[j].entries,
            file_views(t.files@)[j].column.ty,
        );
    }
}

/// The position of the first table of that name, or `-1`.
pub open spec fn spec_db_find(tables: Seq<Table>, name: Seq<char>) -> int
    decreases tables.len(),
{
    if tables.len() == 0 {
        -1
    } else if tables[0].definition.name@ == name {
        0
    } else {
        let r = spec_db_find(tables.drop_first(), name);
        if r < 0 {
            -1
        } else {
            r + 1
        }
    }
}

pub proof fn lemma_db_find_at(tables: Seq<Table>, name: Seq<char>, i: int)
    requires
        0 <= i <= tables.len(),
        forall|k: int| 0 <= k < i ==> (#[trigger] tables[k]).definition.name@ != name,
        i < tables.len() ==> tables[i].definition.name@ == name,
    ensures
        i < tables.len() ==> spec_db_find(tables, name) == i,
        i == tables.len() ==> spec_db_find(tables, name) == -1,
    decreases i,
{
    if tables.len() == 0 {
    } else if i == 0 {
    } else {
        lemma_db_find_at(tables.drop_first(), name, i - 1);
    }
}

/// The tables one node holds, by name: the in-memory image of the data
/// directory.
pub struct Database {
    pub tables: Vec<Table>,
}

impl Database {
    pub open spec fn wf(self) -> bool {
        forall|i: int| 0 <= i < self.tables@.len() ==> (#[trigger] self.tables@[i]).wf()
    }

    pub fn new() -> (r: Database)
        ensures
            r.tables@.len() == 0,
            r.wf(),
    {
        Database { tables: Vec::new() }
    }

    /// The position of the first table of that name.
    #[verifier::loop_isolation(false)]
    pub fn find_table(&self, name: &str) -> (r: Option<usize>)
        ensures
            match r {
                Some(i) => (i as int) == spec_db_find(self.tables@, name@) && (i as int)
                    < self.tables@.len(),
                None => spec_db_find(self.tables@, name@) == -1,
            },
    {
        let n: usize = self.tables.len();
        let mut i: usize = 0;
        while i < n
            invariant
                0 <= i <= n,
                forall|k: int| 0 <= k < i ==> (#[trigger] self.tables@[k]).definition.name@
                    != name@,
            decreases n - i,
        {
            if crate::value::str_eq(self.tables[i].definition.name.as_str(), name) {
                proof {
                    lemma_db_find_at(self.tables@, name@, i as int);
                }
                return Some(i);
            }
            i += 1;
        }
        proof {
            lemma_db_find_at(self.tables@, name@, n as int);
        }
        None
    }

    /// Creates a table, idempotently. A new name gets an empty table
    /// with the given columns. An existing name keeps everything it has
    /// — creation never truncates — and only columns it does not have
    /// yet are added, as empty files; with the same schema the call
    /// changes nothing at all.
    #[verifier::loop_isolation(false)]
    #[verifier::rlimit(100)]
    pub fn create_table(&mut self, name: String, columns: Vec<Column>) -> (r: Result<(), DbError>)
        requires
            old(self).wf(),
        ensures
            final (self).wf(),
            r is Ok,
            ({
                let i = spec_db_find(old(self).tables@, name@);
                if i < 0 {
                    &&& final (self).tables@.len() == old(self).tables@.len() + 1
                    &&& forall|k: int|
                        0 <= k < old(self).tables@.len() ==> #[trigger] final (self).tables@[k]
                            == old(self).tables@[k]
                    &&& final (self).tables@.last().definition.name@ == name@
                    &&& final (self).tables@.last().definition.columns == columns
                    &&& final (self).tables@.last().stats == (TableStats {
                        row_count: 0u64,
                        next_index: 0u64,
                    })
                    &&& final (self).tables@.last().index@.len() == 0
                    &&& final (self).tables@.last().files@.len() == columns@.len()
                    &&& forall|j: int|
                        0 <= j < columns@.len() ==> (#[trigger] file_views(
                            final (self).tables@.last().files@,
                        )[j]).entries.len() == 0
                } else {
                    &&& final (self).tables@.len() == old(self).tables@.len()
                    &&& forall|k: int|
                        0 <= k < old(self).tables@.len() && k != i ==> #[trigger] final (
                        self).tables@[k] == old(self).tables@[k]
                    &&& final (self).tables@[i].definition.name@ == old(self).tables@[i].definition.name@
                    &&& final (self).tables@[i].stats == old(self).tables@[i].stats
                    &&& final (self).tables@[i].index == old(self).tables@[i].index
                    &&& final (self).tables@[i].files@.len() >= old(self).tables@[i].files@.len()
                    &&& forall|j: int|
                        0 <= j < old(self).tables@[i].files@.len() ==> #[trigger] final (
                        self).tables@[i].files@[j] == old(self).tables@[i].files@[j]
                    &&& forall|j: int|
                        old(self).tables@[i].files@.len() <= j < final (
                        self).tables@[i].files@.len() ==> (#[trigger] file_views(
                            final (self).tables@[i].files@,
                        )[j]).entries.len() == 0
                    &&& ((forall|c: int|
                        0 <= c < columns@.len() ==> crate::column::col_views(
                            old(self).tables@[i].definition.columns@,
                        ).contains((#[trigger] columns@[c])@)) ==> *final (self) == *old(self))
                }
            }),
    {
        let found = self.find_table(name.as_str());
        match found {
            None => {
                let m: usize = columns.len();
                let mut files: Vec<ColumnFile> = Vec::new();
                let mut j: usize = 0;
                while j < m
                    invariant
                        0 <= j <= m,
                        files@.len() == j,
                        forall|x: int|
                            0 <= x < j ==> (#[trigger] file_views(files@)[x]).column
                                == crate::column::col_views(columns@)[x],
                        forall|x: int|
                            0 <= x < j ==> (#[trigger] file_views(files@)[x]).entries.len() == 0,
                    decreases m - j,
                {
                    let ghost prev = files@;
                    files.push(ColumnFile { column: columns[j].duplicate(), entries: Vec::new() });
                    proof {
                        assert forall|x: int| 0 <= x < j + 1 implies {
                            &&& (#[trigger] file_views(files@)[x]).column
                                == crate::column::col_views(columns@)[x]
                            &&& file_views(files@)[x].entries.len() == 0
                        } by {
                            if x < j {
                                assert(files@[x] == prev[x]);
                                assert(file_views(files@)[x] == file_views(prev)[x]);
                            } else {
                                assert(file_views(files@)[x] == files@[x]@);
                            }
                        }
                    }
                    j += 1;
                }
                let table = Table {
                    definition: TableDefinition { name, columns },
                    stats: TableStats { row_count: 0, next_index: 0 },
                    index: Vec::new(),
                    files,
                };
                proof {
                    assert(table.wf());
                }
                self.tables.push(table);
                Ok(())
            },
            Some(i) => {
                let m: usize = columns.len();
                let ghost orig_table = self.tables@[i as int];
                let mut c: usize = 0;
                while c < m
                    invariant
                        0 <= c <= m,
                        (i as int) < self.tables@.len(),
                        self.tables@.len() == old(self).tables@.len(),
                        forall|k: int|
                            0 <= k < old(self).tables@.len() && k != i ==> #[trigger] self.tables@[k]
                                == old(self).tables@[k],
                        self.tables@[i as int].definition.name@ == orig_table.definition.name@,
                        self.tables@[i as int].stats == orig_table.stats,
                        self.tables@[i as int].index == orig_table.index,
                        self.tables@[i as int].files@.len() >= orig_table.files@.len(),
                        self.tables@[i as int].files@.len() == self.tables@[
                            i as int].definition.columns@.len(),
                        forall|j: int|
                            0 <= j < orig_table.files@.len() ==> #[trigger] self.tables@[
                                i as int].files@[j] == orig_table.files@[j],
                        forall|j: int|
                            0 <= j < orig_table.files@.len() ==> #[trigger] self.tables@[
                                i as int].definition.columns@[j] == orig_table.definition.columns@[j],
                        forall|j: int|
                            orig_table.files@.len() <= j < self.tables@[i as int].files@.len()
                                ==> (#[trigger] file_views(
                                self.tables@[i as int].files@,
                            )[j]).entries.len() == 0,
                        self.tables@[i as int].wf(),
                        (forall|x: int|
                            0 <= x < c ==> crate::column::col_views(
                                orig_table.definition.columns@,
                            ).contains((#[trigger] columns@[x])@)) ==> self.tables == old(
                            self,
                        ).tables,
                    decreases m - c,
                {
                    let present = crate::row::contains_column(
                        &self.tables[i].definition.columns,
                        &columns[c],
                    );
                    if !present {
                        proof {
                            if crate::column::col_views(orig_table.definition.columns@).contains(
                                (columns@[c as int])@,
                            ) {
                                let ghost ov = crate::column::col_views(
                                    orig_table.definition.columns@,
                                );
                                let k = choose|k: int|
                                    0 <= k < ov.len() && ov[k] == (columns@[c as int])@;
                                assert(self.tables@[i as int].definition.columns@[k]
                                    == orig_table.definition.columns@[k]);
                                assert(crate::column::col_views(
                                    self.tables@[i as int].definition.columns@,
                                )[k] == (columns@[c as int])@);
                                assert(crate::column::col_views(
                                    self.tables@[i as int].definition.columns@,
                                ).contains((columns@[c as int])@));
                                assert(false);
                            }
                        }
                        let ghost before = self.tables@;
                        let col1 = columns[c].duplicate();
                        let col2 = columns[c].duplicate();
                        self.tables[i].definition.columns.push(col1);
                        self.tables[i].files.push(ColumnFile { column: col2, entries: Vec::new() });
                        proof {
                            assert forall|k: int|
                                0 <= k < old(self).tables@.len() && k != i implies #[trigger]
                                self.tables@[k] == old(self).tables@[k] by {
                                assert(self.tables@[k] == before[k]);
                            }
                            let tt = self.tables@[i as int];
                            assert(tt.files@.len() == tt.definition.columns@.len());
                            assert forall|j: int| 0 <= j < tt.files@.len() implies (
                            #[trigger] file_views(tt.files@)[j]).column == crate::column::col_views(
                                tt.definition.columns@,
                            )[j] && wf_column_file(file_views(tt.files@)[j], tt.index@) by {
                                if j < tt.files@.len() - 1 {
                                    assert(tt.files@[j] == before[i as int].files@[j]);
                                    assert(tt.definition.columns@[j] == before[
                                        i as int].definition.columns@[j]);
                                    assert(file_views(before[i as int].files@)[j].column
                                        == crate::column::col_views(
                                        before[i as int].definition.columns@,
                                    )[j]);
                                    assert(wf_column_file(
                                        file_views(before[i as int].files@)[j],
                                        before[i as int].index@,
                                    ));
                                }
                            }
                            assert(tt.wf());
                            assert forall|j: int|
                                orig_table.files@.len() <= j < tt.files@.len() implies (
                            #[trigger] file_views(tt.files@)[j]).entries.len() == 0 by {
                                if j < tt.files@.len() - 1 {
                                    assert(tt.files@[j] == before[i as int].files@[j]);
                                    assert(file_views(tt.files@)[j] == file_views(
                                        before[i as int].files@,
                                    )[j]);
                                } else {
                                    assert(file_views(tt.files@)[j] == tt.files@[j]@);
                                }
                            }
                        }
                    }
                    c += 1;
                }
                Ok(())
            },
        }
    }
}

} // verus!

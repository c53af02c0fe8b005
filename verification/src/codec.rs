//! Fixed-width byte encoding of column values.
//!
//! Integers and float bit patterns are stored as eight little-endian
//! bytes; strings are stored as exactly [`STRING_VALUE_SIZE`] bytes,
//! NUL-padded when shorter and truncated when longer. Reading a string
//! back takes the bytes before the first NUL and decodes them as UTF-8.

use vstd::prelude::*;
use vstd::bytes::{
    lemma_auto_spec_u64_to_from_le_bytes, spec_u64_from_le_bytes, spec_u64_to_le_bytes,
    u64_from_le_bytes, u64_to_le_bytes,
};
use vstd::utf8::{decode_utf8, encode_utf8, encode_utf8_decode_utf8, encode_utf8_valid_utf8,
    valid_utf8};
use crate::value::{ColumnType, ColumnValue, ValueView, spec_type_of, STRING_VALUE_SIZE};

verus! {

pub open spec fn spec_i64_to_le_bytes(x: i64) -> Seq<u8> {
    spec_u64_to_le_bytes(x as u64)
}

pub open spec fn spec_i64_from_le_bytes(s: Seq<u8>) -> i64 {
    spec_u64_from_le_bytes(s) as i64
}

/// Round trip of the signed little-endian codec.
pub proof fn lemma_i64_le_bytes_round_trip(x: i64)
    ensures
        spec_i64_to_le_bytes(x).len() == 8,
        spec_i64_from_le_bytes(spec_i64_to_le_bytes(x)) == x,
{
    lemma_auto_spec_u64_to_from_le_bytes();
    assert(((x as u64) as i64) == x) by (bit_vector);
}

/// The UTF-8 encoding of `s`, cut off after [`STRING_VALUE_SIZE`] bytes.
pub open spec fn spec_truncated_bytes(s: Seq<char>) -> Seq<u8> {
    let b = encode_utf8(s);
    if b.len() <= STRING_VALUE_SIZE {
        b
    } else {
        b.subrange(0, STRING_VALUE_SIZE as int)
    }
}

/// The on-disk image of a string: its truncated UTF-8 bytes, NUL-padded
/// to exactly [`STRING_VALUE_SIZE`] bytes.
pub open spec fn spec_string_payload(s: Seq<char>) -> Seq<u8> {
    spec_truncated_bytes(s) + Seq::new(
        (STRING_VALUE_SIZE - spec_truncated_bytes(s).len()) as nat,
        |i: int| 0u8,
    )
}

/// The bytes before the first NUL.
pub open spec fn spec_until_null(b: Seq<u8>) -> Seq<u8>
    decreases b.len(),
{
    if b.len() == 0 {
        b
    } else if b[0] == 0u8 {
        Seq::<u8>::empty()
    } else {
        seq![b[0]] + spec_until_null(b.drop_first())
    }
}

/// If the first `i` bytes are NUL-free and byte `i` (when present) is NUL,
/// the prefix before the first NUL is exactly the first `i` bytes.
pub proof fn lemma_until_null_prefix(b: Seq<u8>, i: int)
    requires
        0 <= i <= b.len(),
        forall|k: int| 0 <= k < i ==> b[k] != 0u8,
        i < b.len() ==> b[i] == 0u8,
    ensures
        spec_until_null(b) == b.subrange(0, i),
    decreases i,
{
    if i == 0 {
        if b.len() == 0 {
            assert(b.subrange(0, 0) =~= b);
        } else {
            assert(b.subrange(0, 0) =~= Seq::<u8>::empty());
        }
    } else {
        lemma_until_null_prefix(b.drop_first(), i - 1);
        assert(spec_until_null(b) == seq![b[0]] + b.drop_first().subrange(0, i - 1));
        assert(seq![b[0]] + b.drop_first().subrange(0, i - 1) =~= b.subrange(0, i));
    }
}

/// The bytes of `bytes` before the first NUL.
pub fn until_null_char(bytes: &[u8]) -> (r: Vec<u8>)
    ensures
        r@ == spec_until_null(bytes@),
{
    let n: usize = bytes.len();
    let mut i: usize = 0;
    while i < n && bytes[i] != 0
        invariant
            n == bytes@.len(),
            0 <= i <= n,
            forall|k: int| 0 <= k < i ==> bytes@[k] != 0u8,
        decreases n - i,
    {
        i += 1;
    }
    let mut out: Vec<u8> = Vec::new();
    let mut j: usize = 0;
    while j < i
        invariant
            i <= bytes@.len(),
            0 <= j <= i,
            out@ == bytes@.subrange(0, j as int),
        decreases i - j,
    {
        out.push(bytes[j]);
        assert(out@ =~= bytes@.subrange(0, j + 1));
        j += 1;
    }
    proof {
        lemma_until_null_prefix(bytes@, i as int);
    }
    out
}

/// Relies on `core::str::from_utf8` and `str::to_owned`: the bytes decode
/// to a string exactly when they are valid UTF-8, and then decode to the
/// character sequence that `vstd::utf8::decode_utf8` specifies.
#[verifier::external_body]
fn utf8_to_string(bytes: &[u8]) -> (r: Option<String>)
    ensures
        r is Some <==> valid_utf8(bytes@),
        r matches Some(s) ==> s@ == decode_utf8(bytes@),
{
    match core::str::from_utf8(bytes) {
        Ok(s) => Some(s.to_owned()),
        Err(_) => None,
    }
}

/// The on-disk payload of a value. Null has no payload: null is never
/// stored, absence of a column entry encodes it.
pub open spec fn spec_encode_payload(v: ValueView) -> Seq<u8> {
    match v {
        ValueView::Int(x) => spec_i64_to_le_bytes(x),
        ValueView::Float(b) => spec_u64_to_le_bytes(b),
        ValueView::Str(s) => spec_string_payload(s),
        ValueView::Null => Seq::<u8>::empty(),
    }
}

/// What a payload of width `ty.spec_size()` decodes to; `None` when a
/// string payload holds bytes that are not UTF-8 before the first NUL.
pub open spec fn spec_decode_payload(ty: ColumnType, b: Seq<u8>) -> Option<ValueView>
    recommends
        b.len() == ty.spec_size(),
{
    match ty {
        ColumnType::Integer => Some(ValueView::Int(spec_i64_from_le_bytes(b))),
        ColumnType::Float => Some(ValueView::Float(spec_u64_from_le_bytes(b))),
        ColumnType::String => if valid_utf8(spec_until_null(b)) {
            Some(ValueView::Str(decode_utf8(spec_until_null(b))))
        } else {
            None
        },
        ColumnType::Null => Some(ValueView::Null),
    }
}

pub fn encode_value_payload(v: &ColumnValue) -> (r: Vec<u8>)
    ensures
        r@ == spec_encode_payload(v@),
        r@.len() == spec_type_of(v@).spec_size(),
{
    match v {
        ColumnValue::Integer(x) => {
            let r = u64_to_le_bytes(*x as u64);
            r
        },
        ColumnValue::Float(b) => u64_to_le_bytes(*b),
        ColumnValue::String(s) => encode_string_payload(s.as_str()),
        ColumnValue::Null => Vec::new(),
    }
}

/// The 256-byte NUL-padded, truncated image of a string.
pub fn encode_string_payload(s: &str) -> (r: Vec<u8>)
    ensures
        r@ == spec_string_payload(s@),
        r@.len() == STRING_VALUE_SIZE,
{
    let bytes: Vec<u8> = s.as_bytes_vec();
    let m: usize = bytes.len();
    let mut out: Vec<u8> = Vec::new();
    let mut i: usize = 0;
    while i < STRING_VALUE_SIZE
        invariant
            bytes@ == encode_utf8(s@),
            m == bytes@.len(),
            0 <= i <= STRING_VALUE_SIZE,
            out@.len() == i,
            forall|k: int| 0 <= k < i ==> out@[k] == #[trigger] spec_string_payload(s@)[k],
        decreases STRING_VALUE_SIZE - i,
    {
        if i < m {
            out.push(bytes[i]);
        } else {
            out.push(0u8);
        }
        i += 1;
    }
    proof {
        assert(spec_string_payload(s@).len() == STRING_VALUE_SIZE);
        assert(out@ =~= spec_string_payload(s@));
    }
    out
}

pub fn decode_value_payload(ty: ColumnType, bytes: &[u8]) -> (r: Option<ColumnValue>)
    requires
        bytes@.len() == ty.spec_size(),
    ensures
        r is Some <==> spec_decode_payload(ty, bytes@) is Some,
        r matches Some(v) ==> Some(v@) == spec_decode_payload(ty, bytes@),
{
    match ty {
        ColumnType::Integer => {
            let x = u64_from_le_bytes(bytes);
            Some(ColumnValue::Integer(x as i64))
        },
        ColumnType::Float => Some(ColumnValue::Float(u64_from_le_bytes(bytes))),
        ColumnType::String => {
            let prefix = until_null_char(bytes);
            match utf8_to_string(prefix.as_slice()) {
                Some(s) => Some(ColumnValue::String(s)),
                None => None,
            }
        },
        ColumnType::Null => Some(ColumnValue::Null),
    }
}

/// Decoding of raw on-disk bytes into a value of a column's type.
pub trait FromDisk: Sized {
    fn from_disk(column_type: ColumnType, data: Vec<u8>) -> Self;
}

impl FromDisk for ColumnValue {
    /// Decodes `data` after normalizing it to the type's fixed width
    /// (zero-padding or truncating); a string whose bytes before the
    /// first NUL are not UTF-8 decodes to the empty string.
    fn from_disk(column_type: ColumnType, data: Vec<u8>) -> (r: ColumnValue)
        ensures
            data@.len() == column_type.spec_size() && (spec_decode_payload(column_type, data@)
                matches Some(v)) ==> Some(r@) == spec_decode_payload(column_type, data@),
    {
        let width: usize = column_type.size();
        let mut normalized: Vec<u8> = Vec::new();
        let mut i: usize = 0;
        while i < width
            invariant
                0 <= i <= width,
                normalized@.len() == i,
                forall|k: int| 0 <= k < i ==> normalized@[k] == (if k < data@.len() {
                    data@[k]
                } else {
                    0u8
                }),
            decreases width - i,
        {
            if i < data.len() {
                normalized.push(data[i]);
            } else {
                normalized.push(0u8);
            }
            i += 1;
        }
        proof {
            if data@.len() == column_type.spec_size() {
                assert(normalized@ =~= data@);
            }
        }
        match decode_value_payload(column_type, normalized.as_slice()) {
            Some(v) => v,
            None => ColumnValue::String(String::new()),
        }
    }
}

/// A NUL-free string no longer than the fixed width reads back unchanged:
/// encoding, padding, trimming at the first NUL and decoding return the
/// original character sequence.
pub proof fn lemma_string_payload_round_trip(s: Seq<char>)
    requires
        encode_utf8(s).len() <= STRING_VALUE_SIZE,
        forall|k: int| 0 <= k < encode_utf8(s).len() ==> encode_utf8(s)[k] != 0u8,
    ensures
        spec_decode_payload(ColumnType::String, spec_string_payload(s)) == Some(ValueView::Str(s)),
{
    let b = encode_utf8(s);
    let payload = spec_string_payload(s);
    assert(spec_truncated_bytes(s) == b);
    assert(payload.len() == STRING_VALUE_SIZE);
    assert(forall|k: int| 0 <= k < b.len() ==> payload[k] == b[k]);
    if b.len() < STRING_VALUE_SIZE {
        assert(payload[b.len() as int] == 0u8);
    }
    lemma_until_null_prefix(payload, b.len() as int);
    assert(spec_until_null(payload) =~= b);
    encode_utf8_valid_utf8(s);
    encode_utf8_decode_utf8(s);
}

/// Every storable non-string value reads back exactly; a string reads
/// back as its NUL-trimmed truncation.
pub proof fn lemma_payload_round_trip(v: ValueView)
    requires
        !(v is Str),
        !(v is Null),
    ensures
        spec_decode_payload(spec_type_of(v), spec_encode_payload(v)) == Some(v),
{
    match v {
        ValueView::Int(x) => {
            lemma_i64_le_bytes_round_trip(x);
        },
        ValueView::Float(b) => {
            lemma_auto_spec_u64_to_from_le_bytes();
        },
        _ => {},
    }
}


/// A string whose encoding exceeds the fixed width is stored truncated
/// at exactly that width.
pub proof fn lemma_string_payload_truncates(s: Seq<char>)
    requires
        encode_utf8(s).len() > STRING_VALUE_SIZE,
    ensures
        spec_string_payload(s) == encode_utf8(s).subrange(0, STRING_VALUE_SIZE as int),
        spec_string_payload(s).len() == STRING_VALUE_SIZE,
{
    assert(spec_string_payload(s) =~= encode_utf8(s).subrange(0, STRING_VALUE_SIZE as int));
}

} // verus!

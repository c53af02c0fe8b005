//! Column types and column values.
//!
//! A value is a tagged union of integer, float, string and null. Floats are
//! carried as their IEEE-754 bit patterns (`u64`): equality and hashing of
//! floats are defined bit-wise, and the on-disk format stores exactly the
//! bits, so no part of the storage engine ever needs float arithmetic. The
//! few places that do (summing a float column, finalizing an average) reach
//! the hardware through the [`FloatArith`] backend supplied by the caller.

use vstd::prelude::*;
use vstd::utf8::{decode_utf8, encode_utf8, valid_utf8};

verus! {

/// On-disk payload width of an integer column.
pub const INTEGER_VALUE_SIZE: usize = 8;

/// On-disk payload width of a float column.
pub const FLOAT_VALUE_SIZE: usize = 8;

/// On-disk payload width of a string column: strings are NUL-padded or
/// truncated to this many bytes.
pub const STRING_VALUE_SIZE: usize = 256;

/// On-disk payload width of the null type.
pub const NULL_VALUE_SIZE: usize = 0;

#[derive(Debug, Clone, Copy, PartialEq, Eq, Structural, Hash)]
pub enum ColumnType {
    Integer,
    Float,
    String,
    Null,
}

impl ColumnType {
    /// Fixed on-disk width of this type's payload.
    pub open spec fn spec_size(self) -> usize {
        match self {
            ColumnType::Integer => INTEGER_VALUE_SIZE,
            ColumnType::Float => FLOAT_VALUE_SIZE,
            ColumnType::String => STRING_VALUE_SIZE,
            ColumnType::Null => NULL_VALUE_SIZE,
        }
    }

    pub fn size(&self) -> (n: usize)
        ensures
            n == self.spec_size(),
    {
        match self {
            ColumnType::Integer => INTEGER_VALUE_SIZE,
            ColumnType::Float => FLOAT_VALUE_SIZE,
            ColumnType::String => STRING_VALUE_SIZE,
            ColumnType::Null => NULL_VALUE_SIZE,
        }
    }

    /// The name under which this type appears in column file names.
    pub open spec fn spec_name(self) -> Seq<char> {
        match self {
            ColumnType::Integer => "integer"@,
            ColumnType::Float => "float"@,
            ColumnType::String => "string"@,
            ColumnType::Null => "null"@,
        }
    }

    pub fn name(&self) -> (r: String)
        ensures
            r@ == self.spec_name(),
    {
        match self {
            ColumnType::Integer => String::from_str("integer"),
            ColumnType::Float => String::from_str("float"),
            ColumnType::String => String::from_str("string"),
            ColumnType::Null => String::from_str("null"),
        }
    }

    /// The storable type named `s`, if any. Only the three storable types
    /// have names that parse; anything else is rejected.
    pub open spec fn spec_parse(s: Seq<char>) -> Option<ColumnType> {
        if s == "integer"@ {
            Some(ColumnType::Integer)
        } else if s == "float"@ {
            Some(ColumnType::Float)
        } else if s == "string"@ {
            Some(ColumnType::String)
        } else {
            None
        }
    }

    pub fn parse(s: &str) -> (r: Option<ColumnType>)
        ensures
            r == ColumnType::spec_parse(s@),
    {
        if str_eq(s, "integer") {
            Some(ColumnType::Integer)
        } else if str_eq(s, "float") {
            Some(ColumnType::Float)
        } else if str_eq(s, "string") {
            Some(ColumnType::String)
        } else {
            None
        }
    }
}

/// Executable string-slice equality, specified over the views.
pub fn str_eq(a: &str, b: &str) -> (r: bool)
    ensures
        r == (a@ == b@),
{
    let ao: String = a.to_owned();
    let bo: String = b.to_owned();
    ao == bo
}

/// Mathematical model of a [`ColumnValue`]: strings are character
/// sequences, floats are their bit patterns.
pub enum ValueView {
    Int(i64),
    Float(u64),
    Str(Seq<char>),
    Null,
}

/// The column type a value belongs to.
pub open spec fn spec_type_of(v: ValueView) -> ColumnType {
    match v {
        ValueView::Int(_) => ColumnType::Integer,
        ValueView::Float(_) => ColumnType::Float,
        ValueView::Str(_) => ColumnType::String,
        ValueView::Null => ColumnType::Null,
    }
}

#[derive(Debug, Clone)]
pub enum ColumnValue {
    Integer(i64),
    Float(u64),
    String(String),
    Null,
}

impl View for ColumnValue {
    type V = ValueView;

    open spec fn view(&self) -> ValueView {
        match self {
            ColumnValue::Integer(x) => ValueView::Int(*x),
            ColumnValue::Float(b) => ValueView::Float(*b),
            ColumnValue::String(s) => ValueView::Str(s@),
            ColumnValue::Null => ValueView::Null,
        }
    }
}

impl PartialEq for ColumnValue {
    /// Componentwise equality; floats compare by bit pattern.
    fn eq(&self, other: &Self) -> (r: bool) {
        match (self, other) {
            (ColumnValue::Integer(a), ColumnValue::Integer(b)) => a == b,
            (ColumnValue::Float(a), ColumnValue::Float(b)) => a == b,
            (ColumnValue::String(a), ColumnValue::String(b)) => a.eq(b),
            (ColumnValue::Null, ColumnValue::Null) => true,
            _ => false,
        }
    }
}

impl Eq for ColumnValue {}

impl vstd::std_specs::cmp::PartialEqSpecImpl for ColumnValue {
    open spec fn obeys_eq_spec() -> bool {
        true
    }

    open spec fn eq_spec(&self, other: &Self) -> bool {
        self@ == other@
    }
}

impl ColumnValue {
    pub fn default_integer() -> (r: ColumnValue)
        ensures
            r@ == ValueView::Int(0i64),
    {
        ColumnValue::Integer(0)
    }

    pub fn default_float() -> (r: ColumnValue)
        ensures
            r@ == ValueView::Float(0u64),
    {
        ColumnValue::Float(0)
    }

    pub fn default_string() -> (r: ColumnValue)
        ensures
            r@ == ValueView::Str(Seq::<char>::empty()),
    {
        ColumnValue::String(String::new())
    }

    /// The default value of a column type: zero, zero bits, the empty
    /// string, or null.
    pub open spec fn spec_default_for(ty: ColumnType) -> ValueView {
        match ty {
            ColumnType::Integer => ValueView::Int(0i64),
            ColumnType::Float => ValueView::Float(0u64),
            ColumnType::String => ValueView::Str(Seq::<char>::empty()),
            ColumnType::Null => ValueView::Null,
        }
    }

    pub fn default_for(ty: ColumnType) -> (r: ColumnValue)
        ensures
            r@ == ColumnValue::spec_default_for(ty),
    {
        match ty {
            ColumnType::Integer => ColumnValue::default_integer(),
            ColumnType::Float => ColumnValue::default_float(),
            ColumnType::String => ColumnValue::default_string(),
            ColumnType::Null => ColumnValue::Null,
        }
    }

    /// The column type this value belongs to.
    pub fn column_type(&self) -> (ty: ColumnType)
        ensures
            ty == spec_type_of(self@),
    {
        match self {
            ColumnValue::Integer(_) => ColumnType::Integer,
            ColumnValue::Float(_) => ColumnType::Float,
            ColumnValue::String(_) => ColumnType::String,
            ColumnValue::Null => ColumnType::Null,
        }
    }

    /// A copy whose mathematical value equals this one's.
    pub fn duplicate(&self) -> (r: ColumnValue)
        ensures
            r@ == self@,
    {
        match self {
            ColumnValue::Integer(x) => ColumnValue::Integer(*x),
            ColumnValue::Float(b) => ColumnValue::Float(*b),
            ColumnValue::String(s) => ColumnValue::String(s.clone()),
            ColumnValue::Null => ColumnValue::Null,
        }
    }
}

/// Backend for IEEE-754 double arithmetic over bit patterns. The verified
/// code never performs float arithmetic itself; the process embedding this
/// library supplies an implementation backed by the hardware. Nothing is
/// assumed about the results, so every contract in this crate that involves
/// genuine float arithmetic pins down only the variant of the outcome.
pub trait FloatArith {
    /// Bits of the sum of the doubles encoded by `a` and `b`.
    fn add_bits(&self, a: u64, b: u64) -> u64;

    /// Bits of the quotient of the doubles encoded by `a` and `b`.
    fn div_bits(&self, a: u64, b: u64) -> u64;

    /// Bits of the double nearest to the integer `v`.
    fn int_to_bits(&self, v: i64) -> u64;
}

/// Whether these bits encode a float that compares equal to zero
/// (positive or negative zero).
pub open spec fn float_bits_is_zero(b: u64) -> bool {
    b == 0u64 || b == 0x8000_0000_0000_0000u64
}

/// Whether addition or division of these two values involves genuine
/// float arithmetic.
pub open spec fn float_pair(a: ValueView, b: ValueView) -> bool {
    ||| (a is Float && b is Float)
    ||| (a is Int && b is Float)
    ||| (a is Float && b is Int)
}

/// Sum of two values when no float arithmetic is involved: integers add
/// (wrapping), every other pair is null.
pub open spec fn spec_add(a: ValueView, b: ValueView) -> ValueView
    recommends
        !float_pair(a, b),
{
    match (a, b) {
        (ValueView::Int(x), ValueView::Int(y)) => ValueView::Int(
            vstd::wrapping::i64_specs::wrapping_add(x, y),
        ),
        _ => ValueView::Null,
    }
}

/// What [`ColumnValue::add`] returns: exact on float-free pairs, a float
/// of unspecified bits where float arithmetic is involved.
pub open spec fn add_behavior(a: ValueView, b: ValueView, r: ValueView) -> bool {
    if float_pair(a, b) {
        r is Float
    } else {
        r == spec_add(a, b)
    }
}

/// Truncating signed division, with division by zero mapped to null and
/// the single overflowing case wrapping.
pub open spec fn spec_div_int(x: i64, y: i64) -> ValueView {
    if y == 0 {
        ValueView::Null
    } else {
        match x.checked_div(y) {
            Some(q) => ValueView::Int(q),
            None => ValueView::Int(i64::MIN),
        }
    }
}

/// What [`ColumnValue::div`] returns: exact on float-free pairs; where
/// float arithmetic is involved, null for a zero divisor and a float of
/// unspecified bits otherwise.
pub open spec fn div_behavior(a: ValueView, b: ValueView, r: ValueView) -> bool {
    match (a, b) {
        (ValueView::Int(x), ValueView::Int(y)) => r == spec_div_int(x, y),
        (ValueView::Float(_), ValueView::Float(yb)) => if float_bits_is_zero(yb) {
            r is Null
        } else {
            r is Float
        },
        (ValueView::Int(_), ValueView::Float(yb)) => if float_bits_is_zero(yb) {
            r is Null
        } else {
            r is Float
        },
        (ValueView::Float(_), ValueView::Int(y)) => if y == 0 {
            r is Null
        } else {
            r is Float
        },
        _ => r is Null,
    }
}

impl ColumnValue {
    /// Addition with promotion: integers add, a float on either side
    /// promotes to float arithmetic, any other pair is null.
    pub fn add<A: FloatArith>(self, other: ColumnValue, arith: &A) -> (r: ColumnValue)
        ensures
            add_behavior(self@, other@, r@),
    {
        match (self, other) {
            (ColumnValue::Integer(a), ColumnValue::Integer(b)) => ColumnValue::Integer(
                a.wrapping_add(b),
            ),
            (ColumnValue::Float(a), ColumnValue::Float(b)) => ColumnValue::Float(
                arith.add_bits(a, b),
            ),
            (ColumnValue::Integer(a), ColumnValue::Float(b)) => ColumnValue::Float(
                arith.add_bits(arith.int_to_bits(a), b),
            ),
            (ColumnValue::Float(a), ColumnValue::Integer(b)) => ColumnValue::Float(
                arith.add_bits(a, arith.int_to_bits(b)),
            ),
            _ => ColumnValue::Null,
        }
    }

    /// Division with the same promotion rules; division by zero is null.
    pub fn div<A: FloatArith>(self, other: ColumnValue, arith: &A) -> (r: ColumnValue)
        ensures
            div_behavior(self@, other@, r@),
    {
        match (self, other) {
            (ColumnValue::Integer(a), ColumnValue::Integer(b)) => {
                if b == 0 {
                    ColumnValue::Null
                } else {
                    match a.checked_div(b) {
                        Some(q) => ColumnValue::Integer(q),
                        None => ColumnValue::Integer(i64::MIN),
                    }
                }
            },
            (ColumnValue::Float(a), ColumnValue::Float(b)) => {
                if b == 0 || b == 0x8000_0000_0000_0000u64 {
                    ColumnValue::Null
                } else {
                    ColumnValue::Float(arith.div_bits(a, b))
                }
            },
            (ColumnValue::Integer(a), ColumnValue::Float(b)) => {
                if b == 0 || b == 0x8000_0000_0000_0000u64 {
                    ColumnValue::Null
                } else {
                    ColumnValue::Float(arith.div_bits(arith.int_to_bits(a), b))
                }
            },
            (ColumnValue::Float(a), ColumnValue::Integer(b)) => {
                if b == 0 {
                    ColumnValue::Null
                } else {
                    ColumnValue::Float(arith.div_bits(a, arith.int_to_bits(b)))
                }
            },
            _ => ColumnValue::Null,
        }
    }
}

/// A float backend that maps every operation to zero bits. Adequate
/// wherever no float column takes part in arithmetic; the contracts of
/// this crate never rely on what a backend returns.
pub struct NoFloatArith;

impl FloatArith for NoFloatArith {
    fn add_bits(&self, a: u64, b: u64) -> u64 {
        0
    }

    fn div_bits(&self, a: u64, b: u64) -> u64 {
        0
    }

    fn int_to_bits(&self, v: i64) -> u64 {
        0
    }
}


/// A scalar as the embedding process hands it in from a request body:
/// an integer, a real number (by its double bits), a string, null, or
/// any other shape, which no column accepts.
#[derive(Debug, Clone)]
pub enum JsonValue {
    Int(i64),
    Float(u64),
    Str(String),
    Null,
    Other,
}

/// Mathematical model of a [`JsonValue`].
pub enum JsonView {
    Int(i64),
    Float(u64),
    Str(Seq<char>),
    Null,
    Other,
}

impl View for JsonValue {
    type V = JsonView;

    open spec fn view(&self) -> JsonView {
        match self {
            JsonValue::Int(x) => JsonView::Int(*x),
            JsonValue::Float(b) => JsonView::Float(*b),
            JsonValue::Str(s) => JsonView::Str(s@),
            JsonValue::Null => JsonView::Null,
            JsonValue::Other => JsonView::Other,
        }
    }
}

/// The views of a list of incoming scalars.
pub open spec fn json_views(s: Seq<JsonValue>) -> Seq<JsonView> {
    s.map_values(|v: JsonValue| v@)
}

/// The views of a list of incoming rows.
pub open spec fn json_row_views(s: Seq<Vec<JsonValue>>) -> Seq<Seq<JsonView>> {
    s.map_values(|r: Vec<JsonValue>| json_views(r@))
}

} // verus!

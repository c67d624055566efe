//! Running maxima and minima of column values.

use vstd::prelude::*;

verus! {

/// The types of columns for which bounds are kept, and any other type.
#[derive(Clone, Copy, Debug, PartialEq, Eq, Structural)]
pub enum DataKind {
    Boolean,
    Int32,
    Int64,
    Float32,
    Float64,
    Other,
}

/// A value of a column, or null. A floating point number is held by its bits, as
/// `to_bits` gives them. Of the other types only the null is held.
#[derive(Clone, Copy, Debug, PartialEq, Eq)]
pub enum ScalarValue {
    Boolean(Option<bool>),
    Int32(Option<i32>),
    Int64(Option<i64>),
    Float32(Option<u32>),
    Float64(Option<u64>),
    Other,
}

/// The place of a 32 bit float in the total order of floats, from its bits: the
/// bits themselves without the sign bit; with it, further down the larger they are.
pub open spec fn float_rank(bits: u32) -> int {
    if bits < 0x8000_0000 {
        bits as int
    } else {
        0x7fff_ffff - bits
    }
}

/// The place of a 64 bit float in the total order of floats, from its bits.
pub open spec fn double_rank(bits: u64) -> int {
    if bits < 0x8000_0000_0000_0000 {
        bits as int
    } else {
        0x7fff_ffff_ffff_ffff - bits
    }
}

impl ScalarValue {
    /// The type of the value.
    pub open spec fn spec_kind(self) -> DataKind {
        match self {
            ScalarValue::Boolean(_) => DataKind::Boolean,
            ScalarValue::Int32(_) => DataKind::Int32,
            ScalarValue::Int64(_) => DataKind::Int64,
            ScalarValue::Float32(_) => DataKind::Float32,
            ScalarValue::Float64(_) => DataKind::Float64,
            ScalarValue::Other => DataKind::Other,
        }
    }

    /// The integer by which a value is ordered among those of its type; `None` for
    /// null.
    pub open spec fn rank(self) -> Option<int> {
        match self {
            ScalarValue::Boolean(Some(value)) => Some(if value {
                1int
            } else {
                0int
            }),
            ScalarValue::Int32(Some(value)) => Some(value as int),
            ScalarValue::Int64(Some(value)) => Some(value as int),
            ScalarValue::Float32(Some(bits)) => Some(float_rank(bits)),
            ScalarValue::Float64(Some(bits)) => Some(double_rank(bits)),
            _ => None,
        }
    }

    /// The null of a type.
    pub open spec fn spec_null(kind: DataKind) -> ScalarValue {
        match kind {
            DataKind::Boolean => ScalarValue::Boolean(None),
            DataKind::Int32 => ScalarValue::Int32(None),
            DataKind::Int64 => ScalarValue::Int64(None),
            DataKind::Float32 => ScalarValue::Float32(None),
            DataKind::Float64 => ScalarValue::Float64(None),
            DataKind::Other => ScalarValue::Other,
        }
    }

    /// Returns the type of the value.
    pub fn kind(&self) -> (kind: DataKind)
        ensures
            kind == self.spec_kind(),
    {
        match self {
            ScalarValue::Boolean(_) => DataKind::Boolean,
            ScalarValue::Int32(_) => DataKind::Int32,
            ScalarValue::Int64(_) => DataKind::Int64,
            ScalarValue::Float32(_) => DataKind::Float32,
            ScalarValue::Float64(_) => DataKind::Float64,
            ScalarValue::Other => DataKind::Other,
        }
    }

    /// Returns the null of a type.
    pub fn null(kind: DataKind) -> (value: ScalarValue)
        ensures
            value == Self::spec_null(kind),
    {
        match kind {
            DataKind::Boolean => ScalarValue::Boolean(None),
            DataKind::Int32 => ScalarValue::Int32(None),
            DataKind::Int64 => ScalarValue::Int64(None),
            DataKind::Float32 => ScalarValue::Float32(None),
            DataKind::Float64 => ScalarValue::Float64(None),
            DataKind::Other => ScalarValue::Other,
        }
    }
}

/// Whether the float with bits `a` stands before that with bits `b`.
fn float_precedes(a: u32, b: u32) -> (before: bool)
    ensures
        before == (float_rank(a) < float_rank(b)),
{
    if a < 0x8000_0000 {
        b < 0x8000_0000 && a < b
    } else {
        b < 0x8000_0000 || b < a
    }
}

/// Whether the double with bits `a` stands before that with bits `b`.
fn double_precedes(a: u64, b: u64) -> (before: bool)
    ensures
        before == (double_rank(a) < double_rank(b)),
{
    if a < 0x8000_0000_0000_0000 {
        b < 0x8000_0000_0000_0000 && a < b
    } else {
        b < 0x8000_0000_0000_0000 || b < a
    }
}

/// Whether `a` and `b` are values of one type, neither of them null, and `a` is
/// smaller.
pub open spec fn is_below(a: ScalarValue, b: ScalarValue) -> bool {
    a.spec_kind() == b.spec_kind() && a.rank() is Some && b.rank() is Some && a.rank()->0 < b.rank()->0
}

/// Tests whether `a` and `b` are values of one type and `a` is smaller.
pub fn precedes(a: &ScalarValue, b: &ScalarValue) -> (before: bool)
    ensures
        before == is_below(*a, *b),
{
    match (a, b) {
        (ScalarValue::Boolean(Some(x)), ScalarValue::Boolean(Some(y))) => !*x && *y,
        (ScalarValue::Int32(Some(x)), ScalarValue::Int32(Some(y))) => *x < *y,
        (ScalarValue::Int64(Some(x)), ScalarValue::Int64(Some(y))) => *x < *y,
        (ScalarValue::Float32(Some(x)), ScalarValue::Float32(Some(y))) => float_precedes(*x, *y),
        (ScalarValue::Float64(Some(x)), ScalarValue::Float64(Some(y))) => double_precedes(*x, *y),
        _ => false,
    }
}

/// The larger of two values of one type; null is smaller than every value.
pub open spec fn larger(a: ScalarValue, b: ScalarValue) -> ScalarValue {
    if a.rank() is None || is_below(a, b) {
        b
    } else {
        a
    }
}

/// The smaller of two values of one type; null is larger than every value.
pub open spec fn smaller(a: ScalarValue, b: ScalarValue) -> ScalarValue {
    if a.rank() is None || is_below(b, a) {
        b
    } else {
        a
    }
}

/// A value was handed to an accumulator of another type.
#[derive(Clone, Copy, Debug, PartialEq, Eq, Structural)]
pub struct IncompatibleType;

/// Keeps the largest of the values it was given.
#[derive(Clone, Copy, Debug, PartialEq, Eq)]
pub struct MaxAccumulator {
    pub max: ScalarValue,
}

/// Keeps the smallest of the values it was given.
#[derive(Clone, Copy, Debug, PartialEq, Eq)]
pub struct MinAccumulator {
    pub min: ScalarValue,
}

/// Whether a value is null.
fn is_null(value: &ScalarValue) -> (null: bool)
    ensures
        null == (value.rank() is None),
{
    match value {
        ScalarValue::Boolean(None) => true,
        ScalarValue::Int32(None) => true,
        ScalarValue::Int64(None) => true,
        ScalarValue::Float32(None) => true,
        ScalarValue::Float64(None) => true,
        ScalarValue::Other => true,
        _ => false,
    }
}

impl MaxAccumulator {
    /// Starts with the null of a type.
    pub fn new(kind: DataKind) -> (accumulator: MaxAccumulator)
        ensures
            accumulator.max == ScalarValue::spec_null(kind),
    {
        MaxAccumulator { max: ScalarValue::null(kind) }
    }

    /// Takes a value, which must be of the accumulator's type.
    pub fn update(&mut self, value: ScalarValue) -> (outcome: Result<(), IncompatibleType>)
        ensures
            outcome is Ok <==> value.spec_kind() == old(self).max.spec_kind(),
            outcome is Ok ==> final(self).max == larger(old(self).max, value),
            outcome is Err ==> *final(self) == *old(self),
    {
        if value.kind() != self.max.kind() {
            return Err(IncompatibleType);
        }
        if is_null(&self.max) || precedes(&self.max, &value) {
            self.max = value;
        }
        Ok(())
    }

    /// Returns the largest value so far, or null.
    pub fn evaluate(&self) -> (max: ScalarValue)
        ensures
            max == self.max,
    {
        self.max
    }
}

impl MinAccumulator {
    /// Starts with the null of a type.
    pub fn new(kind: DataKind) -> (accumulator: MinAccumulator)
        ensures
            accumulator.min == ScalarValue::spec_null(kind),
    {
        MinAccumulator { min: ScalarValue::null(kind) }
    }

    /// Takes a value, which must be of the accumulator's type.
    pub fn update(&mut self, value: ScalarValue) -> (outcome: Result<(), IncompatibleType>)
        ensures
            outcome is Ok <==> value.spec_kind() == old(self).min.spec_kind(),
            outcome is Ok ==> final(self).min == smaller(old(self).min, value),
            outcome is Err ==> *final(self) == *old(self),
    {
        if value.kind() != self.min.kind() {
            return Err(IncompatibleType);
        }
        if is_null(&self.min) || precedes(&value, &self.min) {
            self.min = value;
        }
        Ok(())
    }

    /// Returns the smallest value so far, or null.
    pub fn evaluate(&self) -> (min: ScalarValue)
        ensures
            min == self.min,
    {
        self.min
    }
}

/// Two values of one type that stand at the same place are the same value.
pub proof fn law_rank_identifies(a: ScalarValue, b: ScalarValue)
    requires
        a.spec_kind() == b.spec_kind(),
        a.rank() == b.rank(),
    ensures
        a == b,
{
}

/// The larger of two values of one type is one of them and below neither, and the
/// smaller likewise is above neither. The order in which the two come makes no
/// difference.
pub proof fn law_larger_smaller(a: ScalarValue, b: ScalarValue)
    requires
        a.spec_kind() == b.spec_kind(),
    ensures
        larger(a, b) == a || larger(a, b) == b,
        !is_below(larger(a, b), a) && !is_below(larger(a, b), b),
        larger(a, b) == larger(b, a),
        smaller(a, b) == a || smaller(a, b) == b,
        !is_below(a, smaller(a, b)) && !is_below(b, smaller(a, b)),
        smaller(a, b) == smaller(b, a),
{
    if a.rank() == b.rank() {
        law_rank_identifies(a, b);
    }
}

/// The order of values: false before true, integers as numbers, and floats by the total
/// order of their bits, where the sign bit comes first and the order of the rest is
/// turned round under it.
pub proof fn law_order_of_values(
    p: bool,
    q: bool,
    i: i32,
    j: i32,
    k: i64,
    l: i64,
    a: u32,
    b: u32,
    c: u64,
    d: u64,
)
    ensures
        is_below(ScalarValue::Boolean(Some(p)), ScalarValue::Boolean(Some(q))) <==> !p && q,
        is_below(ScalarValue::Int32(Some(i)), ScalarValue::Int32(Some(j))) <==> i < j,
        is_below(ScalarValue::Int64(Some(k)), ScalarValue::Int64(Some(l))) <==> k < l,
        is_below(ScalarValue::Float32(Some(a)), ScalarValue::Float32(Some(b))) <==> {
            let negative_a = a >= 0x8000_0000;
            let negative_b = b >= 0x8000_0000;
            if negative_a == negative_b {
                if negative_a {
                    b < a
                } else {
                    a < b
                }
            } else {
                negative_a
            }
        },
        is_below(ScalarValue::Float64(Some(c)), ScalarValue::Float64(Some(d))) <==> {
            let negative_c = c >= 0x8000_0000_0000_0000;
            let negative_d = d >= 0x8000_0000_0000_0000;
            if negative_c == negative_d {
                if negative_c {
                    d < c
                } else {
                    c < d
                }
            } else {
                negative_c
            }
        },
{
}

/// The null of a type is of that type and no value, and each type but `Other` has one
/// that differs from all values. Values of two types are never in order.
pub proof fn law_nulls_of_types(kind: DataKind, a: ScalarValue, b: ScalarValue)
    ensures
        ScalarValue::spec_null(DataKind::Boolean) == ScalarValue::Boolean(None),
        ScalarValue::spec_null(DataKind::Int32) == ScalarValue::Int32(None),
        ScalarValue::spec_null(DataKind::Int64) == ScalarValue::Int64(None),
        ScalarValue::spec_null(DataKind::Float32) == ScalarValue::Float32(None),
        ScalarValue::spec_null(DataKind::Float64) == ScalarValue::Float64(None),
        ScalarValue::spec_null(DataKind::Other) == ScalarValue::Other,
        ScalarValue::spec_null(kind).spec_kind() == kind,
        !is_below(ScalarValue::spec_null(kind), a),
        !is_below(a, ScalarValue::spec_null(kind)),
        a.spec_kind() != b.spec_kind() ==> !is_below(a, b),
        larger(ScalarValue::spec_null(kind), a) == a,
        smaller(ScalarValue::spec_null(kind), a) == a,
        a != ScalarValue::spec_null(a.spec_kind()) ==> {
            &&& larger(a, ScalarValue::spec_null(kind)) == a
            &&& smaller(a, ScalarValue::spec_null(kind)) == a
        },
{
}

} // verus!

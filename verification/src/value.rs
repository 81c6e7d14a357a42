//! Field values, and the pieces of a report that shows them.

use vstd::prelude::*;
use vstd::string::*;

use crate::stats_utils::Spread;
use crate::text;

verus! {

/// The value of a field. A floating-point number is held as its IEEE 754 bits.
#[derive(Debug)]
pub enum InfluxValue {
    I64(i64),
    U64(u64),
    F64(u64),
    String(String),
    Boolean(bool),
}

/// The model of an [`InfluxValue`].
pub enum ValueView {
    I64(i64),
    U64(u64),
    F64(u64),
    String(Seq<char>),
    Boolean(bool),
}

/// The bits are those of a NaN: all exponent bits set, and the fraction not zero.
pub open spec fn is_nan(bits: u64) -> bool {
    bits & 0x7fff_ffff_ffff_ffff > 0x7ff0_0000_0000_0000
}

/// The bits are those of positive or negative zero.
pub open spec fn is_zero(bits: u64) -> bool {
    bits & 0x7fff_ffff_ffff_ffff == 0
}

/// The two numbers are equal as floating-point numbers: a NaN equals nothing, and the two zeros
/// equal each other.
pub open spec fn same_float(a: u64, b: u64) -> bool {
    !is_nan(a) && !is_nan(b) && (a == b || is_zero(a) && is_zero(b))
}

impl ValueView {
    /// The two values are of one kind and equal.
    pub open spec fn same(self, other: ValueView) -> bool {
        match (self, other) {
            (ValueView::F64(a), ValueView::F64(b)) => same_float(a, b),
            _ => self == other,
        }
    }
}

impl View for InfluxValue {
    type V = ValueView;

    open spec fn view(&self) -> ValueView {
        match self {
            InfluxValue::I64(v) => ValueView::I64(*v),
            InfluxValue::U64(v) => ValueView::U64(*v),
            InfluxValue::F64(v) => ValueView::F64(*v),
            InfluxValue::String(v) => ValueView::String(v@),
            InfluxValue::Boolean(v) => ValueView::Boolean(*v),
        }
    }
}

impl PartialEq for InfluxValue {
    fn eq(&self, other: &Self) -> (r: bool) {
        match (self, other) {
            (InfluxValue::I64(a), InfluxValue::I64(b)) => *a == *b,
            (InfluxValue::U64(a), InfluxValue::U64(b)) => *a == *b,
            (InfluxValue::F64(a), InfluxValue::F64(b)) => {
                let magnitude_a: u64 = *a & 0x7fff_ffff_ffff_ffff;
                let magnitude_b: u64 = *b & 0x7fff_ffff_ffff_ffff;
                if magnitude_a > 0x7ff0_0000_0000_0000 || magnitude_b > 0x7ff0_0000_0000_0000 {
                    false
                } else {
                    *a == *b || magnitude_a == 0 && magnitude_b == 0
                }
            },
            (InfluxValue::String(a), InfluxValue::String(b)) => *a == *b,
            (InfluxValue::Boolean(a), InfluxValue::Boolean(b)) => *a == *b,
            _ => false,
        }
    }
}

impl vstd::std_specs::cmp::PartialEqSpecImpl for InfluxValue {
    open spec fn obeys_eq_spec() -> bool {
        true
    }

    open spec fn eq_spec(&self, other: &Self) -> bool {
        self@.same(other@)
    }
}

impl Clone for InfluxValue {
    fn clone(&self) -> (r: Self)
        ensures
            r@ == self@,
    {
        match self {
            InfluxValue::I64(v) => InfluxValue::I64(*v),
            InfluxValue::U64(v) => InfluxValue::U64(*v),
            InfluxValue::F64(v) => InfluxValue::F64(*v),
            InfluxValue::String(v) => InfluxValue::String(v.clone()),
            InfluxValue::Boolean(v) => InfluxValue::Boolean(*v),
        }
    }
}

// ---------------------------------------------------------------- reports

/// A piece of a report. Floating-point numbers are left to whoever prints it.
#[derive(Debug)]
pub enum Piece {
    /// Text as it stands.
    Text(String),
    /// The floating-point number with these bits.
    Float(u64),
    /// The square root of a spread, with two decimals; -1 where it is undefined.
    Deviation(Spread),
}

/// The model of a [`Piece`].
pub enum PieceView {
    Text(Seq<char>),
    Float(u64),
    Deviation(Spread),
}

impl View for Piece {
    type V = PieceView;

    open spec fn view(&self) -> PieceView {
        match self {
            Piece::Text(t) => PieceView::Text(t@),
            Piece::Float(b) => PieceView::Float(*b),
            Piece::Deviation(s) => PieceView::Deviation(*s),
        }
    }
}

/// The models of the pieces of a report.
pub open spec fn pieces(report: Seq<Piece>) -> Seq<PieceView> {
    report.map_values(|p: Piece| p@)
}

impl ValueView {
    /// How a report shows the value.
    pub open spec fn shown(self) -> PieceView {
        match self {
            ValueView::I64(v) => PieceView::Text(text::decimal(v as int)),
            ValueView::U64(v) => PieceView::Text(text::decimal(v as int)),
            ValueView::F64(bits) => PieceView::Float(bits),
            ValueView::String(t) => PieceView::Text(t),
            ValueView::Boolean(b) => PieceView::Text(
                if b {
                    "true"@
                } else {
                    "false"@
                },
            ),
        }
    }
}

impl InfluxValue {
    /// How a report shows the value.
    pub fn shown(&self) -> (r: Piece)
        ensures
            r@ == self@.shown(),
    {
        match self {
            InfluxValue::I64(v) => Piece::Text(text::decimal_text(*v as i128)),
            InfluxValue::U64(v) => Piece::Text(text::decimal_text(*v as i128)),
            InfluxValue::F64(bits) => Piece::Float(*bits),
            InfluxValue::String(t) => Piece::Text(t.clone()),
            InfluxValue::Boolean(b) => Piece::Text(
                if *b {
                    "true".to_owned()
                } else {
                    "false".to_owned()
                },
            ),
        }
    }
}

} // verus!

//! What it means for two values to be alike.

use vstd::prelude::*;

use crate::value::{InfluxValue, ValueView};
use vstd::std_specs::cmp::PartialEqSpec;

verus! {

/// The bits hold an exponent of ones and a fraction that is not zero.
pub open spec fn no_number(bits: u64) -> bool {
    (bits >> 52) & 0x7ff == 0x7ff && bits << 12 != 0
}

/// Both are numbers, and either the bits agree or all bits but the sign are zero.
pub open spec fn equal_numbers(a: u64, b: u64) -> bool {
    !no_number(a) && !no_number(b) && (a == b || (a << 1 == 0 && b << 1 == 0))
}

/// The two values are of one kind and equal; floating-point numbers as such.
pub open spec fn alike(a: ValueView, b: ValueView) -> bool {
    match a {
        ValueView::I64(x) => b == ValueView::I64(x),
        ValueView::U64(x) => b == ValueView::U64(x),
        ValueView::F64(x) => b is F64 && equal_numbers(x, b->F64_0),
        ValueView::String(x) => b == ValueView::String(x),
        ValueView::Boolean(x) => b == ValueView::Boolean(x),
    }
}

/// Values are the same exactly where they are alike.
pub proof fn law_alike(a: ValueView, b: ValueView)
    ensures
        a.same(b) <==> alike(a, b),
{
    if a is F64 && b is F64 {
        let x = a->F64_0;
        let y = b->F64_0;
        assert((x & 0x7fff_ffff_ffff_ffff > 0x7ff0_0000_0000_0000) <==> ((x >> 52) & 0x7ff == 0x7ff
            && x << 12 != 0)) by (bit_vector);
        assert((y & 0x7fff_ffff_ffff_ffff > 0x7ff0_0000_0000_0000) <==> ((y >> 52) & 0x7ff == 0x7ff
            && y << 12 != 0)) by (bit_vector);
        assert((x & 0x7fff_ffff_ffff_ffff == 0) <==> (x << 1 == 0)) by (bit_vector);
        assert((y & 0x7fff_ffff_ffff_ffff == 0) <==> (y << 1 == 0)) by (bit_vector);
    }
}

/// `==` on values tells whether they are alike.
pub proof fn law_equality(a: InfluxValue, b: InfluxValue)
    ensures
        a.eq_spec(&b) <==> alike(a@, b@),
{
    law_alike(a@, b@);
}

/// A clone is the value that was cloned.
pub proof fn law_clone(a: &InfluxValue, r: InfluxValue)
    requires
        call_ensures(InfluxValue::clone, (a,), r),
    ensures
        match *a {
            InfluxValue::I64(x) => r == InfluxValue::I64(x),
            InfluxValue::U64(x) => r == InfluxValue::U64(x),
            InfluxValue::F64(x) => r == InfluxValue::F64(x),
            InfluxValue::String(x) => r is String && r->String_0@ == x@,
            InfluxValue::Boolean(x) => r == InfluxValue::Boolean(x),
        },
{
    match *a {
        InfluxValue::I64(x) => {
            assert(r@ == ValueView::I64(x));
        },
        InfluxValue::U64(x) => {
            assert(r@ == ValueView::U64(x));
        },
        InfluxValue::F64(x) => {
            assert(r@ == ValueView::F64(x));
        },
        InfluxValue::String(x) => {
            assert(r@ == ValueView::String(x@));
        },
        InfluxValue::Boolean(x) => {
            assert(r@ == ValueView::Boolean(x));
        },
    }
}

} // verus!

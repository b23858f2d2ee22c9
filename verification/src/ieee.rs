//! Comparing 32-bit floating-point values by their bit patterns.

use vstd::prelude::*;

verus! {

/// The bits behind the sign.
pub open spec fn magnitude(bits: u32) -> int {
    bits as int % 0x8000_0000
}

pub open spec fn is_nan(bits: u32) -> bool {
    magnitude(bits) > 0x7f80_0000
}

/// A number that orders all values that are not NaN as the values themselves
/// are ordered; both zeros have 0.
pub open spec fn order_key(bits: u32) -> int {
    if bits >= 0x8000_0000 {
        -magnitude(bits)
    } else {
        magnitude(bits)
    }
}

/// `a < b`: false where either is NaN.
pub open spec fn less(a: u32, b: u32) -> bool {
    !is_nan(a) && !is_nan(b) && order_key(a) < order_key(b)
}

/// `a <= b`: false where either is NaN.
pub open spec fn at_most(a: u32, b: u32) -> bool {
    !is_nan(a) && !is_nan(b) && order_key(a) <= order_key(b)
}

fn key(bits: u32) -> (k: i64)
    ensures
        k == order_key(bits),
{
    if bits >= 0x8000_0000 {
        -((bits - 0x8000_0000) as i64)
    } else {
        bits as i64
    }
}

/// Whether the value is NaN.
pub fn check_nan(bits: u32) -> (nan: bool)
    ensures
        nan == is_nan(bits),
        nan <==> 0x7f80_0000 < bits < 0x8000_0000 || 0xff80_0000 < bits,
{
    bits % 0x8000_0000 > 0x7f80_0000
}

/// `a < b`.
pub fn lt(a: u32, b: u32) -> (out: bool)
    ensures
        out == less(a, b),
        out ==> !is_nan(a) && !is_nan(b),
        !is_nan(a) && !is_nan(b) ==> (out <==> if b < 0x8000_0000 {
            // Below a number without sign lie the smaller ones, and all with
            // a sign but the two zeros, which are equal.
            a < b || a >= 0x8000_0000 && !(a == 0x8000_0000 && b == 0)
        } else {
            a > b
        }),
{
    !check_nan(a) && !check_nan(b) && key(a) < key(b)
}

/// `a <= b`.
pub fn le(a: u32, b: u32) -> (out: bool)
    ensures
        out == at_most(a, b),
        out ==> !is_nan(a) && !is_nan(b),
        !is_nan(a) && !is_nan(b) ==> (out <==> !less(b, a)),
{
    !check_nan(a) && !check_nan(b) && key(a) <= key(b)
}

/// The order is that of the values: among values without a sign it is that of
/// the patterns, among values with a sign the reverse, values with a sign lie
/// below those without, and only the two zeros are different patterns that
/// compare equal.
pub proof fn order_is_that_of_values(a: u32, b: u32)
    ensures
        is_nan(a) <==> 0x7f80_0000 < a < 0x8000_0000 || 0xff80_0000 < a,
        a < 0x8000_0000 && b < 0x8000_0000 ==> (order_key(a) < order_key(b) <==> a < b),
        a >= 0x8000_0000 && b >= 0x8000_0000 ==> (order_key(a) < order_key(b) <==> a > b),
        a >= 0x8000_0000 && b < 0x8000_0000 ==> order_key(a) <= order_key(b),
        order_key(a) == order_key(b) <==> a == b || (a == 0 || a == 0x8000_0000) && (b == 0 || b
            == 0x8000_0000),
        less(a, b) <==> !is_nan(a) && !is_nan(b) && order_key(a) < order_key(b),
        at_most(a, b) <==> !is_nan(a) && !is_nan(b) && order_key(a) <= order_key(b),
{
}

/// Of two numbers exactly one of these holds: the first is below, it is above,
/// or they are equal; NaN stands in no order to anything.
pub proof fn numbers_are_totally_ordered(a: u32, b: u32, c: u32)
    ensures
        !is_nan(a) && !is_nan(b) ==> (at_most(a, b) <==> !less(b, a)),
        !is_nan(a) && !is_nan(b) ==> at_most(a, b) || at_most(b, a),
        is_nan(a) || is_nan(b) ==> !less(a, b) && !at_most(a, b),
        less(a, b) && less(b, c) ==> less(a, c),
        less(a, b) ==> at_most(a, b) && !less(b, a),
{
}

} // verus!

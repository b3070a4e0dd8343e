//! Small predicates and defaults used when deciding which fields of a value
//! are written out.

use vstd::prelude::*;
use crate::meta_type::MetaType;

verus! {

/// Whether `num` is one.
pub fn is_one(num: &i32) -> (r: bool)
    ensures
        r == (*num == 1),
{
    *num == 1
}

/// One.
pub fn one() -> (r: i32)
    ensures
        r == 1,
{
    1
}

/// Whether `num` is one.
pub fn is_one_u32(num: &u32) -> (r: bool)
    ensures
        r == (*num == 1),
{
    *num == 1
}

/// One.
pub fn one_u32() -> (r: u32)
    ensures
        r == 1,
{
    1
}

/// Whether `num` is zero.
pub fn is_zero(num: &i32) -> (r: bool)
    ensures
        r == (*num == 0),
{
    *num == 0
}

/// Whether `val` is false.
pub fn is_false(val: &bool) -> (r: bool)
    ensures
        r == !*val,
{
    !*val
}

/// Whether `meta` is the type that a `Meta` has when none is given.
pub fn is_default_meta(meta: &MetaType) -> (r: bool)
    ensures
        r == (*meta == MetaType::Business),
{
    *meta == MetaType::Business
}

} // verus!

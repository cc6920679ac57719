//! When two values are equal.
//!
//! Values are compared by what they hold, and paths by what they name: two
//! spellings of one path are the same value.

use crate::ast::{NixFloat, NixValue, ValueView};
use crate::path::{paths_are_same, same_path};
use vstd::prelude::*;
use vstd::std_specs::cmp::PartialEqSpecImpl;

verus! {

/// Equality of values: of paths as paths, of all others as they are written.
pub open spec fn same_value(a: ValueView, b: ValueView) -> bool {
    match (a, b) {
        (ValueView::Path(p), ValueView::Path(q)) => same_path(p, q),
        _ => a == b,
    }
}

/// Whether two floats record the same computation.
pub fn floats_are_same(a: &NixFloat, b: &NixFloat) -> (r: bool)
    ensures
        r == (a@ == b@),
    decreases a,
{
    match (a, b) {
        (NixFloat::Literal(x), NixFloat::Literal(y)) => *x == *y,
        (NixFloat::FromInt(x), NixFloat::FromInt(y)) => *x == *y,
        (NixFloat::Neg(x), NixFloat::Neg(y)) => floats_are_same(x, y),
        (NixFloat::Add(x1, x2), NixFloat::Add(y1, y2)) => floats_are_same(x1, y1)
            && floats_are_same(x2, y2),
        (NixFloat::Sub(x1, x2), NixFloat::Sub(y1, y2)) => floats_are_same(x1, y1)
            && floats_are_same(x2, y2),
        _ => false,
    }
}

/// Whether two values are equal.
pub fn values_are_same(a: &NixValue, b: &NixValue) -> (r: bool)
    ensures
        r == same_value(a@, b@),
{
    match (a, b) {
        (NixValue::Int(x), NixValue::Int(y)) => *x == *y,
        (NixValue::Float(x), NixValue::Float(y)) => floats_are_same(x, y),
        (NixValue::Bool(x), NixValue::Bool(y)) => *x == *y,
        (NixValue::String(x), NixValue::String(y)) => *x == *y,
        (NixValue::Path(x), NixValue::Path(y)) => paths_are_same(x.as_str(), y.as_str()),
        (NixValue::Null, NixValue::Null) => true,
        _ => false,
    }
}

impl PartialEq for NixFloat {
    fn eq(&self, other: &NixFloat) -> (r: bool) {
        floats_are_same(self, other)
    }
}

impl PartialEqSpecImpl for NixFloat {
    open spec fn obeys_eq_spec() -> bool {
        true
    }

    open spec fn eq_spec(&self, other: &NixFloat) -> bool {
        self@ == other@
    }
}

impl PartialEq for NixValue {
    fn eq(&self, other: &NixValue) -> (r: bool) {
        values_are_same(self, other)
    }
}

impl PartialEqSpecImpl for NixValue {
    open spec fn obeys_eq_spec() -> bool {
        true
    }

    open spec fn eq_spec(&self, other: &NixValue) -> bool {
        same_value(self@, other@)
    }
}

} // verus!

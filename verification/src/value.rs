//! The dynamically typed value tree that is the wire representation of
//! contract state and events, together with its mathematical model.

use vstd::prelude::*;
use vstd::utf8::encode_utf8;

verus! {

/// A dynamically typed value tree.
///
/// A floating-point number is held as the bit pattern of an IEEE 754 double,
/// so that the codec is exact and the subtype of a number survives a
/// round trip; a well-formed value holds only finite patterns.
#[derive(Debug, PartialEq, Eq)]
pub enum Value {
    Null,
    Bool(bool),
    Float(u64),
    SignedInt(i64),
    UnsignedInt(u64),
    Text(String),
    Array(Vec<Value>),
    Object(Vec<(String, Value)>),
}

/// Wrapper for a [`Value`] tree; the unit the codec encodes and decodes.
#[derive(Debug, PartialEq, Eq)]
pub struct ValueWrapper(pub Value);

/// Mathematical model of a value tree: text as character sequences,
/// collections as sequences.
pub enum ValueView {
    Null,
    Bool(bool),
    Float(u64),
    SignedInt(i64),
    UnsignedInt(u64),
    Text(Seq<char>),
    Array(Seq<ValueView>),
    Object(Seq<(Seq<char>, ValueView)>),
}

/// The model of an executable value tree.
pub open spec fn value_view(v: Value) -> ValueView
    decreases v,
    via value_view_decreases
{
    match v {
        Value::Null => ValueView::Null,
        Value::Bool(b) => ValueView::Bool(b),
        Value::Float(bits) => ValueView::Float(bits),
        Value::SignedInt(i) => ValueView::SignedInt(i),
        Value::UnsignedInt(u) => ValueView::UnsignedInt(u),
        Value::Text(s) => ValueView::Text(s@),
        Value::Array(items) => ValueView::Array(
            Seq::new(
                items@.len(),
                |i: int|
                    if 0 <= i < items@.len() {
                        value_view(items@[i])
                    } else {
                        ValueView::Null
                    },
            ),
        ),
        Value::Object(pairs) => ValueView::Object(
            Seq::new(
                pairs@.len(),
                |i: int|
                    if 0 <= i < pairs@.len() {
                        (pairs@[i].0@, value_view(pairs@[i].1))
                    } else {
                        (Seq::empty(), ValueView::Null)
                    },
            ),
        ),
    }
}

#[via_fn]
proof fn value_view_decreases(v: Value) {
    match v {
        Value::Array(items) => {
            assert forall|i: int| 0 <= i < items@.len() implies decreases_to!(
                v => items@[i]) by {
                assert(decreases_to!(items => items@[i]));
            }
        },
        Value::Object(pairs) => {
            assert forall|i: int| 0 <= i < pairs@.len() implies decreases_to!(
                v => pairs@[i].1) by {
                assert(decreases_to!(pairs => pairs@[i]));
                assert(decreases_to!(pairs@[i] => pairs@[i].1));
            }
        },
        _ => {},
    }
}

impl View for Value {
    type V = ValueView;

    open spec fn view(&self) -> ValueView {
        value_view(*self)
    }
}

impl View for ValueWrapper {
    type V = ValueView;

    open spec fn view(&self) -> ValueView {
        self.0@
    }
}

/// The bit pattern of a finite IEEE 754 double: the exponent bits are not
/// all ones (all ones would mean an infinity or a NaN).
pub open spec fn finite_bits(bits: u64) -> bool {
    (bits >> 52) & 0x7ff != 0x7ff
}

impl ValueView {
    /// The elements of an array value; empty for any other variant.
    pub open spec fn arr_items(self) -> Seq<ValueView> {
        match self {
            ValueView::Array(items) => items,
            _ => Seq::empty(),
        }
    }

    /// The pairs of an object value; empty for any other variant.
    pub open spec fn obj_pairs(self) -> Seq<(Seq<char>, ValueView)> {
        match self {
            ValueView::Object(pairs) => pairs,
            _ => Seq::empty(),
        }
    }

    /// Well-formedness of a value tree: floats are finite, every length fits
    /// the 32-bit length prefixes of the wire format, and object keys are
    /// unique.
    pub open spec fn wf(self) -> bool
        decreases self,
    {
        match self {
            ValueView::Float(bits) => finite_bits(bits),
            ValueView::Text(t) => encode_utf8(t).len() <= u32::MAX,
            ValueView::Array(items) => {
                &&& items.len() <= u32::MAX
                &&& forall|i: int| 0 <= i < items.len() ==> (#[trigger] items[i]).wf()
            },
            ValueView::Object(pairs) => {
                &&& pairs.len() <= u32::MAX
                &&& forall|i: int, j: int|
                    0 <= i < j < pairs.len() ==> (#[trigger] pairs[i].0) != (#[trigger] pairs[j].0)
                &&& forall|i: int|
                    0 <= i < pairs.len() ==> encode_utf8((#[trigger] pairs[i]).0).len() <= u32::MAX
                &&& forall|i: int| 0 <= i < pairs.len() ==> (#[trigger] pairs[i]).1.wf()
            },
            _ => true,
        }
    }

    /// True when the nesting of the tree stays within `depth` levels of
    /// arrays and objects.
    pub open spec fn fits(self, depth: nat) -> bool
        decreases self,
    {
        match self {
            ValueView::Array(items) => {
                &&& depth > 0
                &&& forall|i: int|
                    0 <= i < items.len() ==> (#[trigger] items[i]).fits((depth - 1) as nat)
            },
            ValueView::Object(pairs) => {
                &&& depth > 0
                &&& forall|i: int|
                    0 <= i < pairs.len() ==> (#[trigger] pairs[i]).1.fits((depth - 1) as nat)
            },
            _ => true,
        }
    }
}

} // verus!

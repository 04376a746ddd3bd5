//! The values of the host runtime, as the decoder hands them over.

use crate::value::distinct_keys;
use vstd::prelude::*;

verus! {

/// A value for the host runtime to build.
///
/// Each variant stands for one constructor of the host: null, boolean,
/// integer, float, string, sequence and mapping. A float is held as the bit
/// pattern of an IEEE 754 double. A sequence holds its items in order; a
/// mapping holds its entries, string key first, in the order in which the
/// host is to insert them.
#[derive(Debug, PartialEq)]
pub enum HostValue {
    Null,
    Bool(bool),
    Int(i64),
    Float(u64),
    Str(String),
    Sequence(Vec<HostValue>),
    Mapping(Vec<(String, HostValue)>),
}

/// The mathematical content of a [`HostValue`].
pub ghost enum HostView {
    Null,
    Bool(bool),
    Int(int),
    Float(u64),
    Str(Seq<char>),
    Sequence(Seq<HostView>),
    Mapping(Seq<(Seq<char>, HostView)>),
}

/// The content of a host value: strings as their characters, sequences and
/// mappings as sequences of the contents of their parts.
///
/// (The test of the bounds inside each sequence is there for the proof that
/// the recursion ends; no place outside the bounds is ever read.)
pub open spec fn content(v: HostValue) -> HostView
    decreases v,
{
    match v {
        HostValue::Null => HostView::Null,
        HostValue::Bool(b) => HostView::Bool(b),
        HostValue::Int(i) => HostView::Int(i as int),
        HostValue::Float(bits) => HostView::Float(bits),
        HostValue::Str(s) => HostView::Str(s@),
        HostValue::Sequence(items) => HostView::Sequence(
            Seq::new(
                items@.len(),
                |i: int|
                    if 0 <= i < items@.len() {
                        content(items@[i])
                    } else {
                        HostView::Null
                    },
            ),
        ),
        HostValue::Mapping(entries) => HostView::Mapping(
            Seq::new(
                entries@.len(),
                |i: int|
                    if 0 <= i < entries@.len() {
                        (entries@[i].0@, content(entries@[i].1))
                    } else {
                        (Seq::empty(), HostView::Null)
                    },
            ),
        ),
    }
}

impl View for HostValue {
    type V = HostView;

    open spec fn view(&self) -> HostView {
        content(*self)
    }
}

impl HostView {
    /// No mapping in the tree has two entries under the same key.
    pub open spec fn well_formed(self) -> bool
        decreases self,
    {
        match self {
            HostView::Sequence(items) => forall|i: int|
                0 <= i < items.len() ==> (#[trigger] items[i]).well_formed(),
            HostView::Mapping(entries) => {
                &&& distinct_keys(entries)
                &&& forall|i: int|
                    0 <= i < entries.len() ==> (#[trigger] entries[i]).1.well_formed()
            },
            _ => true,
        }
    }
}

} // verus!

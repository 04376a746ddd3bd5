//! From the decoded value tree to the values of the host.

use crate::binary64::{exact_i64, integer_value, is_finite, is_integral, to_i64};
use crate::host::{HostValue, HostView};
use crate::value::{Val, ValView};
use vstd::prelude::*;

verus! {

/// What the host is handed for a decoded value.
///
/// A number becomes a host integer exactly when the double is finite, has no
/// fractional part and lies in `[-2^63, 2^63 - 1]`; every other number stays
/// the float it is. Null, booleans and strings map to themselves. An array
/// becomes the sequence of its bridged items, in order; an object becomes the
/// mapping of its entries, each key with its bridged value, in order.
///
/// (The test of the bounds inside each sequence is there for the proof that
/// the recursion ends; no place outside the bounds is ever read.)
pub open spec fn bridged(v: ValView) -> HostView
    decreases v,
{
    match v {
        ValView::Null => HostView::Null,
        ValView::Bool(b) => HostView::Bool(b),
        ValView::Number(bits) => match exact_i64(bits) {
            Some(i) => HostView::Int(i as int),
            None => HostView::Float(bits),
        },
        ValView::String(s) => HostView::Str(s),
        ValView::Array(items) => HostView::Sequence(
            Seq::new(
                items.len(),
                |i: int|
                    if 0 <= i < items.len() {
                        bridged(items[i])
                    } else {
                        HostView::Null
                    },
            ),
        ),
        ValView::Object(entries) => HostView::Mapping(
            Seq::new(
                entries.len(),
                |i: int|
                    if 0 <= i < entries.len() {
                        (entries[i].0, bridged(entries[i].1))
                    } else {
                        (Seq::empty(), HostView::Null)
                    },
            ),
        ),
    }
}

/// Converts a decoded value into the value that the host is to build.
///
/// The conversion is total: every value tree has a host value.
pub fn val_to_python(value: &Val) -> (out: HostValue)
    ensures
        out@ == bridged(value@),
    decreases value,
{
    match value {
        Val::Null => HostValue::Null,
        Val::Bool(b) => HostValue::Bool(*b),
        Val::Number(bits) => match to_i64(*bits) {
            Some(i) => HostValue::Int(i),
            None => HostValue::Float(*bits),
        },
        Val::String(s) => HostValue::Str(s.clone()),
        Val::Array(items) => {
            let mut list: Vec<HostValue> = Vec::new();
            let mut i: usize = 0;
            while i < items.len()
                invariant
                    i <= items.len(),
                    list@.len() == i,
                    value is Array,
                    value->Array_0 == *items,
                    forall|j: int| 0 <= j < i ==> (#[trigger] list@[j])@ == bridged(items@[j]@),
                decreases items.len() - i,
            {
                assert(decreases_to!(value => value->Array_0, items@, items@[i as int]));
                let item = val_to_python(&items[i]);
                list.push(item);
                i += 1;
            }
            let out = HostValue::Sequence(list);
            assert(out@->Sequence_0 =~= bridged(value@)->Sequence_0);
            out
        },
        Val::Object(entries) => {
            let mut dict: Vec<(String, HostValue)> = Vec::new();
            let mut i: usize = 0;
            while i < entries.len()
                invariant
                    i <= entries.len(),
                    dict@.len() == i,
                    value is Object,
                    value->Object_0 == *entries,
                    forall|j: int|
                        0 <= j < i ==> (#[trigger] dict@[j]).0@ == entries@[j].0@ && dict@[j].1@
                            == bridged(entries@[j].1@),
                decreases entries.len() - i,
            {
                assert(decreases_to!(value => value->Object_0, entries@, entries@[i as int], entries@[i as int].1));
                let key = entries[i].0.clone();
                let item = val_to_python(&entries[i].1);
                dict.push((key, item));
                i += 1;
            }
            let out = HostValue::Mapping(dict);
            assert(out@->Mapping_0 =~= bridged(value@)->Mapping_0);
            out
        },
    }
}

/// A double that is an infinity or a NaN is never handed over as an integer:
/// it stays the float it is, bit for bit.
pub proof fn lemma_non_finite_stays_float(bits: u64)
    requires
        !is_finite(bits),
    ensures
        bridged(ValView::Number(bits)) == HostView::Float(bits),
{
}

/// A number is handed over as an integer exactly when it is finite, has no
/// fractional part and lies in `[-2^63, 2^63 - 1]`; the integer is then its
/// value, and otherwise the host gets the double unchanged.
pub proof fn lemma_number_policy(bits: u64)
    ensures
        bridged(ValView::Number(bits)) is Int <==> is_integral(bits) && -0x8000_0000_0000_0000
            <= integer_value(bits) <= 0x7fff_ffff_ffff_ffff,
        bridged(ValView::Number(bits)) is Int ==> bridged(ValView::Number(bits))
            == HostView::Int(integer_value(bits)),
        !(bridged(ValView::Number(bits)) is Int) ==> bridged(ValView::Number(bits))
            == HostView::Float(bits),
{
}

/// Bridging keeps the keys of every object as they are, so a host value made
/// from a well-formed value tree is well-formed too: no mapping in it has two
/// entries under the same key.
pub proof fn lemma_bridged_is_well_formed(v: ValView)
    requires
        v.well_formed(),
    ensures
        bridged(v).well_formed(),
    decreases v,
{
    match v {
        ValView::Array(items) => {
            let out = bridged(v)->Sequence_0;
            assert forall|i: int| 0 <= i < out.len() implies (#[trigger] out[i]).well_formed() by {
                assert(items[i].well_formed());
                lemma_bridged_is_well_formed(items[i]);
            }
        },
        ValView::Object(entries) => {
            let out = bridged(v)->Mapping_0;
            assert forall|i: int| 0 <= i < out.len() implies (#[trigger] out[i]).1.well_formed() by {
                assert(entries[i].1.well_formed());
                lemma_bridged_is_well_formed(entries[i].1);
            }
            assert forall|i: int, j: int| 0 <= i < j < out.len() implies (#[trigger] out[i]).0 != (
            #[trigger] out[j]).0 by {
                assert(entries[i].0 != entries[j].0);
            }
        },
        _ => {},
    }
}

} // verus!

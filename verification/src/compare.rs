//! Equality of decoded values: two values are the same where they hold the same.

use vstd::prelude::*;
use crate::graphql::ID;
use crate::text::Text;
use crate::tree::{
    PropertyModel,
    fields_model, optional_id, optional_text, pairs_model, properties_model, property_model,
    value_model, values_model, FieldValue, Property, PropertyTree, PropertyValue, StructBody,
};

verus! {

/// Whether two byte strings are equal.
pub fn same_bytes(a: &[u8], b: &[u8]) -> (same: bool)
    ensures
        same == (a@ == b@),
{
    if a.len() != b.len() {
        return false;
    }
    let mut i: usize = 0;
    while i < a.len()
        invariant
            i <= a.len(),
            a.len() == b.len(),
            forall|k: int| 0 <= k < i ==> a@[k] == b@[k],
        decreases a.len() - i,
    {
        if a[i] != b[i] {
            return false;
        }
        i = i + 1;
    }
    assert(a@ =~= b@);
    true
}

/// Whether two strings of 16-bit units are equal.
pub fn same_units(a: &[u16], b: &[u16]) -> (same: bool)
    ensures
        same == (a@ == b@),
{
    if a.len() != b.len() {
        return false;
    }
    let mut i: usize = 0;
    while i < a.len()
        invariant
            i <= a.len(),
            a.len() == b.len(),
            forall|k: int| 0 <= k < i ==> a@[k] == b@[k],
        decreases a.len() - i,
    {
        if a[i] != b[i] {
            return false;
        }
        i = i + 1;
    }
    assert(a@ =~= b@);
    true
}

/// Whether two texts hold the same units in the same width.
pub fn same_text(a: &Text, b: &Text) -> (same: bool)
    ensures
        same == (a@ == b@),
{
    match (a, b) {
        (Text::Narrow(x), Text::Narrow(y)) => same_bytes(x.as_slice(), y.as_slice()),
        (Text::Wide(x), Text::Wide(y)) => same_units(x.as_slice(), y.as_slice()),
        _ => false,
    }
}

/// Whether two optional texts are both absent or hold the same.
pub fn same_optional_text(a: &Option<Text>, b: &Option<Text>) -> (same: bool)
    ensures
        same == (optional_text(*a) == optional_text(*b)),
{
    match (a, b) {
        (Some(x), Some(y)) => same_text(x, y),
        (None, None) => true,
        _ => false,
    }
}

/// Whether two identifiers hold the same bytes.
pub fn same_id(a: &ID, b: &ID) -> (same: bool)
    ensures
        same == (a@ == b@),
{
    same_bytes(vstd::array::array_as_slice(&a.0), vstd::array::array_as_slice(&b.0))
}

/// Whether two optional identifiers are both absent or hold the same.
pub fn same_optional_id(a: &Option<ID>, b: &Option<ID>) -> (same: bool)
    ensures
        same == (optional_id(*a) == optional_id(*b)),
{
    match (a, b) {
        (Some(x), Some(y)) => same_id(x, y),
        (None, None) => true,
        _ => false,
    }
}

/// Whether two fields are of one kind and hold the same.
pub fn same_field(a: &FieldValue, b: &FieldValue) -> (same: bool)
    ensures
        same == (a@ == b@),
{
    match (a, b) {
        (FieldValue::Float32(x), FieldValue::Float32(y)) => *x == *y,
        (FieldValue::Float64(x), FieldValue::Float64(y)) => *x == *y,
        (FieldValue::Int32(x), FieldValue::Int32(y)) => *x == *y,
        (FieldValue::Int64(x), FieldValue::Int64(y)) => *x == *y,
        (FieldValue::Guid(x), FieldValue::Guid(y)) => same_id(x, y),
        _ => false,
    }
}

/// Whether two runs of fields hold the same.
pub fn same_fields(a: &Vec<FieldValue>, b: &Vec<FieldValue>) -> (same: bool)
    ensures
        same == (fields_model(a@) == fields_model(b@)),
{
    if a.len() != b.len() {
        assert(fields_model(a@).len() != fields_model(b@).len());
        return false;
    }
    let mut i: usize = 0;
    while i < a.len()
        invariant
            i <= a.len(),
            a.len() == b.len(),
            forall|k: int| 0 <= k < i ==> a@[k]@ == b@[k]@,
        decreases a.len() - i,
    {
        if !same_field(&a[i], &b[i]) {
            assert(fields_model(a@)[i as int] != fields_model(b@)[i as int]);
            return false;
        }
        i = i + 1;
    }
    assert(fields_model(a@) =~= fields_model(b@));
    true
}

/// Whether two values hold the same.
pub fn same_value(a: &PropertyValue, b: &PropertyValue) -> (same: bool)
    ensures
        same == (a@ == b@),
    decreases a,
{
    match (a, b) {
        (PropertyValue::Bool(x), PropertyValue::Bool(y)) => *x == *y,
        (PropertyValue::Int8(x), PropertyValue::Int8(y)) => *x == *y,
        (PropertyValue::Int16(x), PropertyValue::Int16(y)) => *x == *y,
        (PropertyValue::Int32(x), PropertyValue::Int32(y)) => *x == *y,
        (PropertyValue::Int64(x), PropertyValue::Int64(y)) => *x == *y,
        (PropertyValue::UInt16(x), PropertyValue::UInt16(y)) => *x == *y,
        (PropertyValue::UInt32(x), PropertyValue::UInt32(y)) => *x == *y,
        (PropertyValue::UInt64(x), PropertyValue::UInt64(y)) => *x == *y,
        (PropertyValue::Float32(x), PropertyValue::Float32(y)) => *x == *y,
        (PropertyValue::Float64(x), PropertyValue::Float64(y)) => *x == *y,
        (PropertyValue::Str(x), PropertyValue::Str(y)) => same_text(x, y),
        (
            PropertyValue::Enum { enum_type: t1, value: v1 },
            PropertyValue::Enum { enum_type: t2, value: v2 },
        ) => same_text(t1, t2) && same_text(v1, v2),
        (
            PropertyValue::Byte { enum_name: n1, raw: r1 },
            PropertyValue::Byte { enum_name: n2, raw: r2 },
        ) => same_optional_text(n1, n2) && *r1 == *r2,
        (
            PropertyValue::Struct { struct_type: t1, guid: g1, body: b1 },
            PropertyValue::Struct { struct_type: t2, guid: g2, body: b2 },
        ) => same_text(t1, t2) && same_optional_id(g1, g2) && same_body(b1, b2),
        (
            PropertyValue::Array { element_tag: t1, element_struct: s1, elements: e1 },
            PropertyValue::Array { element_tag: t2, element_struct: s2, elements: e2 },
        ) => *t1 == *t2 && same_optional_text(s1, s2) && same_values(e1, e2),
        (
            PropertyValue::UniqueSet { element_tag: t1, element_struct: s1, elements: e1 },
            PropertyValue::UniqueSet { element_tag: t2, element_struct: s2, elements: e2 },
        ) => *t1 == *t2 && same_optional_text(s1, s2) && same_values(e1, e2),
        (
            PropertyValue::Mapping { key_tag: k1, value_tag: v1, flags: f1, entries: e1 },
            PropertyValue::Mapping { key_tag: k2, value_tag: v2, flags: f2, entries: e2 },
        ) => *k1 == *k2 && *v1 == *v2 && *f1 == *f2 && same_pairs(e1, e2),
        _ => false,
    }
}

/// Whether two runs of values hold the same.
pub fn same_values(a: &Vec<PropertyValue>, b: &Vec<PropertyValue>) -> (same: bool)
    ensures
        same == (values_model(a@) == values_model(b@)),
    decreases a,
{
    if a.len() != b.len() {
        assert(values_model(a@).len() != values_model(b@).len());
        return false;
    }
    let mut i: usize = 0;
    while i < a.len()
        invariant
            i <= a.len(),
            a.len() == b.len(),
            forall|k: int| 0 <= k < i ==> value_model(a@[k]) == value_model(b@[k]),
        decreases a.len() - i,
    {
        if !same_value(&a[i], &b[i]) {
            assert(values_model(a@)[i as int] != values_model(b@)[i as int]);
            return false;
        }
        i = i + 1;
    }
    assert(values_model(a@) =~= values_model(b@));
    true
}

/// Whether two runs of pairs hold the same.
pub fn same_pairs(a: &Vec<(PropertyValue, PropertyValue)>, b: &Vec<(PropertyValue, PropertyValue)>) -> (same: bool)
    ensures
        same == (pairs_model(a@) == pairs_model(b@)),
    decreases a,
{
    if a.len() != b.len() {
        assert(pairs_model(a@).len() != pairs_model(b@).len());
        return false;
    }
    let mut i: usize = 0;
    while i < a.len()
        invariant
            i <= a.len(),
            a.len() == b.len(),
            forall|k: int|
                0 <= k < i ==> value_model(a@[k].0) == value_model(b@[k].0) && value_model(a@[k].1)
                    == value_model(b@[k].1),
        decreases a.len() - i,
    {
        if !same_value(&a[i].0, &b[i].0) || !same_value(&a[i].1, &b[i].1) {
            assert(pairs_model(a@)[i as int] != pairs_model(b@)[i as int]);
            return false;
        }
        i = i + 1;
    }
    assert(pairs_model(a@) =~= pairs_model(b@));
    true
}

/// Whether two struct bodies hold the same.
pub fn same_body(a: &StructBody, b: &StructBody) -> (same: bool)
    ensures
        same == (a@ == b@),
    decreases a,
{
    match (a, b) {
        (StructBody::Fixed(x), StructBody::Fixed(y)) => same_fields(x, y),
        (StructBody::Fields(x), StructBody::Fields(y)) => same_tree(x, y),
        (StructBody::Raw(x), StructBody::Raw(y)) => same_bytes(x.as_slice(), y.as_slice()),
        _ => false,
    }
}

/// Whether two properties hold the same.
pub fn same_property(a: &Property, b: &Property) -> (same: bool)
    ensures
        same == (a@ == b@),
    decreases a,
{
    same_text(&a.name, &b.name) && a.tag == b.tag && a.size == b.size && same_value(
        &a.value,
        &b.value,
    )
}

/// Whether two trees hold the same properties in the same order.
pub fn same_tree(a: &PropertyTree, b: &PropertyTree) -> (same: bool)
    ensures
        same == (a@ == b@),
    decreases a,
{
    if a.entries.len() != b.entries.len() {
        assert(properties_model(a.entries@).len() != properties_model(b.entries@).len());
        return false;
    }
    let mut i: usize = 0;
    while i < a.entries.len()
        invariant
            i <= a.entries.len(),
            a.entries.len() == b.entries.len(),
            forall|k: int| 0 <= k < i ==> property_model(a.entries@[k]) == property_model(b.entries@[k]),
        decreases a.entries.len() - i,
    {
        if !same_property(&a.entries[i], &b.entries[i]) {
            assert(properties_model(a.entries@)[i as int] != properties_model(b.entries@)[i as int]);
            return false;
        }
        i = i + 1;
    }
    assert(properties_model(a.entries@) =~= properties_model(b.entries@));
    true
}

/// Whether no two properties of a scope have the same name.
pub open spec fn names_distinct(properties: Seq<PropertyModel>) -> bool {
    forall|i: int, j: int|
        0 <= i < j < properties.len() ==> (#[trigger] properties[i]).name != (
        #[trigger] properties[j]).name
}

impl PropertyTree {
    /// Whether each name occurs once in the scope. The decoder takes a scope
    /// as it is stored; a lookup by name finds the first property of a name.
    pub fn has_distinct_names(&self) -> (distinct: bool)
        ensures
            distinct == names_distinct(self@),
    {
        let mut i: usize = 0;
        while i < self.entries.len()
            invariant
                i <= self.entries.len(),
                forall|a: int, b: int|
                    0 <= a < b < self.entries.len() && a < i ==> (#[trigger] self@[a]).name != (
                    #[trigger] self@[b]).name,
            decreases self.entries.len() - i,
        {
            let mut j: usize = i + 1;
            while j < self.entries.len()
                invariant
                    i < j <= self.entries.len(),
                    forall|b: int| i < b < j ==> self@[i as int].name != (#[trigger] self@[b]).name,
                decreases self.entries.len() - j,
            {
                assert(self@[i as int] == self.entries@[i as int]@);
                assert(self@[j as int] == self.entries@[j as int]@);
                if same_text(&self.entries[i].name, &self.entries[j].name) {
                    return false;
                }
                j = j + 1;
            }
            i = i + 1;
        }
        true
    }
}

} // verus!

//! The property tree: the decoded form of a save, which describes itself.

use vstd::prelude::*;
use crate::graphql::ID;
use crate::text::{Text, TextModel};

verus! {

/// The closed vocabulary of property types.
#[derive(Clone, Copy, Debug, PartialEq, Eq, Structural)]
pub enum TypeTag {
    Bool,
    Int8,
    Int16,
    Int32,
    Int64,
    UInt16,
    UInt32,
    UInt64,
    Float,
    Double,
    Str,
    Name,
    Text,
    Enum,
    Byte,
    Struct,
    Array,
    Mapping,
    UniqueSet,
}

/// The primitive kinds that a fixed-layout struct is made of.
#[derive(Clone, Copy, Debug, PartialEq, Eq, Structural)]
pub enum FieldKind {
    Float32,
    Float64,
    Int32,
    Int64,
    Guid,
}

/// One field of a fixed-layout struct. Floating-point fields hold the bit
/// pattern of the number.
#[derive(Clone, Copy, Debug)]
pub enum FieldValue {
    Float32(u32),
    Float64(u64),
    Int32(i32),
    Int64(i64),
    Guid(ID),
}

/// What a [`FieldValue`] holds.
pub enum FieldModel {
    Float32(u32),
    Float64(u64),
    Int32(i32),
    Int64(i64),
    Guid(Seq<u8>),
}

impl View for FieldValue {
    type V = FieldModel;

    open spec fn view(&self) -> FieldModel {
        match self {
            FieldValue::Float32(bits) => FieldModel::Float32(*bits),
            FieldValue::Float64(bits) => FieldModel::Float64(*bits),
            FieldValue::Int32(value) => FieldModel::Int32(*value),
            FieldValue::Int64(value) => FieldModel::Int64(*value),
            FieldValue::Guid(id) => FieldModel::Guid(id@),
        }
    }
}

/// The value of one property or of one element of a collection.
#[derive(Debug)]
pub enum PropertyValue {
    /// The flag byte as it was stored; any value but zero means true.
    Bool(u8),
    Int8(i8),
    Int16(i16),
    Int32(i32),
    Int64(i64),
    UInt16(u16),
    UInt32(u32),
    UInt64(u64),
    /// The bit pattern of a 32-bit IEEE 754 number.
    Float32(u32),
    /// The bit pattern of a 64-bit IEEE 754 number.
    Float64(u64),
    Str(Text),
    Enum { enum_type: Text, value: Text },
    Byte { enum_name: Option<Text>, raw: u8 },
    Struct { struct_type: Text, guid: Option<ID>, body: StructBody },
    Array { element_tag: TypeTag, element_struct: Option<Text>, elements: Vec<PropertyValue> },
    Mapping { key_tag: TypeTag, value_tag: TypeTag, flags: u32, entries: Vec<(PropertyValue, PropertyValue)> },
    UniqueSet { element_tag: TypeTag, element_struct: Option<Text>, elements: Vec<PropertyValue> },
}

/// What a struct holds.
#[derive(Debug)]
pub enum StructBody {
    /// The fields of a registered fixed-layout type, in the order of its layout.
    Fixed(Vec<FieldValue>),
    /// The properties of any other struct.
    Fields(PropertyTree),
    /// The payload as it was stored, where it could not be read as either.
    Raw(Vec<u8>),
}

/// One named property with its type tag and the payload size that was
/// declared for it.
#[derive(Debug)]
pub struct Property {
    pub name: Text,
    pub tag: TypeTag,
    pub size: u64,
    pub value: PropertyValue,
}

/// The properties of one scope, in the order in which they were stored.
#[derive(Debug)]
pub struct PropertyTree {
    pub entries: Vec<Property>,
}

/// What a [`PropertyValue`] holds.
pub enum ValueModel {
    Bool(u8),
    Int8(i8),
    Int16(i16),
    Int32(i32),
    Int64(i64),
    UInt16(u16),
    UInt32(u32),
    UInt64(u64),
    Float32(u32),
    Float64(u64),
    Str(TextModel),
    Enum { enum_type: TextModel, value: TextModel },
    Byte { enum_name: Option<TextModel>, raw: u8 },
    Struct { struct_type: TextModel, guid: Option<Seq<u8>>, body: BodyModel },
    Array { element_tag: TypeTag, element_struct: Option<TextModel>, elements: Seq<ValueModel> },
    Mapping { key_tag: TypeTag, value_tag: TypeTag, flags: u32, entries: Seq<(ValueModel, ValueModel)> },
    UniqueSet { element_tag: TypeTag, element_struct: Option<TextModel>, elements: Seq<ValueModel> },
}

/// What a [`StructBody`] holds.
pub enum BodyModel {
    Fixed(Seq<FieldModel>),
    Fields(Seq<PropertyModel>),
    Raw(Seq<u8>),
}

/// What a [`Property`] holds.
pub struct PropertyModel {
    pub name: TextModel,
    pub tag: TypeTag,
    pub size: u64,
    pub value: ValueModel,
}

/// The text that an optional text holds.
pub open spec fn optional_text(text: Option<Text>) -> Option<TextModel> {
    match text {
        Some(t) => Some(t@),
        None => None,
    }
}

/// The bytes that an optional identifier holds.
pub open spec fn optional_id(id: Option<ID>) -> Option<Seq<u8>> {
    match id {
        Some(i) => Some(i@),
        None => None,
    }
}

/// The fields of a fixed-layout struct, each by what it holds.
pub open spec fn fields_model(fields: Seq<FieldValue>) -> Seq<FieldModel> {
    Seq::new(fields.len(), |i: int| fields[i]@)
}

/// A value by what it holds.
pub open spec fn value_model(value: PropertyValue) -> ValueModel
    decreases value,
{
    match value {
        PropertyValue::Bool(raw) => ValueModel::Bool(raw),
        PropertyValue::Int8(v) => ValueModel::Int8(v),
        PropertyValue::Int16(v) => ValueModel::Int16(v),
        PropertyValue::Int32(v) => ValueModel::Int32(v),
        PropertyValue::Int64(v) => ValueModel::Int64(v),
        PropertyValue::UInt16(v) => ValueModel::UInt16(v),
        PropertyValue::UInt32(v) => ValueModel::UInt32(v),
        PropertyValue::UInt64(v) => ValueModel::UInt64(v),
        PropertyValue::Float32(bits) => ValueModel::Float32(bits),
        PropertyValue::Float64(bits) => ValueModel::Float64(bits),
        PropertyValue::Str(text) => ValueModel::Str(text@),
        PropertyValue::Enum { enum_type, value } => ValueModel::Enum {
            enum_type: enum_type@,
            value: value@,
        },
        PropertyValue::Byte { enum_name, raw } => ValueModel::Byte {
            enum_name: optional_text(enum_name),
            raw,
        },
        PropertyValue::Struct { struct_type, guid, body } => ValueModel::Struct {
            struct_type: struct_type@,
            guid: optional_id(guid),
            body: body_model(body),
        },
        PropertyValue::Array { element_tag, element_struct, elements } => ValueModel::Array {
            element_tag,
            element_struct: optional_text(element_struct),
            elements: values_model(elements@),
        },
        PropertyValue::Mapping { key_tag, value_tag, flags, entries } => ValueModel::Mapping {
            key_tag,
            value_tag,
            flags,
            entries: pairs_model(entries@),
        },
        PropertyValue::UniqueSet { element_tag, element_struct, elements } => ValueModel::UniqueSet {
            element_tag,
            element_struct: optional_text(element_struct),
            elements: values_model(elements@),
        },
    }
}

/// A sequence of values, each by what it holds.
pub open spec fn values_model(values: Seq<PropertyValue>) -> Seq<ValueModel>
    decreases values,
{
    Seq::new(
        values.len(),
        |i: int|
            if 0 <= i < values.len() {
                value_model(values[i])
            } else {
                ValueModel::Bool(0)
            },
    )
}

/// A sequence of key and value pairs, each by what it holds.
pub open spec fn pairs_model(pairs: Seq<(PropertyValue, PropertyValue)>) -> Seq<
    (ValueModel, ValueModel),
>
    decreases pairs,
{
    Seq::new(
        pairs.len(),
        |i: int|
            if 0 <= i < pairs.len() {
                (value_model(pairs[i].0), value_model(pairs[i].1))
            } else {
                (ValueModel::Bool(0), ValueModel::Bool(0))
            },
    )
}

/// A struct body by what it holds.
pub open spec fn body_model(body: StructBody) -> BodyModel
    decreases body,
{
    match body {
        StructBody::Fixed(fields) => BodyModel::Fixed(fields_model(fields@)),
        StructBody::Fields(tree) => BodyModel::Fields(properties_model(tree.entries@)),
        StructBody::Raw(bytes) => BodyModel::Raw(bytes@),
    }
}

/// A property by what it holds.
pub open spec fn property_model(property: Property) -> PropertyModel
    decreases property,
{
    PropertyModel {
        name: property.name@,
        tag: property.tag,
        size: property.size,
        value: value_model(property.value),
    }
}

/// A sequence of properties, each by what it holds.
pub open spec fn properties_model(properties: Seq<Property>) -> Seq<PropertyModel>
    decreases properties,
{
    Seq::new(
        properties.len(),
        |i: int|
            if 0 <= i < properties.len() {
                property_model(properties[i])
            } else {
                arbitrary()
            },
    )
}

impl View for PropertyValue {
    type V = ValueModel;

    open spec fn view(&self) -> ValueModel {
        value_model(*self)
    }
}

impl View for StructBody {
    type V = BodyModel;

    open spec fn view(&self) -> BodyModel {
        body_model(*self)
    }
}

impl View for Property {
    type V = PropertyModel;

    open spec fn view(&self) -> PropertyModel {
        property_model(*self)
    }
}

impl View for PropertyTree {
    type V = Seq<PropertyModel>;

    open spec fn view(&self) -> Seq<PropertyModel> {
        properties_model(self.entries@)
    }
}

} // verus!

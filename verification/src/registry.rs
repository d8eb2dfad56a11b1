//! The struct types whose payload has a fixed layout.

use vstd::prelude::*;
use vstd::string::StringSliceAdditionalSpecFns;
use crate::text::{Text, TextModel};
use crate::tree::FieldKind;

verus! {

/// A struct type that is stored as a fixed run of primitive fields.
#[derive(Debug)]
pub struct StructLayout {
    /// The type name, without terminator.
    pub name: Vec<u8>,
    /// The kinds of the fields, in the order in which they are stored.
    pub fields: Vec<FieldKind>,
}

/// What a [`StructLayout`] holds.
pub struct LayoutModel {
    pub name: Seq<u8>,
    pub fields: Seq<FieldKind>,
}

impl View for StructLayout {
    type V = LayoutModel;

    open spec fn view(&self) -> LayoutModel {
        LayoutModel { name: self.name@, fields: self.fields@ }
    }
}

/// The fixed-layout struct types that a decoder knows. Where a name has been
/// registered twice, the first layout counts.
#[derive(Debug)]
pub struct StructRegistry {
    pub layouts: Vec<StructLayout>,
}

impl View for StructRegistry {
    type V = Seq<LayoutModel>;

    open spec fn view(&self) -> Seq<LayoutModel> {
        Seq::new(self.layouts@.len(), |i: int| self.layouts@[i]@)
    }
}

/// The layout of the first registered type at or behind index `from` whose
/// name, with a terminator, makes up the narrow text `struct_type`.
pub open spec fn find_layout_from(registry: Seq<LayoutModel>, struct_type: TextModel, from: int) -> Option<
    Seq<FieldKind>,
>
    decreases registry.len() - from,
{
    if from < 0 || from >= registry.len() {
        None
    } else if struct_type == TextModel::ascii(registry[from].name) {
        Some(registry[from].fields)
    } else {
        find_layout_from(registry, struct_type, from + 1)
    }
}

/// The layout that is registered for `struct_type`, if there is one.
pub open spec fn find_layout(registry: Seq<LayoutModel>, struct_type: TextModel) -> Option<
    Seq<FieldKind>,
> {
    find_layout_from(registry, struct_type, 0)
}

/// `count` fields of one kind.
pub open spec fn repeated(kind: FieldKind, count: nat) -> Seq<FieldKind> {
    Seq::new(count, |i: int| kind)
}

/// The layouts of [`StructRegistry::standard`], as name and fields.
pub open spec fn standard_layouts() -> Seq<LayoutModel> {
    Seq::<LayoutModel>::empty().push(
        LayoutModel { name: "Vector".spec_bytes(), fields: repeated(FieldKind::Float64, 3) },
    ).push(
        LayoutModel { name: "Rotator".spec_bytes(), fields: repeated(FieldKind::Float64, 3) },
    ).push(LayoutModel { name: "Quat".spec_bytes(), fields: repeated(FieldKind::Float64, 4) }).push(
        LayoutModel { name: "DateTime".spec_bytes(), fields: repeated(FieldKind::Int64, 1) },
    ).push(LayoutModel { name: "Guid".spec_bytes(), fields: repeated(FieldKind::Guid, 1) }).push(
        LayoutModel { name: "LinearColor".spec_bytes(), fields: repeated(FieldKind::Float32, 4) },
    )
}

/// `count` fields of one kind.
fn repeat(kind: FieldKind, count: usize) -> (fields: Vec<FieldKind>)
    ensures
        fields@ == repeated(kind, count as nat),
{
    let mut fields: Vec<FieldKind> = Vec::new();
    let mut i: usize = 0;
    while i < count
        invariant
            i <= count,
            fields@ == repeated(kind, i as nat),
        decreases count - i,
    {
        fields.push(kind);
        i = i + 1;
        assert(fields@ =~= repeated(kind, i as nat));
    }
    fields
}

impl StructRegistry {
    /// A registry that knows no type: every struct is read as a property list.
    pub fn new() -> (registry: StructRegistry)
        ensures
            registry@ == Seq::<LayoutModel>::empty(),
    {
        let registry = StructRegistry { layouts: Vec::new() };
        assert(registry@ =~= Seq::<LayoutModel>::empty());
        registry
    }

    /// Adds a type behind those that are registered already.
    pub fn register(&mut self, name: &[u8], fields: Vec<FieldKind>)
        ensures
            final(self)@ == old(self)@.push(LayoutModel { name: name@, fields: fields@ }),
    {
        let mut owned: Vec<u8> = Vec::new();
        owned.extend_from_slice(name);
        assert(owned@ =~= name@);
        self.layouts.push(StructLayout { name: owned, fields });
        assert(self@ =~= old(self)@.push(LayoutModel { name: name@, fields: fields@ }));
    }

    /// The small fixed-layout types of the engine: `Vector`, `Rotator` and
    /// `Quat` of 64-bit components, `DateTime`, `Guid` and `LinearColor`.
    pub fn standard() -> (registry: StructRegistry)
        ensures
            registry@ == standard_layouts(),
    {
        let mut registry = StructRegistry::new();
        registry.register("Vector".as_bytes(), repeat(FieldKind::Float64, 3));
        registry.register("Rotator".as_bytes(), repeat(FieldKind::Float64, 3));
        registry.register("Quat".as_bytes(), repeat(FieldKind::Float64, 4));
        registry.register("DateTime".as_bytes(), repeat(FieldKind::Int64, 1));
        registry.register("Guid".as_bytes(), repeat(FieldKind::Guid, 1));
        registry.register("LinearColor".as_bytes(), repeat(FieldKind::Float32, 4));
        registry
    }

    /// The fields of the layout that is registered for `struct_type`, if there is one.
    pub fn find(&self, struct_type: &Text) -> (found: Option<&Vec<FieldKind>>)
        ensures
            match found {
                Some(fields) => find_layout(self@, struct_type@) == Some(fields@),
                None => find_layout(self@, struct_type@) is None,
            },
    {
        let mut i: usize = 0;
        while i < self.layouts.len()
            invariant
                i <= self.layouts.len(),
                find_layout(self@, struct_type@) == find_layout_from(self@, struct_type@, i as int),
            decreases self.layouts.len() - i,
        {
            if struct_type.is_ascii(self.layouts[i].name.as_slice()) {
                return Some(&self.layouts[i].fields);
            }
            i = i + 1;
        }
        None
    }
}

} // verus!

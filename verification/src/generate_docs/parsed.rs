//! What a schema says, as a definition: the meaning of parsing.

use crate::generate_docs::schema::{
    InstanceType, InstanceTypes, Items, Property, SchemaObject, SubschemaValidation,
};
use crate::text::opt_text;
use crate::generate_docs::type_definition::{
    KindView, ObjectPropertyView, TypeDefinition, TypeDefinitionView,
};
use vstd::prelude::*;

verus! {

/// The title in a schema's metadata.
pub open spec fn schema_title(s: SchemaObject) -> Option<Seq<char>> {
    match s.metadata {
        Some(m) => opt_text(m.title),
        None => None,
    }
}

/// The description in a schema's metadata.
pub open spec fn schema_description(s: SchemaObject) -> Option<Seq<char>> {
    match s.metadata {
        Some(m) => opt_text(m.description),
        None => None,
    }
}

/// The JSON type that a schema asks for, and whether `null` is accepted
/// beside it: a single type, or one of exactly two types of which the other
/// is `null`.
pub open spec fn chosen_type(s: SchemaObject) -> Option<(InstanceType, bool)> {
    match s.instance_type {
        Some(InstanceTypes::Single(ty)) => Some((ty, false)),
        Some(InstanceTypes::Many(types)) => if types.len() == 2 && types[1]
            == InstanceType::Null {
            Some((types[0], true))
        } else if types.len() == 2 && types[0] == InstanceType::Null {
            Some((types[1], true))
        } else {
            None
        },
        None => None,
    }
}

/// The kind that a number format stands for.
pub open spec fn number_kind(format: Option<String>) -> Option<KindView> {
    match format {
        Some(f) => if f@ == "float"@ {
            Some(KindView::F32)
        } else if f@ == "double"@ {
            Some(KindView::F64)
        } else {
            None
        },
        None => None,
    }
}

/// The kind that an integer format stands for.
pub open spec fn integer_kind(format: Option<String>) -> Option<KindView> {
    match format {
        Some(f) => if f@ == "uint32"@ || f@ == "uint"@ {
            Some(KindView::U32)
        } else if f@ == "int32"@ || f@ == "int"@ {
            Some(KindView::I32)
        } else if f@ == "uint16"@ {
            Some(KindView::U16)
        } else if f@ == "uint8"@ {
            Some(KindView::U8)
        } else {
            None
        },
        None => None,
    }
}

/// The kind of a string schema: any string, one literal, or a union of
/// literals.
pub open spec fn string_kind(values: Option<Vec<Option<String>>>, is_optional: bool) -> KindView {
    match values {
        Some(values) => if values.len() == 0 {
            KindView::String(None)
        } else if values.len() == 1 {
            KindView::String(opt_text(values[0]))
        } else {
            KindView::Union(
                Seq::new(
                    values.len() as nat,
                    |i: int|
                        TypeDefinition::spec_complex(
                            None,
                            None,
                            KindView::String(opt_text(values[i])),
                            is_optional,
                        ),
                ),
            )
        },
        None => KindView::String(None),
    }
}

/// The schemas of a list, or none where there is no list.
pub open spec fn listed(v: Option<Vec<SchemaObject>>) -> Seq<SchemaObject> {
    match v {
        Some(v) => v@,
        None => Seq::empty(),
    }
}

/// The schemas that `sub` combines: those of `one_of`, then `any_of`, then
/// `all_of`.
pub open spec fn flattened_subschemas(sub: SubschemaValidation) -> Seq<SchemaObject> {
    listed(sub.one_of) + listed(sub.any_of) + listed(sub.all_of)
}

/// Holds of the definitions whose kind is not `Null`.
pub open spec fn not_null() -> spec_fn(TypeDefinitionView) -> bool {
    |d: TypeDefinitionView| !(d.kind is Null)
}

/// Whether the kind of one of `types` is `Null`.
pub open spec fn has_null(types: Seq<TypeDefinitionView>) -> bool {
    exists|i: int| 0 <= i < types.len() && (#[trigger] types[i]).kind is Null
}

/// An object definition with `properties` put before its own.
pub open spec fn with_properties(
    def: TypeDefinitionView,
    properties: Seq<ObjectPropertyView>,
) -> TypeDefinitionView {
    TypeDefinitionView { kind: KindView::Object(properties + def.kind->Object_0), ..def }
}

/// Whether a schema can be documented: it is a reference, or asks for one
/// JSON type (beside `null`) whose details are present and known, or
/// combines schemas that can be documented; and so for the schemas inside
/// it.
pub open spec fn supported(s: SchemaObject) -> bool
    decreases s, 2int,
{
    if s.reference is Some {
        true
    } else {
        match chosen_type(s) {
            Some((ty, _)) => match ty {
                InstanceType::Array => array_supported(s),
                InstanceType::Number => number_kind(s.format) is Some,
                InstanceType::Integer => integer_kind(s.format) is Some,
                InstanceType::Object => object_supported(s),
                _ => true,
            },
            None => s.instance_type is None && (match s.subschemas {
                Some(sub) => all_supported(sub.one_of) && all_supported(sub.any_of)
                    && all_supported(sub.all_of),
                None => false,
            }),
        }
    }
}

/// Whether every schema of a list can be documented.
pub open spec fn each_supported(v: Vec<SchemaObject>) -> bool
    decreases v, 0int,
{
    forall|i: int| 0 <= i < v.len() ==> supported(#[trigger] v[i])
}

/// [`each_supported`] of a list that may be missing.
pub open spec fn all_supported(v: Option<Vec<SchemaObject>>) -> bool
    decreases v, 1int,
{
    match v {
        Some(v) => each_supported(v),
        None => true,
    }
}

/// Whether every schema of a list can be documented as an object.
pub open spec fn each_object(v: Vec<SchemaObject>) -> bool
    decreases v, 0int,
{
    forall|i: int|
        0 <= i < v.len() ==> supported(#[trigger] v[i]) && parsed_schema(v[i]).kind is Object
}

/// [`each_object`] of a list that may be missing.
pub open spec fn all_objects(v: Option<Vec<SchemaObject>>) -> bool
    decreases v, 1int,
{
    match v {
        Some(v) => each_object(v),
        None => true,
    }
}

/// Whether the array part of a schema can be documented: with equal
/// bounds it is a tuple and says what its items are; else it is an array
/// with one schema for all items.
pub open spec fn array_supported(s: SchemaObject) -> bool
    decreases s, 1int,
{
    match s.array {
        Some(array) => if array.min_items is Some && array.max_items == array.min_items {
            match array.items {
                Some(Items::Single(item)) => array.min_items->0 > 0 ==> supported(*item),
                Some(Items::Many(items)) => each_supported(items),
                None => false,
            }
        } else {
            match array.items {
                Some(Items::Single(item)) => supported(*item),
                _ => false,
            }
        },
        None => false,
    }
}

/// Whether the object part of a schema can be documented: a map whose
/// values can be, or properties that can be, together with combined
/// schemas that are objects themselves.
pub open spec fn object_supported(s: SchemaObject) -> bool
    decreases s, 1int,
{
    match s.object {
        Some(object) => match object.additional_properties {
            Some(value) => supported(*value),
            None => {
                &&& forall|i: int|
                    0 <= i < object.properties.len() ==> supported(
                        (#[trigger] object.properties[i]).schema,
                    )
                &&& match s.subschemas {
                    Some(sub) => all_objects(sub.one_of) && all_objects(sub.any_of) && all_objects(
                        sub.all_of,
                    ),
                    None => true,
                }
            },
        },
        None => false,
    }
}

/// The definition that documents a schema.
///
/// A reference becomes a `Ref`. A schema with a JSON type becomes the kind
/// of that type, optional if `null` is accepted beside it. A schema
/// without one becomes the union of the schemas it combines, without the
/// `Null` ones, and optional if there was one. Title and description come
/// from the metadata.
pub open spec fn parsed_schema(s: SchemaObject) -> TypeDefinitionView
    decreases s, 2int,
{
    let name = schema_title(s);
    let description = schema_description(s);
    if s.reference is Some {
        TypeDefinition::spec_complex(name, description, KindView::Ref(s.reference->0@), false)
    } else {
        match chosen_type(s) {
            Some((ty, is_optional)) => {
                let kind = match ty {
                    InstanceType::Boolean => KindView::Bool,
                    InstanceType::Array => parsed_array_or_tuple(s),
                    InstanceType::String => string_kind(s.enum_values, is_optional),
                    InstanceType::Number => number_kind(s.format)->0,
                    InstanceType::Integer => integer_kind(s.format)->0,
                    InstanceType::Object => parsed_object(s),
                    InstanceType::Null => KindView::Null,
                };
                TypeDefinition::spec_complex(name, description, kind, is_optional)
            },
            None => {
                let types = match s.subschemas {
                    Some(sub) => parsed_schemas(sub.one_of) + parsed_schemas(sub.any_of)
                        + parsed_schemas(sub.all_of),
                    None => Seq::empty(),
                };
                TypeDefinition::spec_complex(
                    name,
                    description,
                    KindView::Union(types.filter(not_null())),
                    has_null(types),
                )
            },
        }
    }
}

/// The definitions that document the schemas of a list.
pub open spec fn parsed_each(v: Vec<SchemaObject>) -> Seq<TypeDefinitionView>
    decreases v, 0int,
{
    Seq::new(
        v.len() as nat,
        |i: int|
            if 0 <= i < v.len() {
                parsed_schema(v[i])
            } else {
                arbitrary()
            },
    )
}

/// [`parsed_each`] of a list that may be missing.
pub open spec fn parsed_schemas(v: Option<Vec<SchemaObject>>) -> Seq<TypeDefinitionView>
    decreases v, 1int,
{
    match v {
        Some(v) => parsed_each(v),
        None => Seq::empty(),
    }
}

/// The object definitions that document the schemas of a list, each with
/// `properties` before its own.
pub open spec fn parsed_objects(
    v: Option<Vec<SchemaObject>>,
    properties: Seq<ObjectPropertyView>,
) -> Seq<TypeDefinitionView>
    decreases v, 1int,
{
    match v {
        Some(v) => Seq::new(
            v.len() as nat,
            |i: int|
                if 0 <= i < v.len() {
                    with_properties(parsed_schema(v[i]), properties)
                } else {
                    arbitrary()
                },
        ),
        None => Seq::empty(),
    }
}

/// The kind of an array schema: a tuple where the bounds are equal (one
/// item schema repeated, or one per position), else an array.
pub open spec fn parsed_array_or_tuple(s: SchemaObject) -> KindView
    decreases s, 1int,
{
    match s.array {
        Some(array) => if array.min_items is Some && array.max_items == array.min_items {
            match array.items {
                Some(Items::Single(item)) => KindView::Tuple(
                    Seq::new(array.min_items->0 as nat, |i: int| parsed_schema(*item)),
                ),
                Some(Items::Many(items)) => KindView::Tuple(parsed_each(items)),
                None => arbitrary(),
            }
        } else {
            match array.items {
                Some(Items::Single(item)) => KindView::Array(Box::new(parsed_schema(*item))),
                _ => arbitrary(),
            }
        },
        None => arbitrary(),
    }
}

/// The documented properties of an object schema.
pub open spec fn parsed_properties(v: Vec<Property>) -> Seq<ObjectPropertyView>
    decreases v, 0int,
{
    Seq::new(
        v.len() as nat,
        |i: int|
            if 0 <= i < v.len() {
                ObjectPropertyView { name: v[i].name@, type_def: parsed_schema(v[i].schema) }
            } else {
                arbitrary()
            },
    )
}

/// The kind of an object schema: a map where it gives a schema for every
/// other property; else, where it combines schemas, the union of those
/// objects, each with this schema's properties before its own; else an
/// object of its properties.
pub open spec fn parsed_object(s: SchemaObject) -> KindView
    decreases s, 1int,
{
    match s.object {
        Some(object) => match object.additional_properties {
            Some(value) => KindView::Mapping { value_type: Box::new(parsed_schema(*value)) },
            None => {
                let properties = parsed_properties(object.properties);
                match s.subschemas {
                    Some(sub) => KindView::Union(
                        parsed_objects(sub.one_of, properties) + parsed_objects(
                            sub.any_of,
                            properties,
                        ) + parsed_objects(sub.all_of, properties),
                    ),
                    None => KindView::Object(properties),
                }
            },
        },
        None => arbitrary(),
    }
}

} // verus!

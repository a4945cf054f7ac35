//! JSON schemas, as far as documentation reads them.

use vstd::prelude::*;

verus! {

/// The JSON types a schema can ask of a value.
#[derive(Clone, Copy, Debug, PartialEq, Eq, Structural)]
pub enum InstanceType {
    Null,
    Boolean,
    Object,
    Array,
    Number,
    String,
    Integer,
}

/// One JSON type or a list of them.
#[derive(Debug)]
pub enum InstanceTypes {
    Single(InstanceType),
    Many(Vec<InstanceType>),
}

/// Title and description of a schema.
#[derive(Debug)]
pub struct Metadata {
    pub title: Option<String>,
    pub description: Option<String>,
}

/// The schemas that a schema combines.
#[derive(Debug)]
pub struct SubschemaValidation {
    pub one_of: Option<Vec<SchemaObject>>,
    pub any_of: Option<Vec<SchemaObject>>,
    pub all_of: Option<Vec<SchemaObject>>,
}

/// One schema for every item of an array, or one per position.
#[derive(Debug)]
pub enum Items {
    Single(Box<SchemaObject>),
    Many(Vec<SchemaObject>),
}

/// What a schema asks of an array.
#[derive(Debug)]
pub struct ArrayValidation {
    pub items: Option<Items>,
    pub min_items: Option<u32>,
    pub max_items: Option<u32>,
}

/// A named property of an object schema.
#[derive(Debug)]
pub struct Property {
    pub name: String,
    pub schema: SchemaObject,
}

/// What a schema asks of an object.
#[derive(Debug)]
pub struct ObjectValidation {
    /// The properties, in the order in which they are documented.
    pub properties: Vec<Property>,
    /// The schema of every other property, where one is given.
    pub additional_properties: Option<Box<SchemaObject>>,
}

/// A JSON schema, as far as documentation reads it.
#[derive(Debug, Default)]
pub struct SchemaObject {
    pub metadata: Option<Metadata>,
    pub instance_type: Option<InstanceTypes>,
    pub format: Option<String>,
    /// The values of an enumeration; `None` stands for one that is no
    /// string.
    pub enum_values: Option<Vec<Option<String>>>,
    pub subschemas: Option<SubschemaValidation>,
    pub array: Option<ArrayValidation>,
    pub object: Option<ObjectValidation>,
    pub reference: Option<String>,
}

/// A schema that a root schema defines under a name.
#[derive(Debug)]
pub struct Definition {
    pub name: String,
    pub schema: SchemaObject,
}

/// The schema of a type together with the schemas it refers to.
#[derive(Debug)]
pub struct RootSchema {
    pub schema: SchemaObject,
    pub definitions: Vec<Definition>,
}

} // verus!

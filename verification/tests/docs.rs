use live_compositor::generate_docs::docs_config::DocsConfig;
use live_compositor::generate_docs::parsing::{
    flatten_subschemas, generate_docs, is_supported, parse_array_or_tuple, parse_object,
    parse_schema, populate_page, should_inline, try_generate_docs, try_populate_page, DocPage,
};
use live_compositor::generate_docs::schema::{
    ArrayValidation, Definition, InstanceType, InstanceTypes, Items, Metadata, ObjectValidation,
    Property, RootSchema, SchemaObject, SubschemaValidation,
};
use live_compositor::generate_docs::simplify::{
    flatten_union_definition, inline_definition, merge_descriptions,
};
use live_compositor::generate_docs::type_definition::{Kind, ObjectProperty, TypeDefinition};

fn s(text: &str) -> String {
    text.to_string()
}

fn named(name: &str, kind: Kind) -> TypeDefinition {
    TypeDefinition::complex(Some(s(name)), None, kind, false)
}

fn described(name: &str, description: &str, kind: Kind) -> TypeDefinition {
    TypeDefinition::complex(Some(s(name)), Some(s(description)), kind, false)
}

fn string_variant(value: &str) -> TypeDefinition {
    TypeDefinition::simple(Kind::String(Some(s(value))), false)
}

fn typed(ty: InstanceType) -> SchemaObject {
    SchemaObject { instance_type: Some(InstanceTypes::Single(ty)), ..SchemaObject::default() }
}

fn number(format: &str) -> SchemaObject {
    SchemaObject { format: Some(s(format)), ..typed(InstanceType::Number) }
}

fn integer(format: &str) -> SchemaObject {
    SchemaObject { format: Some(s(format)), ..typed(InstanceType::Integer) }
}

fn reference(name: &str) -> SchemaObject {
    SchemaObject { reference: Some(s(name)), ..SchemaObject::default() }
}

fn object(properties: Vec<(&str, SchemaObject)>) -> SchemaObject {
    SchemaObject {
        object: Some(ObjectValidation {
            properties: properties
                .into_iter()
                .map(|(name, schema)| Property { name: s(name), schema })
                .collect(),
            additional_properties: None,
        }),
        ..typed(InstanceType::Object)
    }
}

fn one_of(schemas: Vec<SchemaObject>) -> SubschemaValidation {
    SubschemaValidation { one_of: Some(schemas), any_of: None, all_of: None }
}

fn config() -> DocsConfig {
    DocsConfig::default()
}

fn names(page: &DocPage) -> Vec<Option<String>> {
    page.definitions().iter().map(|d| d.name.clone()).collect()
}

#[test]
fn a_new_page_is_empty() {
    let page = DocPage::new(s("Title"));
    assert_eq!(page.title, "Title");
    assert!(page.definitions().is_empty());
    assert_eq!(page.to_markdown(&config()), "");
}

#[test]
fn definitions_are_added_at_the_end() {
    let mut page = DocPage::new(s("Title"));
    page.add_definition(named("A", Kind::Bool));
    page.add_definition(named("B", Kind::Null));
    assert_eq!(names(&page), vec![Some(s("A")), Some(s("B"))]);
    assert!(page.contains_definition(&s("A")));
    assert!(page.contains_definition(&s("B")));
    assert!(!page.contains_definition(&s("C")));
}

#[test]
fn a_page_does_not_contain_the_name_of_an_unnamed_definition() {
    let mut page = DocPage::new(s("Title"));
    page.add_definition(TypeDefinition::simple(Kind::Bool, false));
    assert!(!page.contains_definition(&s("")));
}

#[test]
fn removing_takes_every_definition_of_that_name() {
    let mut page = DocPage::new(s("Title"));
    page.add_definition(named("A", Kind::Bool));
    page.add_definition(named("B", Kind::Null));
    page.add_definition(named("A", Kind::I32));
    page.add_definition(TypeDefinition::simple(Kind::U8, false));
    page.remove_definition(&s("A"));
    assert_eq!(names(&page), vec![Some(s("B")), None]);
    page.remove_definition(&s("missing"));
    assert_eq!(page.definitions().len(), 2);
}

#[test]
fn descriptions_are_merged_with_a_full_stop_between_them() {
    assert_eq!(merge_descriptions(Some(s("First")), Some(s("Second"))), Some(s("First. Second")));
    assert_eq!(merge_descriptions(Some(s("First.")), Some(s("Second"))), Some(s("First. Second")));
    assert_eq!(merge_descriptions(Some(s("")), Some(s("Second"))), Some(s(". Second")));
    assert_eq!(merge_descriptions(Some(s("First")), None), Some(s("First")));
    assert_eq!(merge_descriptions(None, Some(s("Second"))), Some(s("Second")));
    assert_eq!(merge_descriptions(None, None), None);
}

#[test]
fn complex_gathers_the_references_of_the_kind() {
    let reference = named("r", Kind::Ref(s("Target")));
    assert_eq!(reference.references, vec![s("Target")]);
    let tuple = named(
        "t",
        Kind::Tuple(vec![named("a", Kind::Ref(s("A"))), named("b", Kind::Bool), named("c", Kind::Ref(s("C")))]),
    );
    assert_eq!(tuple.references, vec![s("A"), s("C")]);
    let object = named(
        "o",
        Kind::Object(vec![
            ObjectProperty { name: s("x"), type_def: named("a", Kind::Ref(s("A"))) },
            ObjectProperty { name: s("y"), type_def: tuple.clone() },
        ]),
    );
    assert_eq!(object.references, vec![s("A"), s("A"), s("C")]);
    let array = named("arr", Kind::Array(Box::new(named("a", Kind::Ref(s("A"))))));
    assert_eq!(array.references, vec![s("A")]);
    let map = named("m", Kind::Mapping { value_type: Box::new(named("a", Kind::Ref(s("V")))) });
    assert_eq!(map.references, vec![s("V")]);
    assert!(named("b", Kind::Bool).references.is_empty());
}

#[test]
fn cloning_a_definition_gives_an_equal_one() {
    let def = described(
        "o",
        "An object",
        Kind::Object(vec![ObjectProperty {
            name: s("x"),
            type_def: named("u", Kind::Union(vec![string_variant("a"), named("r", Kind::Ref(s("R")))])),
        }]),
    );
    assert_eq!(def.clone(), def);
}

#[test]
fn a_definition_that_is_no_union_is_not_flattened() {
    let def = described("A", "text", Kind::Array(Box::new(named("x", Kind::Bool))));
    assert_eq!(flatten_union_definition(def.clone()), def);
}

#[test]
fn nested_unions_are_lifted_into_the_union() {
    let inner = TypeDefinition::complex(
        None,
        Some(s("Inner")),
        Kind::Union(vec![string_variant("b"), string_variant("c")]),
        false,
    );
    let outer = described(
        "Outer",
        "Outer",
        Kind::Union(vec![string_variant("a"), inner, string_variant("d")]),
    );
    let flat = flatten_union_definition(outer);
    assert_eq!(flat.name, Some(s("Outer")));
    assert_eq!(flat.description, Some(s("Outer. Inner")));
    assert_eq!(
        flat.kind,
        Kind::Union(vec![
            string_variant("a"),
            string_variant("d"),
            string_variant("b"),
            string_variant("c"),
        ])
    );
}

#[test]
fn a_union_of_one_variant_becomes_that_variant() {
    let variant = TypeDefinition::complex(None, Some(s("Only one")), Kind::Ref(s("Target")), true);
    let union = TypeDefinition::complex(Some(s("U")), Some(s("A union.")), Kind::Union(vec![variant]), false);
    let flat = flatten_union_definition(union);
    assert_eq!(flat.name, Some(s("U")));
    assert_eq!(flat.description, Some(s("A union. Only one")));
    assert_eq!(flat.kind, Kind::Ref(s("Target")));
    assert!(!flat.is_optional);
    assert_eq!(flat.references, vec![s("Target")]);
}

#[test]
fn a_union_with_one_nested_union_of_one_variant_becomes_that_variant() {
    let inner = TypeDefinition::complex(None, None, Kind::Union(vec![string_variant("x")]), false);
    let union = named("U", Kind::Union(vec![inner]));
    let flat = flatten_union_definition(union);
    assert_eq!(flat.kind, Kind::String(Some(s("x"))));
    assert_eq!(flat.name, Some(s("U")));
}

#[test]
fn an_empty_union_stays_an_empty_union() {
    let union = named("U", Kind::Union(vec![]));
    assert_eq!(flatten_union_definition(union).kind, Kind::Union(vec![]));
}

#[test]
fn references_to_inlined_definitions_are_replaced() {
    let inline = vec![described("Port", "A port number", Kind::U16)];
    let def = TypeDefinition::complex(Some(s("port")), Some(s("Where to listen")), Kind::Ref(s("Port")), false);
    let inlined = inline_definition(def, &inline);
    assert_eq!(inlined.name, Some(s("port")));
    assert_eq!(inlined.kind, Kind::U16);
    assert_eq!(inlined.description, Some(s("Where to listen. A port number")));
    assert!(!inlined.is_optional);
}

#[test]
fn an_inlined_optional_definition_makes_its_user_optional() {
    let inline = vec![TypeDefinition::complex(Some(s("Port")), None, Kind::U16, true)];
    let inlined = inline_definition(named("port", Kind::Ref(s("Port"))), &inline);
    assert!(inlined.is_optional);
    assert_eq!(inlined.description, None);
}

#[test]
fn the_last_of_the_inlined_definitions_with_a_name_counts() {
    let inline = vec![named("X", Kind::U16), named("X", Kind::Bool)];
    let inlined = inline_definition(named("x", Kind::Ref(s("X"))), &inline);
    assert_eq!(inlined.kind, Kind::Bool);
}

#[test]
fn references_to_other_definitions_stay() {
    let inline = vec![named("Port", Kind::U16)];
    let def = named("x", Kind::Ref(s("Other")));
    assert_eq!(inline_definition(def.clone(), &inline), def);
}

#[test]
fn references_are_replaced_inside_tuples_arrays_objects_and_unions() {
    let inline = vec![named("Port", Kind::U16)];
    let port = || named("p", Kind::Ref(s("Port")));
    let replaced = || TypeDefinition {
        name: Some(s("p")),
        description: None,
        kind: Kind::U16,
        is_optional: false,
        references: vec![s("Port")],
    };
    let tuple = inline_definition(named("t", Kind::Tuple(vec![port(), named("b", Kind::Bool)])), &inline);
    assert_eq!(tuple.kind, Kind::Tuple(vec![replaced(), named("b", Kind::Bool)]));
    let array = inline_definition(named("a", Kind::Array(Box::new(port()))), &inline);
    assert_eq!(array.kind, Kind::Array(Box::new(replaced())));
    let object = inline_definition(
        named("o", Kind::Object(vec![ObjectProperty { name: s("port"), type_def: port() }])),
        &inline,
    );
    assert_eq!(object.kind, Kind::Object(vec![ObjectProperty { name: s("port"), type_def: replaced() }]));
    let union = inline_definition(named("u", Kind::Union(vec![port(), named("b", Kind::Bool)])), &inline);
    assert_eq!(union.kind, Kind::Union(vec![replaced(), named("b", Kind::Bool)]));
}

#[test]
fn references_inside_maps_stay() {
    let inline = vec![named("Port", Kind::U16)];
    let map = named("m", Kind::Mapping { value_type: Box::new(named("p", Kind::Ref(s("Port")))) });
    assert_eq!(inline_definition(map.clone(), &inline), map);
}

#[test]
fn a_union_is_flattened_after_its_variants_were_inlined() {
    let inline = vec![named("Letters", Kind::Union(vec![string_variant("a"), string_variant("b")]))];
    let union = named("u", Kind::Union(vec![named("l", Kind::Ref(s("Letters"))), string_variant("c")]));
    let inlined = inline_definition(union, &inline);
    assert_eq!(
        inlined.kind,
        Kind::Union(vec![string_variant("c"), string_variant("a"), string_variant("b")])
    );
}

#[test]
fn plain_kinds_are_inlined_and_others_are_not() {
    let config = config();
    for kind in [Kind::Null, Kind::I32, Kind::F32, Kind::F64, Kind::U32, Kind::U16, Kind::Bool, Kind::String(None)] {
        assert!(should_inline(&named("X", kind), &config));
    }
    assert!(should_inline(&named("X", Kind::Union(vec![string_variant("a"), string_variant("b")])), &config));
    assert!(should_inline(&named("X", Kind::Union(vec![])), &config));
    for kind in [
        Kind::U8,
        Kind::Ref(s("Y")),
        Kind::Tuple(vec![]),
        Kind::Object(vec![]),
        Kind::Array(Box::new(named("b", Kind::Bool))),
        Kind::Union(vec![string_variant("a"), named("b", Kind::Bool)]),
    ] {
        assert!(!should_inline(&named("X", kind), &config));
    }
}

#[test]
fn the_configuration_overrules_the_kind() {
    let config = DocsConfig {
        ignored_definitions: vec![],
        never_inlined_definitions: vec![s("Kept")],
        always_inlined_definitions: vec![s("Folded"), s("Kept")],
    };
    assert!(!should_inline(&named("Kept", Kind::Bool), &config));
    assert!(should_inline(&named("Folded", Kind::Object(vec![])), &config));
    assert!(!should_inline(&named("Other", Kind::Object(vec![])), &config));
}

#[test]
fn simplify_inlines_plain_definitions() {
    let mut page = DocPage::new(s("Root"));
    page.add_definition(named(
        "Root",
        Kind::Object(vec![
            ObjectProperty { name: s("port"), type_def: named("port", Kind::Ref(s("Port"))) },
            ObjectProperty { name: s("child"), type_def: named("child", Kind::Ref(s("Child"))) },
        ]),
    ));
    page.add_definition(described("Port", "A port", Kind::U16));
    page.add_definition(named("Child", Kind::Object(vec![])));
    let config = config();
    assert!(page.can_be_simplified(&config));
    page.simplify(&config);
    assert_eq!(names(&page), vec![Some(s("Root")), Some(s("Child"))]);
    match &page.definitions()[0].kind {
        Kind::Object(properties) => {
            assert_eq!(properties[0].type_def.kind, Kind::U16);
            assert_eq!(properties[0].type_def.description, Some(s("A port")));
            assert_eq!(properties[1].type_def.kind, Kind::Ref(s("Child")));
        }
        other => panic!("unexpected kind {other:?}"),
    }
}

#[test]
fn simplify_keeps_what_the_configuration_never_inlines() {
    let mut page = DocPage::new(s("Root"));
    page.add_definition(named("Root", Kind::Ref(s("Port"))));
    page.add_definition(named("Port", Kind::U16));
    let config = DocsConfig {
        ignored_definitions: vec![],
        never_inlined_definitions: vec![s("Port")],
        always_inlined_definitions: vec![],
    };
    page.simplify(&config);
    assert_eq!(names(&page), vec![Some(s("Root")), Some(s("Port"))]);
    assert_eq!(page.definitions()[0].kind, Kind::Ref(s("Port")));
}

#[test]
fn a_page_with_an_unnamed_plain_definition_cannot_be_simplified() {
    let mut page = DocPage::new(s("Root"));
    page.add_definition(TypeDefinition::simple(Kind::Bool, false));
    assert!(!page.can_be_simplified(&config()));
    let mut other = DocPage::new(s("Root"));
    other.add_definition(TypeDefinition::simple(Kind::Object(vec![]), false));
    assert!(other.can_be_simplified(&config()));
}

#[test]
fn kinds_are_written_as_type_expressions() {
    assert_eq!(Kind::Null.to_text(), "null");
    assert_eq!(Kind::Bool.to_text(), "bool");
    assert_eq!(Kind::I32.to_text(), "i32");
    assert_eq!(Kind::U8.to_text(), "u8");
    assert_eq!(Kind::U16.to_text(), "u16");
    assert_eq!(Kind::U32.to_text(), "u32");
    assert_eq!(Kind::String(None).to_text(), "string");
    assert_eq!(Kind::String(Some(s("rtp"))).to_text(), "\"rtp\"");
    assert_eq!(Kind::Ref(s("Port")).to_text(), "Port");
    assert_eq!(Kind::Tuple(vec![named("a", Kind::Bool), named("b", Kind::U8)]).to_text(), "[bool, u8]");
    assert_eq!(Kind::Tuple(vec![]).to_text(), "[]");
    assert_eq!(Kind::Union(vec![string_variant("a"), string_variant("b")]).to_text(), "\"a\" | \"b\"");
    assert_eq!(Kind::Array(Box::new(named("a", Kind::U8))).to_text(), "u8[]");
    assert_eq!(
        Kind::Mapping { value_type: Box::new(named("a", Kind::Ref(s("V")))) }.to_text(),
        "Map<string, V>"
    );
    let optional = TypeDefinition::complex(None, None, Kind::U16, true);
    assert_eq!(
        Kind::Object(vec![
            ObjectProperty { name: s("id"), type_def: named("id", Kind::String(None)) },
            ObjectProperty { name: s("port"), type_def: optional },
        ])
        .to_text(),
        "{ id: string; port?: u16 }"
    );
}

#[test]
fn a_definition_is_a_section_of_markdown() {
    let def = described("Port", "Where to listen.", Kind::U16);
    assert_eq!(def.to_markdown(), "## Port\n```typescript\ntype Port = u16\n```\nWhere to listen.\n");
    let bare = TypeDefinition::simple(Kind::Bool, false);
    assert_eq!(bare.to_markdown(), "## \n```typescript\ntype  = bool\n```\n\n");
}

#[test]
fn the_markdown_of_a_page_is_its_sections_in_order() {
    let mut page = DocPage::new(s("Title"));
    page.add_definition(named("A", Kind::Bool));
    page.add_definition(named("B", Kind::Null));
    let a = "## A\n```typescript\ntype A = bool\n```\n\n";
    let b = "## B\n```typescript\ntype B = null\n```\n\n";
    assert_eq!(page.to_markdown(&config()), format!("{a}\n{b}"));
}

#[test]
fn a_reference_is_parsed_as_a_reference() {
    let schema = SchemaObject {
        metadata: Some(Metadata { title: Some(s("T")), description: Some(s("D")) }),
        ..reference("Target")
    };
    let def = parse_schema(&schema);
    assert_eq!(def.name, Some(s("T")));
    assert_eq!(def.description, Some(s("D")));
    assert_eq!(def.kind, Kind::Ref(s("Target")));
    assert!(!def.is_optional);
    assert_eq!(def.references, vec![s("Target")]);
}

#[test]
fn scalars_are_parsed_by_type_and_format() {
    assert_eq!(parse_schema(&typed(InstanceType::Boolean)).kind, Kind::Bool);
    assert_eq!(parse_schema(&typed(InstanceType::Null)).kind, Kind::Null);
    assert_eq!(parse_schema(&typed(InstanceType::String)).kind, Kind::String(None));
    assert_eq!(parse_schema(&number("float")).kind, Kind::F32);
    assert_eq!(parse_schema(&number("double")).kind, Kind::F64);
    assert_eq!(parse_schema(&integer("uint32")).kind, Kind::U32);
    assert_eq!(parse_schema(&integer("uint")).kind, Kind::U32);
    assert_eq!(parse_schema(&integer("int32")).kind, Kind::I32);
    assert_eq!(parse_schema(&integer("int")).kind, Kind::I32);
    assert_eq!(parse_schema(&integer("uint16")).kind, Kind::U16);
    assert_eq!(parse_schema(&integer("uint8")).kind, Kind::U8);
}

#[test]
fn a_type_beside_null_is_optional() {
    for types in [
        vec![InstanceType::Boolean, InstanceType::Null],
        vec![InstanceType::Null, InstanceType::Boolean],
    ] {
        let schema = SchemaObject {
            instance_type: Some(InstanceTypes::Many(types)),
            ..SchemaObject::default()
        };
        let def = parse_schema(&schema);
        assert_eq!(def.kind, Kind::Bool);
        assert!(def.is_optional);
    }
}

#[test]
fn string_enumerations_are_parsed_by_their_length() {
    let with = |values: Vec<Option<&str>>| SchemaObject {
        enum_values: Some(values.into_iter().map(|v| v.map(s)).collect()),
        ..typed(InstanceType::String)
    };
    assert_eq!(parse_schema(&with(vec![])).kind, Kind::String(None));
    assert_eq!(parse_schema(&with(vec![Some("rtp")])).kind, Kind::String(Some(s("rtp"))));
    assert_eq!(parse_schema(&with(vec![None])).kind, Kind::String(None));
    assert_eq!(
        parse_schema(&with(vec![Some("a"), Some("b")])).kind,
        Kind::Union(vec![string_variant("a"), string_variant("b")])
    );
}

#[test]
fn combined_schemas_are_parsed_as_a_union_without_null() {
    let schema = SchemaObject {
        subschemas: Some(SubschemaValidation {
            one_of: Some(vec![typed(InstanceType::Boolean)]),
            any_of: Some(vec![typed(InstanceType::Null), reference("A")]),
            all_of: Some(vec![reference("B")]),
        }),
        ..SchemaObject::default()
    };
    let def = parse_schema(&schema);
    assert!(def.is_optional);
    match &def.kind {
        Kind::Union(variants) => {
            let kinds: Vec<&Kind> = variants.iter().map(|v| &v.kind).collect();
            assert_eq!(kinds, vec![&Kind::Bool, &Kind::Ref(s("A")), &Kind::Ref(s("B"))]);
        }
        other => panic!("unexpected kind {other:?}"),
    }
    assert_eq!(def.references, vec![s("A"), s("B")]);
}

#[test]
fn combined_schemas_without_null_are_not_optional() {
    let schema = SchemaObject {
        subschemas: Some(one_of(vec![typed(InstanceType::Boolean)])),
        ..SchemaObject::default()
    };
    assert!(!parse_schema(&schema).is_optional);
}

#[test]
fn subschemas_are_flattened_in_the_order_one_any_all() {
    let sub = SubschemaValidation {
        one_of: Some(vec![reference("1")]),
        any_of: None,
        all_of: Some(vec![reference("2"), reference("3")]),
    };
    let flat = flatten_subschemas(&sub);
    let refs: Vec<Option<String>> = flat.iter().map(|s| s.reference.clone()).collect();
    assert_eq!(refs, vec![Some(s("1")), Some(s("2")), Some(s("3"))]);
    let none = SubschemaValidation { one_of: None, any_of: None, all_of: None };
    assert!(flatten_subschemas(&none).is_empty());
}

#[test]
fn an_array_with_equal_bounds_is_a_tuple() {
    let repeated = SchemaObject {
        array: Some(ArrayValidation {
            items: Some(Items::Single(Box::new(typed(InstanceType::Boolean)))),
            min_items: Some(3),
            max_items: Some(3),
        }),
        ..typed(InstanceType::Array)
    };
    let bool_def = parse_schema(&typed(InstanceType::Boolean));
    assert_eq!(
        parse_array_or_tuple(&repeated),
        Kind::Tuple(vec![bool_def.clone(), bool_def.clone(), bool_def.clone()])
    );
    let listed = SchemaObject {
        array: Some(ArrayValidation {
            items: Some(Items::Many(vec![typed(InstanceType::Boolean), integer("uint8")])),
            min_items: Some(2),
            max_items: Some(2),
        }),
        ..typed(InstanceType::Array)
    };
    assert_eq!(
        parse_schema(&listed).kind,
        Kind::Tuple(vec![bool_def, parse_schema(&integer("uint8"))])
    );
}

#[test]
fn an_array_with_other_bounds_is_an_array() {
    for (min_items, max_items) in [(None, None), (Some(1), None), (Some(1), Some(2)), (None, Some(2))] {
        let schema = SchemaObject {
            array: Some(ArrayValidation {
                items: Some(Items::Single(Box::new(reference("Item")))),
                min_items,
                max_items,
            }),
            ..typed(InstanceType::Array)
        };
        assert!(is_supported(&schema));
        assert_eq!(
            parse_array_or_tuple(&schema),
            Kind::Array(Box::new(parse_schema(&reference("Item"))))
        );
    }
}

#[test]
fn an_object_is_parsed_property_by_property() {
    let schema = object(vec![("id", typed(InstanceType::String)), ("child", reference("Child"))]);
    let kind = parse_object(&schema);
    assert_eq!(
        kind,
        Kind::Object(vec![
            ObjectProperty { name: s("id"), type_def: parse_schema(&typed(InstanceType::String)) },
            ObjectProperty { name: s("child"), type_def: parse_schema(&reference("Child")) },
        ])
    );
    assert_eq!(parse_schema(&schema).references, vec![s("Child")]);
}

#[test]
fn an_object_with_a_schema_for_other_properties_is_a_map() {
    let schema = SchemaObject {
        object: Some(ObjectValidation {
            properties: vec![Property { name: s("ignored"), schema: SchemaObject::default() }],
            additional_properties: Some(Box::new(reference("Value"))),
        }),
        ..typed(InstanceType::Object)
    };
    assert!(is_supported(&schema));
    assert_eq!(
        parse_object(&schema),
        Kind::Mapping { value_type: Box::new(parse_schema(&reference("Value"))) }
    );
}

#[test]
fn an_object_that_combines_objects_is_a_union_of_extended_objects() {
    let base = object(vec![("type", typed(InstanceType::String))]);
    let schema = SchemaObject {
        subschemas: Some(one_of(vec![
            object(vec![("a", typed(InstanceType::Boolean))]),
            object(vec![]),
        ])),
        ..base
    };
    let ty = ObjectProperty { name: s("type"), type_def: parse_schema(&typed(InstanceType::String)) };
    let a = ObjectProperty { name: s("a"), type_def: parse_schema(&typed(InstanceType::Boolean)) };
    match parse_object(&schema) {
        Kind::Union(variants) => {
            assert_eq!(variants.len(), 2);
            assert_eq!(variants[0].kind, Kind::Object(vec![ty.clone(), a]));
            assert_eq!(variants[1].kind, Kind::Object(vec![ty]));
        }
        other => panic!("unexpected kind {other:?}"),
    }
}

#[test]
fn schemas_that_cannot_be_documented_are_told_apart() {
    assert!(!is_supported(&SchemaObject::default()));
    assert!(!is_supported(&number("half")));
    assert!(!is_supported(&typed(InstanceType::Number)));
    assert!(!is_supported(&integer("int64")));
    assert!(!is_supported(&typed(InstanceType::Array)));
    assert!(!is_supported(&typed(InstanceType::Object)));
    let three = SchemaObject {
        instance_type: Some(InstanceTypes::Many(vec![
            InstanceType::Boolean,
            InstanceType::String,
            InstanceType::Null,
        ])),
        ..SchemaObject::default()
    };
    assert!(!is_supported(&three));
    let two = SchemaObject {
        instance_type: Some(InstanceTypes::Many(vec![InstanceType::Boolean, InstanceType::String])),
        ..SchemaObject::default()
    };
    assert!(!is_supported(&two));
    let tuple_without_items = SchemaObject {
        array: Some(ArrayValidation { items: None, min_items: Some(2), max_items: Some(2) }),
        ..typed(InstanceType::Array)
    };
    assert!(!is_supported(&tuple_without_items));
    let array_of_list = SchemaObject {
        array: Some(ArrayValidation { items: Some(Items::Many(vec![])), min_items: None, max_items: None }),
        ..typed(InstanceType::Array)
    };
    assert!(!is_supported(&array_of_list));
    let not_objects = SchemaObject {
        subschemas: Some(one_of(vec![typed(InstanceType::Boolean)])),
        ..object(vec![])
    };
    assert!(!is_supported(&not_objects));
    assert!(!is_supported(&object(vec![("bad", SchemaObject::default())])));
    assert!(is_supported(&object(vec![("good", typed(InstanceType::Null))])));
    assert!(is_supported(&reference("anything")));
}

#[test]
fn an_empty_tuple_needs_no_item_that_can_be_documented() {
    let schema = SchemaObject {
        array: Some(ArrayValidation {
            items: Some(Items::Single(Box::new(SchemaObject::default()))),
            min_items: Some(0),
            max_items: Some(0),
        }),
        ..typed(InstanceType::Array)
    };
    assert!(is_supported(&schema));
    assert_eq!(parse_schema(&schema).kind, Kind::Tuple(vec![]));
}

fn root() -> RootSchema {
    RootSchema {
        schema: object(vec![
            ("port", reference("Port")),
            ("child", reference("Child")),
            ("skipped", reference("Skipped")),
        ]),
        definitions: vec![
            Definition { name: s("Child"), schema: object(vec![("port", reference("Port")), ("again", reference("Child"))]) },
            Definition { name: s("Port"), schema: integer("uint16") },
            Definition { name: s("Unused"), schema: typed(InstanceType::Boolean) },
        ],
    }
}

fn ignoring_skipped() -> DocsConfig {
    DocsConfig {
        ignored_definitions: vec![s("Skipped")],
        never_inlined_definitions: vec![],
        always_inlined_definitions: vec![],
    }
}

#[test]
fn a_page_is_populated_by_following_references() {
    let root = root();
    let mut page = DocPage::new(s("Root"));
    populate_page(&mut page, s("Root"), &root.schema, &root, &ignoring_skipped());
    assert_eq!(names(&page), vec![Some(s("Root")), Some(s("Port")), Some(s("Child"))]);
    assert_eq!(page.definitions()[1].kind, Kind::U16);
}

#[test]
fn a_page_is_not_populated_where_a_reference_leads_nowhere() {
    let root = root();
    let mut page = DocPage::new(s("Root"));
    page.add_definition(named("Before", Kind::Bool));
    assert!(!try_populate_page(&mut page, s("Root"), &root.schema, &root, &config()));
    assert_eq!(names(&page), vec![Some(s("Before"))]);
    assert!(try_populate_page(&mut page, s("Root"), &root.schema, &root, &ignoring_skipped()));
    assert_eq!(page.definitions().len(), 4);
}

#[test]
fn a_page_is_not_populated_from_a_schema_that_cannot_be_documented() {
    let root = RootSchema { schema: SchemaObject::default(), definitions: vec![] };
    let mut page = DocPage::new(s("Root"));
    assert!(!try_populate_page(&mut page, s("Root"), &root.schema, &root, &config()));
    let bad_definition = RootSchema {
        schema: reference("Bad"),
        definitions: vec![Definition { name: s("Bad"), schema: SchemaObject::default() }],
    };
    assert!(!try_populate_page(&mut page, s("Root"), &bad_definition.schema, &bad_definition, &config()));
    assert!(page.definitions().is_empty());
}

#[test]
fn docs_are_generated_and_simplified() {
    let root = root();
    let page = generate_docs("Root", &root, &ignoring_skipped());
    assert_eq!(page.title, "Root");
    assert_eq!(names(&page), vec![Some(s("Root")), Some(s("Child"))]);
    let expected_root = "## Root\n```typescript\ntype Root = { port: u16; child: Child; skipped: Skipped }\n```\n\n";
    let expected_child = "## Child\n```typescript\ntype Child = { port: u16; again: Child }\n```\n\n";
    assert_eq!(page.to_markdown(&ignoring_skipped()), format!("{expected_root}\n{expected_child}"));
}

#[test]
fn docs_are_not_generated_where_a_reference_leads_nowhere() {
    assert!(try_generate_docs("Root", &root(), &config()).is_none());
    assert!(try_generate_docs("Root", &root(), &ignoring_skipped()).is_some());
}

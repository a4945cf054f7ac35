//! Pages of documentation and how they are made from schemas.

use crate::generate_docs::docs_config::{DocsConfig, DocsConfigView};
use crate::generate_docs::markdown::{markdown_of, page_markdown};
use crate::generate_docs::parsed::{
    all_objects, all_supported, array_supported, chosen_type, each_object, each_supported,
    flattened_subschemas, has_null, integer_kind, listed, not_null, number_kind, object_supported,
    parsed_array_or_tuple, parsed_each, parsed_object, parsed_objects, parsed_properties,
    parsed_schema, parsed_schemas, string_kind, supported,
    with_properties,
};
use crate::generate_docs::schema::{
    Definition, InstanceType, InstanceTypes, Items, RootSchema, SchemaObject,
    SubschemaValidation,
};
use crate::generate_docs::simplify::{
    find_inline, flatten_union_definition, flattened_union, inline_definition, inline_lookup,
    inlined_definition, inlined_definitions,
};
use crate::text::{
    clone_opt_text, clone_texts, contains_text, extend_texts, lemma_filter_none, lemma_filter_step, opt_text,
    same_text, text_is, texts,
};
use crate::generate_docs::type_definition::{
    clone_defs, clone_props, def_view, defs_view, lemma_kind_view_lists, prop_view, props_view,
    Kind, KindView, ObjectProperty, ObjectPropertyView, TypeDefinition, TypeDefinitionView,
};
use vstd::prelude::*;

verus! {

/// A page of documentation: a title and the definitions under it.
#[derive(Debug)]
pub struct DocPage {
    pub title: String,
    definitions: Vec<TypeDefinition>,
}

/// Mathematical value of a [`DocPage`].
pub struct DocPageView {
    pub title: Seq<char>,
    pub definitions: Seq<TypeDefinitionView>,
}

impl View for DocPage {
    type V = DocPageView;

    closed spec fn view(&self) -> DocPageView {
        DocPageView { title: self.title@, definitions: defs_view(self.definitions@) }
    }
}

/// Holds of the definitions that do not bear `name`.
pub open spec fn named_otherwise(name: Seq<char>) -> spec_fn(TypeDefinitionView) -> bool {
    |d: TypeDefinitionView| d.name != Some(name)
}

/// Whether a definition named `name` is among `defs`.
pub open spec fn has_definition(defs: Seq<TypeDefinitionView>, name: Seq<char>) -> bool {
    exists|i: int| 0 <= i < defs.len() && (#[trigger] defs[i]).name == Some(name)
}

/// Kinds that say all there is to say in a few words: the scalars (`U8`
/// is not one of them), strings, and unions of nothing but strings.
pub open spec fn is_plain(k: KindView) -> bool {
    match k {
        KindView::Null
        | KindView::I32
        | KindView::F32
        | KindView::F64
        | KindView::U32
        | KindView::U16
        | KindView::Bool
        | KindView::String(_) => true,
        KindView::Union(vs) => forall|i: int| 0 <= i < vs.len() ==> (#[trigger] vs[i]).kind is String,
        _ => false,
    }
}

/// Whether a definition is folded into its users: not if the configuration
/// keeps its name on the page; else if its kind is plain or the
/// configuration asks for its name.
pub open spec fn is_inlined(config: DocsConfigView, d: TypeDefinitionView) -> bool {
    &&& !(d.name is Some && config.never_inlined_definitions.contains(d.name->0))
    &&& (is_plain(d.kind) || (d.name is Some && config.always_inlined_definitions.contains(
        d.name->0,
    )))
}

/// [`is_inlined`] as a predicate on definitions.
pub open spec fn inlined_under(config: DocsConfigView) -> spec_fn(TypeDefinitionView) -> bool {
    |d: TypeDefinitionView| is_inlined(config, d)
}

/// Holds of the definitions that stay on the page: those without a name,
/// and those whose name none of `inline` bears.
pub open spec fn stays_beside(inline: Seq<TypeDefinitionView>) -> spec_fn(
    TypeDefinitionView,
) -> bool {
    |d: TypeDefinitionView|
        match d.name {
            Some(name) => inline_lookup(inline, inline.len() as int, name) is None,
            None => true,
        }
}

/// Each definition with its nested unions flattened.
pub open spec fn flattened_all(defs: Seq<TypeDefinitionView>) -> Seq<TypeDefinitionView> {
    Seq::new(defs.len(), |i: int| flattened_union(defs[i]))
}

/// The definitions of a page after simplification: unions are flattened;
/// the definitions that are to be inlined leave the page, together with
/// every definition that shares a name with one of them; in what stays,
/// references to them are replaced by their content.
pub open spec fn simplified(
    defs: Seq<TypeDefinitionView>,
    config: DocsConfigView,
) -> Seq<TypeDefinitionView> {
    let flat = flattened_all(defs);
    let inline = flat.filter(inlined_under(config));
    inlined_definitions(flat.filter(stays_beside(inline)), inline)
}

/// Simplification can name every definition that it inlines.
pub open spec fn can_simplify(defs: Seq<TypeDefinitionView>, config: DocsConfigView) -> bool {
    forall|i: int|
        0 <= i < defs.len() && is_inlined(config, flattened_union(#[trigger] defs[i]))
            ==> defs[i].name is Some
}

fn is_plain_kind(kind: &Kind) -> (res: bool)
    ensures
        res == is_plain(kind@),
{
    proof {
        lemma_kind_view_lists(*kind);
    }
    match kind {
        Kind::Null
        | Kind::I32
        | Kind::F32
        | Kind::F64
        | Kind::U32
        | Kind::U16
        | Kind::Bool
        | Kind::String(_) => true,
        Kind::Union(variants) => {
            let mut i: usize = 0;
            while i < variants.len()
                invariant
                    i <= variants.len(),
                    kind@ == KindView::Union(defs_view(variants@)),
                    forall|j: int|
                        0 <= j < i ==> (#[trigger] defs_view(variants@)[j]).kind is String,
                decreases variants.len() - i,
            {
                assert(defs_view(variants@)[i as int] == def_view(variants@[i as int]));
                let is_string = match &variants[i].kind {
                    Kind::String(_) => true,
                    _ => false,
                };
                if !is_string {
                    assert(!(defs_view(variants@)[i as int].kind is String));
                    return false;
                }
                i += 1;
            }
            true
        },
        _ => false,
    }
}

/// Whether simplification folds `def` into its users.
pub fn should_inline(def: &TypeDefinition, config: &DocsConfig) -> (res: bool)
    ensures
        res == is_inlined(config@, def@),
{
    match &def.name {
        Some(name) => {
            if contains_text(&config.never_inlined_definitions, name) {
                false
            } else {
                is_plain_kind(&def.kind) || contains_text(&config.always_inlined_definitions, name)
            }
        },
        None => is_plain_kind(&def.kind),
    }
}

impl DocPage {
    /// An empty page.
    pub fn new(title: String) -> (page: Self)
        ensures
            page@.title == title@,
            page@.definitions == Seq::<TypeDefinitionView>::empty(),
    {
        let page = Self { title, definitions: Vec::new() };
        assert(page@.definitions =~= Seq::<TypeDefinitionView>::empty());
        page
    }

    /// The definitions of the page, in order.
    pub fn definitions(&self) -> (defs: &Vec<TypeDefinition>)
        ensures
            defs_view(defs@) == self@.definitions,
    {
        &self.definitions
    }

    /// Puts `def` at the end of the page.
    pub fn add_definition(&mut self, def: TypeDefinition)
        ensures
            final(self)@.title == old(self)@.title,
            final(self)@.definitions == old(self)@.definitions.push(def@),
    {
        self.definitions.push(def);
        assert(self@.definitions =~= old(self)@.definitions.push(def@));
    }

    /// Takes every definition named `name` off the page.
    pub fn remove_definition(&mut self, name: &String)
        ensures
            final(self)@.title == old(self)@.title,
            final(self)@.definitions == old(self)@.definitions.filter(named_otherwise(name@)),
    {
        let ghost before = defs_view(self.definitions@);
        let ghost pred = named_otherwise(name@);
        let mut kept: Vec<TypeDefinition> = Vec::new();
        let mut i: usize = 0;
        proof {
            lemma_filter_none(before, pred);
            assert(defs_view(kept@) =~= Seq::<TypeDefinitionView>::empty());
        }
        while i < self.definitions.len()
            invariant
                i <= self.definitions.len(),
                self.definitions == old(self).definitions,
                self.title == old(self).title,
                before == defs_view(self.definitions@),
                pred == named_otherwise(name@),
                defs_view(kept@) == before.take(i as int).filter(pred),
            decreases self.definitions.len() - i,
        {
            let def = &self.definitions[i];
            let bears = match &def.name {
                Some(own) => same_text(own, name),
                None => false,
            };
            proof {
                lemma_filter_step(before, pred, i as int);
            }
            if !bears {
                let ghost prior = defs_view(kept@);
                kept.push(def.clone());
                assert(defs_view(kept@) =~= prior.push(before[i as int]));
            }
            i += 1;
        }
        assert(before.take(i as int) =~= before);
        self.definitions = kept;
    }

    /// Whether a definition named `name` is on the page.
    pub fn contains_definition(&self, name: &String) -> (res: bool)
        ensures
            res == has_definition(self@.definitions, name@),
    {
        let mut i: usize = 0;
        while i < self.definitions.len()
            invariant
                i <= self.definitions.len(),
                forall|j: int|
                    0 <= j < i ==> (#[trigger] defs_view(self.definitions@)[j]).name != Some(
                        name@,
                    ),
            decreases self.definitions.len() - i,
        {
            let bears = match &self.definitions[i].name {
                Some(own) => same_text(own, name),
                None => false,
            };
            if bears {
                assert(defs_view(self.definitions@)[i as int].name == Some(name@));
                return true;
            }
            i += 1;
        }
        false
    }

    /// The page as markdown: the section of each definition, in order. No
    /// section depends on the configuration.
    pub fn to_markdown(&self, _config: &DocsConfig) -> (res: String)
        ensures
            res@ == page_markdown(self@.definitions),
    {
        markdown_of(&self.definitions)
    }

    /// Whether [`DocPage::simplify`] may be called with `config`.
    pub fn can_be_simplified(&self, config: &DocsConfig) -> (res: bool)
        ensures
            res == can_simplify(self@.definitions, config@),
    {
        let ghost defs = defs_view(self.definitions@);
        let mut i: usize = 0;
        while i < self.definitions.len()
            invariant
                i <= self.definitions.len(),
                defs == defs_view(self.definitions@),
                forall|j: int|
                    0 <= j < i && is_inlined(config@, flattened_union(#[trigger] defs[j]))
                        ==> defs[j].name is Some,
            decreases self.definitions.len() - i,
        {
            let def = &self.definitions[i];
            assert(defs[i as int] == def_view(*def));
            if def.name.is_none() {
                let flat = flatten_union_definition(def.clone());
                if should_inline(&flat, config) {
                    return false;
                }
            }
            i += 1;
        }
        true
    }

    /// Flattens the unions, takes the plain definitions (and those the
    /// configuration names) off the page and puts their content where the
    /// rest refers to them.
    pub fn simplify(&mut self, config: &DocsConfig)
        requires
            can_simplify(old(self)@.definitions, config@),
        ensures
            final(self)@.title == old(self)@.title,
            final(self)@.definitions == simplified(old(self)@.definitions, config@),
    {
        let ghost before = defs_view(self.definitions@);
        let ghost fl = flattened_all(before);
        let mut flat: Vec<TypeDefinition> = Vec::new();
        let mut i: usize = 0;
        while i < self.definitions.len()
            invariant
                i <= self.definitions.len(),
                self.definitions == old(self).definitions,
                self.title == old(self).title,
                before == defs_view(self.definitions@),
                flat.len() == i,
                forall|j: int| 0 <= j < i ==> def_view(#[trigger] flat@[j]) == flattened_union(before[j]),
            decreases self.definitions.len() - i,
        {
            assert(before[i as int] == def_view(self.definitions@[i as int]));
            flat.push(flatten_union_definition(self.definitions[i].clone()));
            i += 1;
        }
        assert(defs_view(flat@) =~= fl);

        let ghost wanted = inlined_under(config@);
        let mut inline: Vec<TypeDefinition> = Vec::new();
        let mut i: usize = 0;
        proof {
            lemma_filter_none(fl, wanted);
            assert(defs_view(inline@) =~= Seq::<TypeDefinitionView>::empty());
        }
        while i < flat.len()
            invariant
                i <= flat.len(),
                fl == defs_view(flat@),
                wanted == inlined_under(config@),
                defs_view(inline@) == fl.take(i as int).filter(wanted),
            decreases flat.len() - i,
        {
            proof {
                lemma_filter_step(fl, wanted, i as int);
            }
            assert(fl[i as int] == def_view(flat@[i as int]));
            if should_inline(&flat[i], config) {
                let ghost prior = defs_view(inline@);
                inline.push(flat[i].clone());
                assert(defs_view(inline@) =~= prior.push(fl[i as int]));
            }
            i += 1;
        }
        assert(fl.take(i as int) =~= fl);

        let ghost inl = defs_view(inline@);
        let ghost stays = stays_beside(inl);
        let mut result: Vec<TypeDefinition> = Vec::new();
        let mut i: usize = 0;
        proof {
            lemma_filter_none(fl, stays);
            assert(defs_view(result@) =~= inlined_definitions(fl.take(0).filter(stays), inl));
        }
        while i < flat.len()
            invariant
                i <= flat.len(),
                fl == defs_view(flat@),
                inl == defs_view(inline@),
                stays == stays_beside(inl),
                defs_view(result@) == inlined_definitions(fl.take(i as int).filter(stays), inl),
            decreases flat.len() - i,
        {
            proof {
                lemma_filter_step(fl, stays, i as int);
            }
            assert(fl[i as int] == def_view(flat@[i as int]));
            let keep = match &flat[i].name {
                Some(name) => find_inline(&inline, name).is_none(),
                None => true,
            };
            if keep {
                let ghost prior = defs_view(result@);
                result.push(inline_definition(flat[i].clone(), &inline));
                assert(defs_view(result@) =~= prior.push(inlined_definition(fl[i as int], inl)));
                assert(inlined_definitions(fl.take(i as int).filter(stays).push(fl[i as int]), inl)
                    =~= prior.push(inlined_definition(fl[i as int], inl)));
            }
            i += 1;
        }
        assert(fl.take(i as int) =~= fl);
        self.definitions = result;
    }
}


/// The schemas that `subschemas` combines: those of `one_of`, then
/// `any_of`, then `all_of`.
pub fn flatten_subschemas(subschemas: &SubschemaValidation) -> (schemas: Vec<&SchemaObject>)
    ensures
        schemas.len() == flattened_subschemas(*subschemas).len(),
        forall|i: int|
            0 <= i < schemas.len() ==> *(#[trigger] schemas[i]) == flattened_subschemas(
                *subschemas,
            )[i],
{
    let mut schemas: Vec<&SchemaObject> = Vec::new();
    append_listed(&mut schemas, &subschemas.one_of);
    append_listed(&mut schemas, &subschemas.any_of);
    append_listed(&mut schemas, &subschemas.all_of);
    schemas
}

fn append_listed<'a>(schemas: &mut Vec<&'a SchemaObject>, more: &'a Option<Vec<SchemaObject>>)
    ensures
        final(schemas).len() == old(schemas).len() + listed(*more).len(),
        forall|i: int| 0 <= i < old(schemas).len() ==> final(schemas)[i] == old(schemas)[i],
        forall|i: int|
            old(schemas).len() <= i < final(schemas).len() ==> *(#[trigger] final(schemas)[i])
                == listed(*more)[i - old(schemas).len()],
{
    match more {
        Some(list) => {
            let mut i: usize = 0;
            while i < list.len()
                invariant
                    i <= list.len(),
                    schemas.len() == old(schemas).len() + i,
                    forall|j: int| 0 <= j < old(schemas).len() ==> schemas[j] == old(schemas)[j],
                    forall|j: int|
                        old(schemas).len() <= j < schemas.len() ==> *(#[trigger] schemas[j])
                            == list[j - old(schemas).len()],
                decreases list.len() - i,
            {
                schemas.push(&list[i]);
                i += 1;
            }
        },
        None => {},
    }
}

/// What holds of the `i`-th schema that `sub` combines.
proof fn lemma_flattened_item(sub: SubschemaValidation, i: int)
    requires
        0 <= i < flattened_subschemas(sub).len(),
    ensures
        decreases_to!(sub => flattened_subschemas(sub)[i]),
        all_supported(sub.one_of) && all_supported(sub.any_of) && all_supported(sub.all_of)
            ==> supported(flattened_subschemas(sub)[i]),
        all_objects(sub.one_of) && all_objects(sub.any_of) && all_objects(sub.all_of) ==> supported(
            flattened_subschemas(sub)[i],
        ) && parsed_schema(flattened_subschemas(sub)[i]).kind is Object,
        (parsed_schemas(sub.one_of) + parsed_schemas(sub.any_of) + parsed_schemas(sub.all_of))[i]
            == parsed_schema(flattened_subschemas(sub)[i]),
        forall|properties: Seq<ObjectPropertyView>|
            (#[trigger] parsed_objects(sub.one_of, properties) + parsed_objects(
                sub.any_of,
                properties,
            ) + parsed_objects(sub.all_of, properties))[i] == with_properties(
                parsed_schema(flattened_subschemas(sub)[i]),
                properties,
            ),
{
    let a = listed(sub.one_of);
    let b = listed(sub.any_of);
    let c = listed(sub.all_of);
    if i < a.len() {
        assert(flattened_subschemas(sub)[i] == sub.one_of->0[i]);
        assert(decreases_to!(sub => sub.one_of->0[i]));
    } else if i < a.len() + b.len() {
        assert(flattened_subschemas(sub)[i] == sub.any_of->0[i - a.len()]);
        assert(decreases_to!(sub => sub.any_of->0[i - a.len()]));
    } else {
        assert(flattened_subschemas(sub)[i] == sub.all_of->0[i - a.len() - b.len()]);
        assert(decreases_to!(sub => sub.all_of->0[i - a.len() - b.len()]));
    }
}

/// How long the list of what `sub` combines is, in its documented forms.
proof fn lemma_flattened_len(sub: SubschemaValidation)
    ensures
        (parsed_schemas(sub.one_of) + parsed_schemas(sub.any_of) + parsed_schemas(
            sub.all_of,
        )).len() == flattened_subschemas(sub).len(),
        forall|properties: Seq<ObjectPropertyView>|
            (#[trigger] parsed_objects(sub.one_of, properties) + parsed_objects(
                sub.any_of,
                properties,
            ) + parsed_objects(sub.all_of, properties)).len() == flattened_subschemas(sub).len(),
{
}

fn is_null(ty: InstanceType) -> (res: bool)
    ensures
        res == (ty == InstanceType::Null),
{
    match ty {
        InstanceType::Null => true,
        _ => false,
    }
}

/// The JSON type a schema asks for and whether `null` is accepted beside
/// it.
fn choose_type(schema: &SchemaObject) -> (res: Option<(InstanceType, bool)>)
    ensures
        res == chosen_type(*schema),
{
    match &schema.instance_type {
        Some(InstanceTypes::Single(ty)) => Some((*ty, false)),
        Some(InstanceTypes::Many(types)) => {
            if types.len() == 2 && is_null(types[1]) {
                Some((types[0], true))
            } else if types.len() == 2 && is_null(types[0]) {
                Some((types[1], true))
            } else {
                None
            }
        },
        None => None,
    }
}

fn parse_number_format(format: &Option<String>) -> (res: Option<Kind>)
    ensures
        res is Some == number_kind(*format) is Some,
        res matches Some(kind) ==> kind@ == number_kind(*format)->0,
{
    match format {
        Some(f) => {
            if text_is(f, "float") {
                Some(Kind::F32)
            } else if text_is(f, "double") {
                Some(Kind::F64)
            } else {
                None
            }
        },
        None => None,
    }
}

fn parse_integer_format(format: &Option<String>) -> (res: Option<Kind>)
    ensures
        res is Some == integer_kind(*format) is Some,
        res matches Some(kind) ==> kind@ == integer_kind(*format)->0,
{
    match format {
        Some(f) => {
            if text_is(f, "uint32") || text_is(f, "uint") {
                Some(Kind::U32)
            } else if text_is(f, "int32") || text_is(f, "int") {
                Some(Kind::I32)
            } else if text_is(f, "uint16") {
                Some(Kind::U16)
            } else if text_is(f, "uint8") {
                Some(Kind::U8)
            } else {
                None
            }
        },
        None => None,
    }
}

fn parse_string(values: &Option<Vec<Option<String>>>, is_optional: bool) -> (kind: Kind)
    ensures
        kind@ == string_kind(*values, is_optional),
{
    match values {
        Some(values) => {
            if values.len() == 0 {
                Kind::String(None)
            } else if values.len() == 1 {
                Kind::String(clone_opt_text(&values[0]))
            } else {
                let mut variants: Vec<TypeDefinition> = Vec::new();
                let mut i: usize = 0;
                while i < values.len()
                    invariant
                        i <= values.len(),
                        variants.len() == i,
                        forall|j: int|
                            0 <= j < i ==> def_view(#[trigger] variants@[j])
                                == TypeDefinition::spec_complex(
                                None,
                                None,
                                KindView::String(opt_text(values[j])),
                                is_optional,
                            ),
                    decreases values.len() - i,
                {
                    variants.push(
                        TypeDefinition::simple(
                            Kind::String(clone_opt_text(&values[i])),
                            is_optional,
                        ),
                    );
                    i += 1;
                }
                let kind = Kind::Union(variants);
                proof {
                    lemma_kind_view_lists(kind);
                    assert(kind@->Union_0 =~= string_kind(Some(*values), is_optional)->Union_0);
                }
                kind
            }
        },
        None => Kind::String(None),
    }
}

/// The definition that documents `schema`.
pub fn parse_schema(schema: &SchemaObject) -> (def: TypeDefinition)
    requires
        supported(*schema),
    ensures
        def@ == parsed_schema(*schema),
    decreases schema, 2int,
{
    let (name, description) = match &schema.metadata {
        Some(metadata) => (clone_opt_text(&metadata.title), clone_opt_text(&metadata.description)),
        None => (None, None),
    };
    if let Some(reference) = &schema.reference {
        return TypeDefinition::complex(name, description, Kind::Ref(reference.clone()), false);
    }
    match choose_type(schema) {
        Some((ty, is_optional)) => {
            let kind = match ty {
                InstanceType::Boolean => Kind::Bool,
                InstanceType::Array => parse_array_or_tuple(schema),
                InstanceType::String => parse_string(&schema.enum_values, is_optional),
                InstanceType::Number => parse_number_format(&schema.format).unwrap(),
                InstanceType::Integer => parse_integer_format(&schema.format).unwrap(),
                InstanceType::Object => parse_object(schema),
                InstanceType::Null => Kind::Null,
            };
            TypeDefinition::complex(name, description, kind, is_optional)
        },
        None => {
            let subschemas = schema.subschemas.as_ref().unwrap();
            let schemas = flatten_subschemas(subschemas);
            let ghost all = parsed_schemas(subschemas.one_of) + parsed_schemas(subschemas.any_of)
                + parsed_schemas(subschemas.all_of);
            let ghost pred = not_null();
            let mut types: Vec<TypeDefinition> = Vec::new();
            let mut is_optional = false;
            let mut i: usize = 0;
            proof {
                lemma_flattened_len(*subschemas);
                lemma_filter_none(all, pred);
                assert(defs_view(types@) =~= Seq::<TypeDefinitionView>::empty());
            }
            while i < schemas.len()
                invariant
                    i <= schemas.len(),
                    schema.subschemas == Some(*subschemas),
                    all_supported(subschemas.one_of),
                    all_supported(subschemas.any_of),
                    all_supported(subschemas.all_of),
                    schemas.len() == flattened_subschemas(*subschemas).len(),
                    forall|j: int|
                        0 <= j < schemas.len() ==> *(#[trigger] schemas[j]) == flattened_subschemas(
                            *subschemas,
                        )[j],
                    all == parsed_schemas(subschemas.one_of) + parsed_schemas(subschemas.any_of)
                        + parsed_schemas(subschemas.all_of),
                    all.len() == schemas.len(),
                    pred == not_null(),
                    defs_view(types@) == all.take(i as int).filter(pred),
                    is_optional == exists|j: int| 0 <= j < i && (#[trigger] all[j]).kind is Null,
                decreases schemas.len() - i,
            {
                proof {
                    lemma_flattened_item(*subschemas, i as int);
                    lemma_filter_step(all, pred, i as int);
                }
                assert(decreases_to!(schema.subschemas => schema.subschemas->0));
                let def = parse_schema(schemas[i]);
                let null = match &def.kind {
                    Kind::Null => true,
                    _ => false,
                };
                assert(null == all[i as int].kind is Null);
                if null {
                    is_optional = true;
                } else {
                    let ghost prior = defs_view(types@);
                    types.push(def);
                    assert(defs_view(types@) =~= prior.push(all[i as int]));
                }
                i += 1;
            }
            assert(all.take(i as int) =~= all);
            let kind = Kind::Union(types);
            proof {
                lemma_kind_view_lists(kind);
            }
            assert(is_optional == has_null(all));
            TypeDefinition::complex(name, description, kind, is_optional)
        },
    }
}

/// The definitions that document the schemas of `schemas`.
fn parse_each(schemas: &Vec<SchemaObject>) -> (defs: Vec<TypeDefinition>)
    requires
        each_supported(*schemas),
    ensures
        defs_view(defs@) == parsed_each(*schemas),
    decreases schemas, 0int,
{
    let mut defs: Vec<TypeDefinition> = Vec::new();
    let mut i: usize = 0;
    while i < schemas.len()
        invariant
            i <= schemas.len(),
            each_supported(*schemas),
            defs.len() == i,
            forall|j: int| 0 <= j < i ==> def_view(#[trigger] defs@[j]) == parsed_schema(schemas[j]),
        decreases schemas.len() - i,
    {
        defs.push(parse_schema(&schemas[i]));
        i += 1;
    }
    assert(defs_view(defs@) =~= parsed_each(*schemas));
    defs
}

/// The kind that documents an object schema.
pub fn parse_object(schema: &SchemaObject) -> (kind: Kind)
    requires
        object_supported(*schema),
    ensures
        kind@ == parsed_object(*schema),
    decreases schema, 1int,
{
    let object = schema.object.as_ref().unwrap();
    if let Some(value_type) = &object.additional_properties {
        let value_type = parse_schema(value_type);
        return Kind::Mapping { value_type: Box::new(value_type) };
    }
    let ghost wanted = parsed_properties(object.properties);
    let mut properties: Vec<ObjectProperty> = Vec::new();
    let mut i: usize = 0;
    while i < object.properties.len()
        invariant
            i <= object.properties.len(),
            schema.object == Some(*object),
            object.additional_properties is None,
            object_supported(*schema),
            wanted == parsed_properties(object.properties),
            properties.len() == i,
            forall|j: int| 0 <= j < i ==> prop_view(#[trigger] properties@[j]) == wanted[j],
        decreases object.properties.len() - i,
    {
        let property = &object.properties[i];
        properties.push(
            ObjectProperty { name: property.name.clone(), type_def: parse_schema(&property.schema) },
        );
        i += 1;
    }
    assert(props_view(properties@) =~= wanted);
    if let Some(subschemas) = &schema.subschemas {
        let schemas = flatten_subschemas(subschemas);
        let ghost all = parsed_objects(subschemas.one_of, wanted) + parsed_objects(
            subschemas.any_of,
            wanted,
        ) + parsed_objects(subschemas.all_of, wanted);
        let mut objects: Vec<TypeDefinition> = Vec::new();
        let mut i: usize = 0;
        proof {
            lemma_flattened_len(*subschemas);
        }
        while i < schemas.len()
            invariant
                i <= schemas.len(),
                schema.subschemas == Some(*subschemas),
                all_objects(subschemas.one_of),
                all_objects(subschemas.any_of),
                all_objects(subschemas.all_of),
                schemas.len() == flattened_subschemas(*subschemas).len(),
                forall|j: int|
                    0 <= j < schemas.len() ==> *(#[trigger] schemas[j]) == flattened_subschemas(
                        *subschemas,
                    )[j],
                all == parsed_objects(subschemas.one_of, wanted) + parsed_objects(
                    subschemas.any_of,
                    wanted,
                ) + parsed_objects(subschemas.all_of, wanted),
                all.len() == schemas.len(),
                props_view(properties@) == wanted,
                objects.len() == i,
                forall|j: int| 0 <= j < i ==> def_view(#[trigger] objects@[j]) == all[j],
            decreases schemas.len() - i,
        {
            proof {
                lemma_flattened_item(*subschemas, i as int);
            }
            assert(decreases_to!(schema.subschemas => schema.subschemas->0));
            let def = parse_schema(schemas[i]);
            let TypeDefinition { name, description, kind, is_optional, references } = def;
            proof {
                lemma_kind_view_lists(kind);
            }
            let mut all_properties = clone_props(&properties);
            match kind {
                Kind::Object(sub_properties) => {
                    extend_props(&mut all_properties, &sub_properties);
                },
                _ => {
                    assert(false);
                },
            }
            let extended = TypeDefinition {
                name,
                description,
                kind: Kind::Object(all_properties),
                is_optional,
                references,
            };
            proof {
                lemma_kind_view_lists(extended.kind);
            }
            objects.push(extended);
            i += 1;
        }
        let kind = Kind::Union(objects);
        proof {
            lemma_kind_view_lists(kind);
            assert(defs_view(objects@) =~= all);
        }
        return kind;
    }
    let kind = Kind::Object(properties);
    proof {
        lemma_kind_view_lists(kind);
    }
    kind
}

/// Appends a copy of each property of `more` to `v`.
fn extend_props(v: &mut Vec<ObjectProperty>, more: &Vec<ObjectProperty>)
    ensures
        props_view(final(v)@) == props_view(old(v)@) + props_view(more@),
{
    let mut i: usize = 0;
    while i < more.len()
        invariant
            i <= more.len(),
            v.len() == old(v).len() + i,
            forall|j: int| 0 <= j < old(v).len() ==> prop_view(v@[j]) == prop_view(old(v)@[j]),
            forall|j: int| 0 <= j < i ==> prop_view(v@[old(v).len() + j]) == prop_view(more@[j]),
        decreases more.len() - i,
    {
        v.push(more[i].clone());
        i += 1;
    }
    assert(props_view(v@) =~= props_view(old(v)@) + props_view(more@));
}

/// The kind that documents an array schema.
pub fn parse_array_or_tuple(schema: &SchemaObject) -> (kind: Kind)
    requires
        array_supported(*schema),
    ensures
        kind@ == parsed_array_or_tuple(*schema),
    decreases schema, 1int,
{
    let array = schema.array.as_ref().unwrap();
    let tuple_len = match (array.min_items, array.max_items) {
        (Some(min), Some(max)) => if min == max {
            Some(min)
        } else {
            None
        },
        _ => None,
    };
    match tuple_len {
        Some(min) => {
            let tuple_ty = match array.items.as_ref().unwrap() {
                Items::Single(item) => {
                    let mut defs: Vec<TypeDefinition> = Vec::new();
                    if min > 0 {
                        let def = parse_schema(item);
                        let mut i: u32 = 0;
                        while i < min
                            invariant
                                i <= min,
                                defs.len() == i,
                                def@ == parsed_schema(**item),
                                forall|j: int|
                                    0 <= j < i ==> def_view(#[trigger] defs@[j]) == parsed_schema(
                                        **item,
                                    ),
                            decreases min - i,
                        {
                            defs.push(def.clone());
                            i += 1;
                        }
                    }
                    assert(defs_view(defs@) =~= Seq::new(
                        min as nat,
                        |i: int| parsed_schema(**item),
                    ));
                    defs
                },
                Items::Many(items) => parse_each(items),
            };
            let kind = Kind::Tuple(tuple_ty);
            proof {
                lemma_kind_view_lists(kind);
            }
            kind
        },
        None => {
            match array.items.as_ref().unwrap() {
                Items::Single(item) => Kind::Array(Box::new(parse_schema(item))),
                Items::Many(_) => {
                    proof {
                        assert(false);
                    }
                    Kind::Null
                },
            }
        },
    }
}


/// Whether `schema` can be documented, that is whether [`parse_schema`] may
/// be called on it.
pub fn is_supported(schema: &SchemaObject) -> (res: bool)
    ensures
        res == supported(*schema),
    decreases schema, 2int,
{
    if schema.reference.is_some() {
        return true;
    }
    match choose_type(schema) {
        Some((ty, _)) => match ty {
            InstanceType::Array => is_array_supported(schema),
            InstanceType::Number => parse_number_format(&schema.format).is_some(),
            InstanceType::Integer => parse_integer_format(&schema.format).is_some(),
            InstanceType::Object => is_object_supported(schema),
            _ => true,
        },
        None => {
            if schema.instance_type.is_some() {
                return false;
            }
            match &schema.subschemas {
                Some(sub) => are_all_supported(&sub.one_of) && are_all_supported(&sub.any_of)
                    && are_all_supported(&sub.all_of),
                None => false,
            }
        },
    }
}

fn are_supported(schemas: &Vec<SchemaObject>) -> (res: bool)
    ensures
        res == each_supported(*schemas),
    decreases schemas, 0int,
{
    let mut i: usize = 0;
    while i < schemas.len()
        invariant
            i <= schemas.len(),
            forall|j: int| 0 <= j < i ==> supported(#[trigger] schemas[j]),
        decreases schemas.len() - i,
    {
        if !is_supported(&schemas[i]) {
            return false;
        }
        i += 1;
    }
    true
}

fn are_all_supported(schemas: &Option<Vec<SchemaObject>>) -> (res: bool)
    ensures
        res == all_supported(*schemas),
    decreases schemas, 1int,
{
    match schemas {
        Some(schemas) => are_supported(schemas),
        None => true,
    }
}

fn are_objects(schemas: &Vec<SchemaObject>) -> (res: bool)
    ensures
        res == each_object(*schemas),
    decreases schemas, 0int,
{
    let mut i: usize = 0;
    while i < schemas.len()
        invariant
            i <= schemas.len(),
            forall|j: int|
                0 <= j < i ==> supported(#[trigger] schemas[j]) && parsed_schema(
                    schemas[j],
                ).kind is Object,
        decreases schemas.len() - i,
    {
        if !is_supported(&schemas[i]) {
            return false;
        }
        let def = parse_schema(&schemas[i]);
        let is_object = match &def.kind {
            Kind::Object(_) => true,
            _ => false,
        };
        if !is_object {
            return false;
        }
        i += 1;
    }
    true
}

fn are_all_objects(schemas: &Option<Vec<SchemaObject>>) -> (res: bool)
    ensures
        res == all_objects(*schemas),
    decreases schemas, 1int,
{
    match schemas {
        Some(schemas) => are_objects(schemas),
        None => true,
    }
}

fn is_array_supported(schema: &SchemaObject) -> (res: bool)
    ensures
        res == array_supported(*schema),
    decreases schema, 1int,
{
    match &schema.array {
        Some(array) => {
            let tuple_len = match (array.min_items, array.max_items) {
                (Some(min), Some(max)) => if min == max {
                    Some(min)
                } else {
                    None
                },
                _ => None,
            };
            match tuple_len {
                Some(min) => match &array.items {
                    Some(Items::Single(item)) => min == 0 || is_supported(item),
                    Some(Items::Many(items)) => are_supported(items),
                    None => false,
                },
                None => match &array.items {
                    Some(Items::Single(item)) => is_supported(item),
                    _ => false,
                },
            }
        },
        None => false,
    }
}

fn is_object_supported(schema: &SchemaObject) -> (res: bool)
    ensures
        res == object_supported(*schema),
    decreases schema, 1int,
{
    match &schema.object {
        Some(object) => match &object.additional_properties {
            Some(value) => is_supported(value),
            None => {
                let mut i: usize = 0;
                while i < object.properties.len()
                    invariant
                        i <= object.properties.len(),
                        schema.object == Some(*object),
                        object.additional_properties is None,
                        forall|j: int|
                            0 <= j < i ==> supported((#[trigger] object.properties[j]).schema),
                    decreases object.properties.len() - i,
                {
                    assert(decreases_to!(schema.object => schema.object->0));
                    assert(decreases_to!(object.properties => object.properties[i as int]));
                    if !is_supported(&object.properties[i].schema) {
                        return false;
                    }
                    i += 1;
                }
                match &schema.subschemas {
                    Some(sub) => are_all_objects(&sub.one_of) && are_all_objects(&sub.any_of)
                        && are_all_objects(&sub.all_of),
                    None => true,
                }
            },
        },
        None => false,
    }
}


/// The schema of the first definition from position `from` on that is
/// named `name`.
pub open spec fn definition_at(defs: Seq<Definition>, from: int, name: Seq<char>) -> Option<
    SchemaObject,
>
    decreases defs.len() - from,
{
    if from < 0 || from >= defs.len() {
        None
    } else if defs[from].name@ == name {
        Some(defs[from].schema)
    } else {
        definition_at(defs, from + 1, name)
    }
}

/// The names that `defs` defines.
pub open spec fn definition_names(defs: Seq<Definition>) -> Set<Seq<char>> {
    defs.map_values(|d: Definition| d.name@).to_set()
}

/// The names of the definitions on a page.
pub open spec fn page_names(page: Seq<TypeDefinitionView>) -> Set<Seq<char>> {
    Set::new(|name: Seq<char>| has_definition(page, name))
}

/// How many of the names that `defs` defines are not on the page yet.
pub open spec fn pending(page: Seq<TypeDefinitionView>, defs: Seq<Definition>) -> nat {
    definition_names(defs).difference(page_names(page)).len()
}

/// A definition under another name.
pub open spec fn named(def: TypeDefinitionView, name: Seq<char>) -> TypeDefinitionView {
    TypeDefinitionView { name: Some(name), ..def }
}

/// A name for which a definition is found is one of the names that are
/// defined.
pub proof fn lemma_definition_at_is_named(defs: Seq<Definition>, from: int, name: Seq<char>)
    requires
        0 <= from,
        definition_at(defs, from, name) is Some,
    ensures
        definition_names(defs).contains(name),
    decreases defs.len() - from,
{
    if defs[from].name@ == name {
        let names = defs.map_values(|d: Definition| d.name@);
        assert(names[from] == name);
        assert(names.contains(name));
    } else {
        lemma_definition_at_is_named(defs, from + 1, name);
    }
}

/// Putting a definition on the page under a name that is defined and was
/// not on the page leaves fewer names to put there.
pub proof fn lemma_pending_decreases(
    page: Seq<TypeDefinitionView>,
    defs: Seq<Definition>,
    name: Seq<char>,
    def: TypeDefinitionView,
)
    requires
        !has_definition(page, name),
        definition_at(defs, 0, name) is Some,
        def.name == Some(name),
    ensures
        pending(page.push(def), defs) < pending(page, defs),
{
    lemma_definition_at_is_named(defs, 0, name);
    let all = definition_names(defs);
    let before = all.difference(page_names(page));
    let after = all.difference(page_names(page.push(def)));
    vstd::seq_lib::seq_to_set_is_finite(defs.map_values(|d: Definition| d.name@));
    assert(before.contains(name));
    assert forall|n: Seq<char>| after.contains(n) == before.remove(name).contains(n) by {
        let longer = page.push(def);
        if has_definition(page, n) {
            let i = choose|i: int| 0 <= i < page.len() && (#[trigger] page[i]).name == Some(n);
            assert(longer[i].name == Some(n));
        }
        if n == name {
            assert(longer[page.len() as int].name == Some(n));
        }
        if has_definition(longer, n) && n != name {
            let i = choose|i: int| 0 <= i < longer.len() && (#[trigger] longer[i]).name == Some(n);
            assert(page[i].name == Some(n));
        }
    }
    assert(after =~= before.remove(name));
}

/// The page that following references leads to, or `None` where that
/// cannot be done.
///
/// The names of `queue` are taken from the front. A name that the
/// configuration ignores or that is on the page already is passed over.
/// Any other name has to be defined by `defs`, with a schema that can be
/// documented: the definition goes to the end of the page under that name
/// and what it refers to goes to the end of the queue.
pub open spec fn walk(
    page: Seq<TypeDefinitionView>,
    queue: Seq<Seq<char>>,
    defs: Seq<Definition>,
    config: DocsConfigView,
) -> Option<Seq<TypeDefinitionView>>
    decreases pending(page, defs), queue.len(),
{
    if queue.len() == 0 {
        Some(page)
    } else {
        let refer = queue[0];
        if config.ignored_definitions.contains(refer) || has_definition(page, refer) {
            walk(page, queue.drop_first(), defs, config)
        } else {
            match definition_at(defs, 0, refer) {
                Some(schema) => if supported(schema) {
                    let def = named(parsed_schema(schema), refer);
                    proof {
                        lemma_pending_decreases(page, defs, refer, def);
                    }
                    walk(page.push(def), queue.drop_first() + def.references, defs, config)
                } else {
                    None
                },
                None => None,
            }
        }
    }
}

/// The page after the definition of `schema` is put on it as `name` and
/// the references are followed from there, or `None` where that cannot be
/// done.
pub open spec fn populated(
    page: Seq<TypeDefinitionView>,
    name: Seq<char>,
    schema: SchemaObject,
    defs: Seq<Definition>,
    config: DocsConfigView,
) -> Option<Seq<TypeDefinitionView>> {
    if supported(schema) {
        let def = named(parsed_schema(schema), name);
        walk(page.push(def), def.references, defs, config)
    } else {
        None
    }
}

/// The definitions of the page that documents `root`, or `None` where it
/// cannot be documented.
pub open spec fn generated(title: Seq<char>, root: RootSchema, config: DocsConfigView) -> Option<
    Seq<TypeDefinitionView>,
> {
    match populated(Seq::empty(), title, root.schema, root.definitions@, config) {
        Some(page) => Some(simplified(page, config)),
        None => None,
    }
}

/// Whether every definition of a page has a name.
pub open spec fn all_named(page: Seq<TypeDefinitionView>) -> bool {
    forall|i: int| 0 <= i < page.len() ==> (#[trigger] page[i]).name is Some
}

/// Following references puts only named definitions on the page.
pub proof fn lemma_walk_names_all(
    page: Seq<TypeDefinitionView>,
    queue: Seq<Seq<char>>,
    defs: Seq<Definition>,
    config: DocsConfigView,
)
    requires
        all_named(page),
        walk(page, queue, defs, config) is Some,
    ensures
        all_named(walk(page, queue, defs, config)->0),
    decreases pending(page, defs), queue.len(),
{
    if queue.len() != 0 {
        let refer = queue[0];
        if config.ignored_definitions.contains(refer) || has_definition(page, refer) {
            lemma_walk_names_all(page, queue.drop_first(), defs, config);
        } else {
            let schema = definition_at(defs, 0, refer)->0;
            let def = named(parsed_schema(schema), refer);
            lemma_pending_decreases(page, defs, refer, def);
            lemma_walk_names_all(page.push(def), queue.drop_first() + def.references, defs, config);
        }
    }
}

fn find_schema<'a>(definitions: &'a Vec<Definition>, name: &String) -> (res: Option<
    &'a SchemaObject,
>)
    ensures
        match res {
            Some(schema) => definition_at(definitions@, 0, name@) == Some(*schema),
            None => definition_at(definitions@, 0, name@) is None,
        },
{
    let mut i: usize = 0;
    while i < definitions.len()
        invariant
            i <= definitions.len(),
            definition_at(definitions@, 0, name@) == definition_at(definitions@, i as int, name@),
        decreases definitions.len() - i,
    {
        if same_text(&definitions[i].name, name) {
            return Some(&definitions[i].schema);
        }
        i += 1;
    }
    None
}

fn has_named(definitions: &Vec<TypeDefinition>, name: &String) -> (res: bool)
    ensures
        res == has_definition(defs_view(definitions@), name@),
{
    let mut i: usize = 0;
    while i < definitions.len()
        invariant
            i <= definitions.len(),
            forall|j: int|
                0 <= j < i ==> (#[trigger] defs_view(definitions@)[j]).name != Some(name@),
        decreases definitions.len() - i,
    {
        let bears = match &definitions[i].name {
            Some(own) => same_text(own, name),
            None => false,
        };
        if bears {
            assert(defs_view(definitions@)[i as int].name == Some(name@));
            return true;
        }
        i += 1;
    }
    false
}

/// Follows the references of `references` and puts what they lead to
/// behind `definitions`.
fn follow_references(
    definitions: Vec<TypeDefinition>,
    references: Vec<String>,
    root_schema: &RootSchema,
    config: &DocsConfig,
) -> (res: Option<Vec<TypeDefinition>>)
    ensures
        match res {
            Some(page) => walk(
                defs_view(definitions@),
                texts(references@),
                root_schema.definitions@,
                config@,
            ) == Some(defs_view(page@)),
            None => walk(
                defs_view(definitions@),
                texts(references@),
                root_schema.definitions@,
                config@,
            ) is None,
        },
{
    let ghost target = walk(
        defs_view(definitions@),
        texts(references@),
        root_schema.definitions@,
        config@,
    );
    let mut found = definitions;
    let mut pending_names = references;
    let mut head: usize = 0;
    assert(texts(pending_names@).subrange(0, pending_names.len() as int) =~= texts(
        pending_names@,
    ));
    while head < pending_names.len()
        invariant
            head <= pending_names.len(),
            target == walk(
                defs_view(definitions@),
                texts(references@),
                root_schema.definitions@,
                config@,
            ),
            walk(
                defs_view(found@),
                texts(pending_names@).subrange(head as int, pending_names.len() as int),
                root_schema.definitions@,
                config@,
            ) == target,
        decreases
            pending(defs_view(found@), root_schema.definitions@),
            pending_names.len() - head,
    {
        let ghost page = defs_view(found@);
        let ghost queue = texts(pending_names@).subrange(
            head as int,
            pending_names.len() as int,
        );
        let refer = pending_names[head].clone();
        assert(queue[0] == refer@);
        assert(queue.drop_first() =~= texts(pending_names@).subrange(
            head as int + 1,
            pending_names.len() as int,
        ));
        if contains_text(&config.ignored_definitions, &refer) || has_named(&found, &refer) {
            head += 1;
        } else {
            match find_schema(&root_schema.definitions, &refer) {
                Some(schema) => {
                    if !is_supported(schema) {
                        return None;
                    }
                    let mut definition = parse_schema(schema);
                    definition.name = Some(refer);
                    proof {
                        lemma_pending_decreases(
                            page,
                            root_schema.definitions@,
                            queue[0],
                            definition@,
                        );
                    }
                    let ghost before = texts(pending_names@);
                    extend_texts(&mut pending_names, &definition.references);
                    assert(texts(pending_names@).len() == before.len()
                        + definition@.references.len());
                    assert(texts(pending_names@).subrange(
                        head as int + 1,
                        pending_names.len() as int,
                    ) =~= queue.drop_first() + definition@.references);
                    found.push(definition);
                    assert(defs_view(found@) =~= page.push(
                        named(parsed_schema(*schema), queue[0]),
                    ));
                    head += 1;
                },
                None => {
                    return None;
                },
            }
        }
    }
    Some(found)
}

/// Puts the definition of `schema` on the page as `name`, then the
/// definitions that it refers to, those that these refer to, and so on.
pub fn populate_page(
    page: &mut DocPage,
    name: String,
    schema: &SchemaObject,
    root_schema: &RootSchema,
    config: &DocsConfig,
)
    requires
        populated(old(page)@.definitions, name@, *schema, root_schema.definitions@, config@)
            is Some,
    ensures
        final(page)@.title == old(page)@.title,
        Some(final(page)@.definitions) == populated(
            old(page)@.definitions,
            name@,
            *schema,
            root_schema.definitions@,
            config@,
        ),
{
    let done = try_populate_page(page, name, schema, root_schema, config);
    assert(done);
}

/// [`populate_page`] for any schema: says whether the page could be
/// populated, and leaves it as it was where it could not.
pub fn try_populate_page(
    page: &mut DocPage,
    name: String,
    schema: &SchemaObject,
    root_schema: &RootSchema,
    config: &DocsConfig,
) -> (done: bool)
    ensures
        final(page)@.title == old(page)@.title,
        done == populated(
            old(page)@.definitions,
            name@,
            *schema,
            root_schema.definitions@,
            config@,
        ) is Some,
        done ==> Some(final(page)@.definitions) == populated(
            old(page)@.definitions,
            name@,
            *schema,
            root_schema.definitions@,
            config@,
        ),
        !done ==> final(page)@.definitions == old(page)@.definitions,
{
    if !is_supported(schema) {
        return false;
    }
    let mut definition = parse_schema(schema);
    let references = clone_texts(&definition.references);
    definition.name = Some(name);
    let mut definitions = clone_defs(&page.definitions);
    definitions.push(definition);
    assert(defs_view(definitions@) =~= old(page)@.definitions.push(
        named(parsed_schema(*schema), name@),
    ));
    match follow_references(definitions, references, root_schema, config) {
        Some(definitions) => {
            page.definitions = definitions;
            true
        },
        None => false,
    }
}

/// The page that documents `root_schema`: the root's definition under the
/// title, everything it refers to, simplified.
pub fn generate_docs(title: &str, root_schema: &RootSchema, config: &DocsConfig) -> (page: DocPage)
    requires
        generated(title@, *root_schema, config@) is Some,
    ensures
        page@.title == title@,
        Some(page@.definitions) == generated(title@, *root_schema, config@),
{
    let page = try_generate_docs(title, root_schema, config);
    page.unwrap()
}

/// [`generate_docs`] for any schema: `None` where it holds something that
/// cannot be documented or refers to something that is not defined.
pub fn try_generate_docs(title: &str, root_schema: &RootSchema, config: &DocsConfig) -> (res:
    Option<DocPage>)
    ensures
        res is Some == generated(title@, *root_schema, config@) is Some,
        res matches Some(page) ==> page@.title == title@ && Some(page@.definitions) == generated(
            title@,
            *root_schema,
            config@,
        ),
{
    let mut page = DocPage::new(title.to_owned());
    if !try_populate_page(&mut page, title.to_owned(), &root_schema.schema, root_schema, config) {
        return None;
    }
    proof {
        let first = named(parsed_schema(root_schema.schema), title@);
        let start = Seq::<TypeDefinitionView>::empty().push(first);
        assert(all_named(start));
        lemma_walk_names_all(start, first.references, root_schema.definitions@, config@);
    }
    page.simplify(config);
    Some(page)
}

} // verus!

//! Flattening unions and folding definitions into their users.

use crate::text::{clone_opt_text, concat_text, ends_with, opt_text, same_text, text_ends_with};
use crate::generate_docs::type_definition::{
    def_view, defs_view, lemma_kind_view_lists, props_view, Kind, KindView, ObjectProperty,
    ObjectPropertyView, TypeDefinition, TypeDefinitionView,
};
use vstd::prelude::*;

verus! {

/// Two descriptions as one text: the first, a separating space (after a
/// full stop if the first does not end with one), the second. A missing
/// description leaves the other as it is.
pub open spec fn merged_descriptions(d1: Option<Seq<char>>, d2: Option<Seq<char>>) -> Option<
    Seq<char>,
> {
    match (d1, d2) {
        (Some(a), Some(b)) => Some(
            a + (if ends_with(a, '.') {
                " "@
            } else {
                ". "@
            }) + b,
        ),
        (Some(a), None) => Some(a),
        (None, Some(b)) => Some(b),
        (None, None) => None,
    }
}

/// Makes one description of two.
pub fn merge_descriptions(desc1: Option<String>, desc2: Option<String>) -> (res: Option<String>)
    ensures
        opt_text(res) == merged_descriptions(opt_text(desc1), opt_text(desc2)),
{
    match (desc1, desc2) {
        (Some(desc1), Some(desc2)) => {
            let separator = if !text_ends_with(&desc1, '.') {
                ". "
            } else {
                " "
            };
            let head = concat_text(desc1.as_str(), separator);
            Some(concat_text(head.as_str(), desc2.as_str()))
        },
        (Some(desc1), None) => Some(desc1),
        (None, Some(desc2)) => Some(desc2),
        (None, None) => None,
    }
}

/// The variants among the first `n` of `vs` that are not unions themselves.
pub open spec fn kept_variants(vs: Seq<TypeDefinitionView>, n: int) -> Seq<TypeDefinitionView>
    decreases n,
{
    if n <= 0 {
        Seq::empty()
    } else if vs[n - 1].kind is Union {
        kept_variants(vs, n - 1)
    } else {
        kept_variants(vs, n - 1).push(vs[n - 1])
    }
}

/// The variants of the unions among the first `n` of `vs`, one list after
/// the other.
pub open spec fn merged_variants(vs: Seq<TypeDefinitionView>, n: int) -> Seq<TypeDefinitionView>
    decreases n,
{
    if n <= 0 {
        Seq::empty()
    } else if vs[n - 1].kind is Union {
        merged_variants(vs, n - 1) + vs[n - 1].kind->Union_0
    } else {
        merged_variants(vs, n - 1)
    }
}

/// `desc` followed by the description that each union among the first `n`
/// of `vs` has once it is flattened itself.
pub open spec fn flattened_description(
    desc: Option<Seq<char>>,
    vs: Seq<TypeDefinitionView>,
    n: int,
) -> Option<Seq<char>>
    decreases vs, n,
{
    if n <= 0 || n > vs.len() {
        desc
    } else if vs[n - 1].kind is Union {
        merged_descriptions(
            flattened_description(desc, vs, n - 1),
            flattened_union(vs[n - 1]).description,
        )
    } else {
        flattened_description(desc, vs, n - 1)
    }
}

/// A union with the variants of its nested unions lifted into it: first
/// the variants that are no unions, then those of each nested union. The
/// descriptions of the nested unions are added to its own. A union that
/// is left with one variant becomes that variant, under the union's name
/// and optionality. Any other definition stays as it is.
pub open spec fn flattened_union(def: TypeDefinitionView) -> TypeDefinitionView
    decreases def, 0int,
{
    match def.kind {
        KindView::Union(vs) => {
            let description = flattened_description(def.description, vs, vs.len() as int);
            let all = kept_variants(vs, vs.len() as int) + merged_variants(vs, vs.len() as int);
            if all.len() == 1 {
                TypeDefinitionView {
                    name: def.name,
                    description: merged_descriptions(description, all[0].description),
                    kind: all[0].kind,
                    is_optional: def.is_optional,
                    references: all[0].references,
                }
            } else {
                TypeDefinitionView { description, kind: KindView::Union(all), ..def }
            }
        },
        _ => def,
    }
}


/// Appends a copy of each definition of `more` to `v`.
fn extend_defs(v: &mut Vec<TypeDefinition>, more: &Vec<TypeDefinition>)
    ensures
        defs_view(final(v)@) == defs_view(old(v)@) + defs_view(more@),
{
    let mut i: usize = 0;
    while i < more.len()
        invariant
            i <= more.len(),
            v.len() == old(v).len() + i,
            forall|j: int| 0 <= j < old(v).len() ==> v[j]@ == old(v)[j]@,
            forall|j: int| 0 <= j < i ==> v[old(v).len() + j]@ == more[j]@,
        decreases more.len() - i,
    {
        v.push(more[i].clone());
        i += 1;
    }
    assert(defs_view(v@) =~= defs_view(old(v)@) + defs_view(more@));
}

/// Lifts the variants of nested unions into the union that holds them.
pub fn flatten_union_definition(def: TypeDefinition) -> (res: TypeDefinition)
    ensures
        res@ == flattened_union(def@),
    decreases def@,
{
    let ghost whole = def@;
    let TypeDefinition { name, description, kind, is_optional, references } = def;
    proof {
        lemma_kind_view_lists(kind);
    }
    match kind {
        Kind::Union(variants) => {
            let ghost vs = defs_view(variants@);
            let ghost first = opt_text(description);
            let mut description = description;
            let mut kept: Vec<TypeDefinition> = Vec::new();
            let mut merged: Vec<TypeDefinition> = Vec::new();
            let mut i: usize = 0;
            assert(defs_view(kept@) =~= kept_variants(vs, 0));
            assert(defs_view(merged@) =~= merged_variants(vs, 0));
            while i < variants.len()
                invariant
                    i <= variants.len(),
                    vs == defs_view(variants@),
                    whole == def@,
                    whole.kind == KindView::Union(vs),
                    opt_text(description) == flattened_description(first, vs, i as int),
                    defs_view(kept@) == kept_variants(vs, i as int),
                    defs_view(merged@) == merged_variants(vs, i as int),
                decreases variants.len() - i,
            {
                let variant = &variants[i];
                assert(variant@ == vs[i as int]);
                proof {
                    lemma_kind_view_lists(variant.kind);
                }
                match &variant.kind {
                    Kind::Union(subvariants) => {
                        assert(decreases_to!(whole.kind => whole.kind->Union_0));
                        let flat = flatten_union_definition(variant.clone());
                        description = merge_descriptions(description, flat.description);
                        extend_defs(&mut merged, subvariants);
                    },
                    _ => {
                        kept.push(variant.clone());
                        assert(defs_view(kept@) =~= kept_variants(vs, i as int).push(vs[i as int]));
                    },
                }
                i += 1;
            }
            extend_defs(&mut kept, &merged);
            if kept.len() == 1 {
                let variant = kept.pop().unwrap();
                TypeDefinition {
                    name,
                    description: merge_descriptions(description, variant.description),
                    kind: variant.kind,
                    is_optional,
                    references: variant.references,
                }
            } else {
                let res = TypeDefinition {
                    name,
                    description,
                    kind: Kind::Union(kept),
                    is_optional,
                    references,
                };
                proof {
                    lemma_kind_view_lists(res.kind);
                }
                res
            }
        },
        other => TypeDefinition { name, description, kind: other, is_optional, references },
    }
}


/// The last of the first `n` definitions of `inline` that bears `name`.
pub open spec fn inline_lookup(inline: Seq<TypeDefinitionView>, n: int, name: Seq<char>) -> Option<
    TypeDefinitionView,
>
    decreases n,
{
    if n <= 0 {
        None
    } else if inline[n - 1].name == Some(name) {
        Some(inline[n - 1])
    } else {
        inline_lookup(inline, n - 1, name)
    }
}

/// A definition in which each reference to a definition of `inline` is
/// replaced by what that definition says: its kind, its description after
/// the reference's own, and its optionality if the reference has none.
/// Tuples, unions, arrays and objects are searched; a union is flattened
/// afterwards. What has been put in place of a reference is not searched
/// again.
pub open spec fn inlined_definition(
    def: TypeDefinitionView,
    inline: Seq<TypeDefinitionView>,
) -> TypeDefinitionView
    decreases def, 0int,
{
    match def.kind {
        KindView::Ref(r) => match inline_lookup(inline, inline.len() as int, r) {
            Some(found) => TypeDefinitionView {
                description: merged_descriptions(def.description, found.description),
                kind: found.kind,
                is_optional: def.is_optional || found.is_optional,
                ..def
            },
            None => def,
        },
        KindView::Tuple(ts) => TypeDefinitionView {
            kind: KindView::Tuple(inlined_definitions(ts, inline)),
            ..def
        },
        KindView::Union(ts) => flattened_union(
            TypeDefinitionView { kind: KindView::Union(inlined_definitions(ts, inline)), ..def },
        ),
        KindView::Array(t) => TypeDefinitionView {
            kind: KindView::Array(Box::new(inlined_definition(*t, inline))),
            ..def
        },
        KindView::Object(ps) => TypeDefinitionView {
            kind: KindView::Object(inlined_properties(ps, inline)),
            ..def
        },
        _ => def,
    }
}

/// [`inlined_definition`] of each definition of a list.
pub open spec fn inlined_definitions(
    ts: Seq<TypeDefinitionView>,
    inline: Seq<TypeDefinitionView>,
) -> Seq<TypeDefinitionView>
    decreases ts, 1int,
{
    Seq::new(
        ts.len(),
        |i: int|
            if 0 <= i < ts.len() {
                inlined_definition(ts[i], inline)
            } else {
                arbitrary()
            },
    )
}

/// Each property of a list with [`inlined_definition`] of its type.
pub open spec fn inlined_properties(
    ps: Seq<ObjectPropertyView>,
    inline: Seq<TypeDefinitionView>,
) -> Seq<ObjectPropertyView>
    decreases ps, 1int,
{
    Seq::new(
        ps.len(),
        |i: int|
            if 0 <= i < ps.len() {
                ObjectPropertyView {
                    name: ps[i].name,
                    type_def: inlined_definition(ps[i].type_def, inline),
                }
            } else {
                arbitrary()
            },
    )
}

/// Where in `inline` the definition stands that a reference to `name` is
/// replaced by.
pub(crate) fn find_inline(inline: &Vec<TypeDefinition>, name: &String) -> (res: Option<usize>)
    ensures
        match res {
            Some(i) => i < inline.len() && inline_lookup(
                defs_view(inline@),
                inline.len() as int,
                name@,
            ) == Some(inline[i as int]@),
            None => inline_lookup(defs_view(inline@), inline.len() as int, name@) is None,
        },
{
    let mut n: usize = inline.len();
    while n > 0
        invariant
            n <= inline.len(),
            inline_lookup(defs_view(inline@), inline.len() as int, name@) == inline_lookup(
                defs_view(inline@),
                n as int,
                name@,
            ),
        decreases n,
    {
        let found = match &inline[n - 1].name {
            Some(own) => same_text(own, name),
            None => false,
        };
        if found {
            return Some(n - 1);
        }
        n -= 1;
    }
    None
}

/// Each definition of `ts` with the definitions of `inline` put in place of
/// the references to them.
fn inline_definitions_of(ts: &Vec<TypeDefinition>, inline: &Vec<TypeDefinition>) -> (res: Vec<
    TypeDefinition,
>)
    ensures
        defs_view(res@) == inlined_definitions(defs_view(ts@), defs_view(inline@)),
    decreases defs_view(ts@),
{
    let mut res: Vec<TypeDefinition> = Vec::new();
    let mut i: usize = 0;
    while i < ts.len()
        invariant
            i <= ts.len(),
            res.len() == i,
            forall|j: int|
                0 <= j < i ==> def_view(#[trigger] res@[j]) == inlined_definition(
                    def_view(ts@[j]),
                    defs_view(inline@),
                ),
        decreases ts.len() - i,
    {
        assert(defs_view(ts@)[i as int] == ts[i as int]@);
        res.push(inline_definition(ts[i].clone(), inline));
        i += 1;
    }
    assert(defs_view(res@) =~= inlined_definitions(defs_view(ts@), defs_view(inline@)));
    res
}

/// Puts the definitions of `inline` in place of the references to them.
pub fn inline_definition(def: TypeDefinition, inline: &Vec<TypeDefinition>) -> (res: TypeDefinition)
    ensures
        res@ == inlined_definition(def@, defs_view(inline@)),
    decreases def@,
{
    let ghost whole = def@;
    let ghost inl = defs_view(inline@);
    let TypeDefinition { name, description, kind, is_optional, references } = def;
    proof {
        lemma_kind_view_lists(kind);
    }
    match kind {
        Kind::Ref(reference) => match find_inline(inline, &reference) {
            Some(at) => {
                let found = &inline[at];
                let res = TypeDefinition {
                    name,
                    description: merge_descriptions(description, clone_opt_text(&found.description)),
                    kind: found.kind.clone(),
                    is_optional: is_optional || found.is_optional,
                    references,
                };
                res
            },
            None => {
                let res = TypeDefinition {
                    name,
                    description,
                    kind: Kind::Ref(reference),
                    is_optional,
                    references,
                };
                res
            },
        },
        Kind::Tuple(types) => {
            assert(decreases_to!(whole.kind => whole.kind->Tuple_0));
            let types = inline_definitions_of(&types, inline);
            let res = TypeDefinition {
                name,
                description,
                kind: Kind::Tuple(types),
                is_optional,
                references,
            };
            proof {
                lemma_kind_view_lists(res.kind);
            }
            res
        },
        Kind::Union(variants) => {
            assert(decreases_to!(whole.kind => whole.kind->Union_0));
            let variants = inline_definitions_of(&variants, inline);
            let res = TypeDefinition {
                name,
                description,
                kind: Kind::Union(variants),
                is_optional,
                references,
            };
            proof {
                lemma_kind_view_lists(res.kind);
            }
            flatten_union_definition(res)
        },
        Kind::Array(ty) => {
            let ty = inline_definition(*ty, inline);
            let res = TypeDefinition {
                name,
                description,
                kind: Kind::Array(Box::new(ty)),
                is_optional,
                references,
            };
            assert(res@ == inlined_definition(whole, inl));
            res
        },
        Kind::Object(properties) => {
            let ghost ps = props_view(properties@);
            let mut inlined: Vec<ObjectProperty> = Vec::new();
            let mut i: usize = 0;
            while i < properties.len()
                invariant
                    i <= properties.len(),
                    inlined.len() == i,
                    whole == def@,
                    inl == defs_view(inline@),
                    ps == props_view(properties@),
                    whole.kind == KindView::Object(ps),
                    forall|j: int|
                        0 <= j < i ==> inlined[j]@ == (ObjectPropertyView {
                            name: ps[j].name,
                            type_def: inlined_definition(ps[j].type_def, inl),
                        }),
                decreases properties.len() - i,
            {
                let property = &properties[i];
                assert(property@ == ps[i as int]);
                assert(decreases_to!(whole.kind => whole.kind->Object_0));
                assert(decreases_to!(ps[i as int] => ps[i as int].type_def));
                inlined.push(
                    ObjectProperty {
                        name: property.name.clone(),
                        type_def: inline_definition(property.type_def.clone(), inline),
                    },
                );
                i += 1;
            }
            let res = TypeDefinition {
                name,
                description,
                kind: Kind::Object(inlined),
                is_optional,
                references,
            };
            proof {
                lemma_kind_view_lists(res.kind);
                assert(res@.kind->Object_0 =~= inlined_properties(ps, inl));
            }
            res
        },
        other => {
            let res = TypeDefinition { name, description, kind: other, is_optional, references };
            assert(res@ == whole);
            assert(res@ == inlined_definition(whole, inl));
            res
        },
    }
}

} // verus!

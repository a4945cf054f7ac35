//! Definitions written as markdown.

use crate::text::{join_texts, joined, texts};
use crate::generate_docs::type_definition::{
    def_view, defs_view, lemma_kind_view_lists, prop_view, props_view, Kind, KindView,
    ObjectProperty, ObjectPropertyView, TypeDefinition, TypeDefinitionView,
};
use vstd::prelude::*;
use vstd::string::StringExecFns;

verus! {

/// A kind written as a type expression.
///
/// Scalars are written by their names, a string literal in double quotes,
/// a reference by the name it refers to, a tuple as `[a, b]`, a union as
/// `a | b`, an array as `a[]`, an object as `{ name: a; other?: b }` (the
/// question mark marks an optional property) and a map as
/// `Map<string, a>`.
pub open spec fn kind_text(k: KindView) -> Seq<char>
    decreases k, 1int,
{
    match k {
        KindView::Null => "null"@,
        KindView::I32 => "i32"@,
        KindView::F32 => "f32"@,
        KindView::F64 => "f64"@,
        KindView::U32 => "u32"@,
        KindView::U16 => "u16"@,
        KindView::U8 => "u8"@,
        KindView::Bool => "bool"@,
        KindView::String(None) => "string"@,
        KindView::String(Some(value)) => "\""@ + value + "\""@,
        KindView::Ref(name) => name,
        KindView::Tuple(ts) => "["@ + joined(kind_texts(ts), ", "@, ts.len() as int) + "]"@,
        KindView::Union(ts) => joined(kind_texts(ts), " | "@, ts.len() as int),
        KindView::Array(t) => kind_text(t.kind) + "[]"@,
        KindView::Object(ps) => "{ "@ + joined(property_texts(ps), "; "@, ps.len() as int)
            + " }"@,
        KindView::Mapping { value_type } => "Map<string, "@ + kind_text(value_type.kind) + ">"@,
    }
}

/// [`kind_text`] of the kind of each definition of a list.
pub open spec fn kind_texts(ts: Seq<TypeDefinitionView>) -> Seq<Seq<char>>
    decreases ts, 0int,
{
    Seq::new(
        ts.len(),
        |i: int|
            if 0 <= i < ts.len() {
                kind_text(ts[i].kind)
            } else {
                arbitrary()
            },
    )
}

/// A property written as `name: type`, or `name?: type` if it is optional.
pub open spec fn property_text(p: ObjectPropertyView) -> Seq<char>
    decreases p, 2int,
{
    p.name + (if p.type_def.is_optional {
        "?: "@
    } else {
        ": "@
    }) + kind_text(p.type_def.kind)
}

/// [`property_text`] of each property of a list.
pub open spec fn property_texts(ps: Seq<ObjectPropertyView>) -> Seq<Seq<char>>
    decreases ps, 0int,
{
    Seq::new(
        ps.len(),
        |i: int|
            if 0 <= i < ps.len() {
                property_text(ps[i])
            } else {
                arbitrary()
            },
    )
}

/// The text of an optional string, empty where there is none.
pub open spec fn text_or_empty(s: Option<Seq<char>>) -> Seq<char> {
    match s {
        Some(s) => s,
        None => Seq::empty(),
    }
}

/// The section of a page that documents one definition: a heading with
/// its name, its type in a code block, then its description.
pub open spec fn definition_markdown(d: TypeDefinitionView) -> Seq<char> {
    "## "@ + text_or_empty(d.name) + "\n```typescript\ntype "@ + text_or_empty(d.name) + " = "@
        + kind_text(d.kind) + "\n```\n"@ + text_or_empty(d.description) + "\n"@
}

/// The sections of the definitions of a list.
pub open spec fn definition_markdowns(defs: Seq<TypeDefinitionView>) -> Seq<Seq<char>> {
    Seq::new(defs.len(), |i: int| definition_markdown(defs[i]))
}

/// The markdown of a page: the sections of its definitions, one per line
/// group.
pub open spec fn page_markdown(defs: Seq<TypeDefinitionView>) -> Seq<char> {
    joined(definition_markdowns(defs), "\n"@, defs.len() as int)
}

fn kind_texts_of(ts: &Vec<TypeDefinition>) -> (res: Vec<String>)
    ensures
        res.len() == ts.len(),
        texts(res@) == kind_texts(defs_view(ts@)),
    decreases ts, 0int,
{
    let mut res: Vec<String> = Vec::new();
    let mut i: usize = 0;
    while i < ts.len()
        invariant
            i <= ts.len(),
            res.len() == i,
            forall|j: int| 0 <= j < i ==> (#[trigger] res@[j])@ == kind_text(def_view(ts@[j]).kind),
        decreases ts.len() - i,
    {
        assert(defs_view(ts@)[i as int] == def_view(ts@[i as int]));
        res.push(ts[i].kind.to_text());
        i += 1;
    }
    assert(texts(res@) =~= kind_texts(defs_view(ts@)));
    res
}

fn property_texts_of(ps: &Vec<ObjectProperty>) -> (res: Vec<String>)
    ensures
        res.len() == ps.len(),
        texts(res@) == property_texts(props_view(ps@)),
    decreases ps, 0int,
{
    let mut res: Vec<String> = Vec::new();
    let mut i: usize = 0;
    while i < ps.len()
        invariant
            i <= ps.len(),
            res.len() == i,
            forall|j: int| 0 <= j < i ==> (#[trigger] res@[j])@ == property_text(prop_view(ps@[j])),
        decreases ps.len() - i,
    {
        let property = &ps[i];
        assert(props_view(ps@)[i as int] == prop_view(*property));
        let mut text = property.name.clone();
        if property.type_def.is_optional {
            text.append("?: ");
        } else {
            text.append(": ");
        }
        let kind = property.type_def.kind.to_text();
        text.append(kind.as_str());
        res.push(text);
        i += 1;
    }
    assert(texts(res@) =~= property_texts(props_view(ps@)));
    res
}

impl Kind {
    /// The kind written as a type expression.
    pub fn to_text(&self) -> (res: String)
        ensures
            res@ == kind_text(self@),
        decreases self, 1int,
    {
        proof {
            lemma_kind_view_lists(*self);
        }
        match self {
            Kind::Null => "null".to_owned(),
            Kind::I32 => "i32".to_owned(),
            Kind::F32 => "f32".to_owned(),
            Kind::F64 => "f64".to_owned(),
            Kind::U32 => "u32".to_owned(),
            Kind::U16 => "u16".to_owned(),
            Kind::U8 => "u8".to_owned(),
            Kind::Bool => "bool".to_owned(),
            Kind::String(None) => "string".to_owned(),
            Kind::String(Some(value)) => {
                let mut res = "\"".to_owned();
                res.append(value.as_str());
                res.append("\"");
                res
            },
            Kind::Ref(name) => name.clone(),
            Kind::Tuple(ts) => {
                let parts = kind_texts_of(ts);
                let inner = join_texts(&parts, ", ");
                let mut res = "[".to_owned();
                res.append(inner.as_str());
                res.append("]");
                res
            },
            Kind::Union(ts) => {
                let parts = kind_texts_of(ts);
                join_texts(&parts, " | ")
            },
            Kind::Array(t) => {
                let mut res = t.kind.to_text();
                res.append("[]");
                res
            },
            Kind::Object(ps) => {
                let parts = property_texts_of(ps);
                let inner = join_texts(&parts, "; ");
                let mut res = "{ ".to_owned();
                res.append(inner.as_str());
                res.append(" }");
                res
            },
            Kind::Mapping { value_type } => {
                let inner = value_type.kind.to_text();
                let mut res = "Map<string, ".to_owned();
                res.append(inner.as_str());
                res.append(">");
                res
            },
        }
    }
}

impl TypeDefinition {
    /// The section of a page that documents the definition.
    pub fn to_markdown(&self) -> (res: String)
        ensures
            res@ == definition_markdown(self@),
    {
        let mut res = "## ".to_owned();
        match &self.name {
            Some(name) => res.append(name.as_str()),
            None => {
                assert(res@ + Seq::<char>::empty() =~= res@);
            },
        }
        res.append("\n```typescript\ntype ");
        match &self.name {
            Some(name) => res.append(name.as_str()),
            None => {
                assert(res@ + Seq::<char>::empty() =~= res@);
            },
        }
        res.append(" = ");
        let kind = self.kind.to_text();
        res.append(kind.as_str());
        res.append("\n```\n");
        match &self.description {
            Some(description) => res.append(description.as_str()),
            None => {
                assert(res@ + Seq::<char>::empty() =~= res@);
            },
        }
        res.append("\n");
        res
    }
}

/// The sections of the definitions of `defs`, with an empty line between
/// each two.
pub fn markdown_of(defs: &Vec<TypeDefinition>) -> (res: String)
    ensures
        res@ == page_markdown(defs_view(defs@)),
{
    let mut parts: Vec<String> = Vec::new();
    let mut i: usize = 0;
    while i < defs.len()
        invariant
            i <= defs.len(),
            parts.len() == i,
            forall|j: int|
                0 <= j < i ==> (#[trigger] parts@[j])@ == definition_markdown(def_view(defs@[j])),
        decreases defs.len() - i,
    {
        parts.push(defs[i].to_markdown());
        i += 1;
    }
    assert(texts(parts@) =~= definition_markdowns(defs_view(defs@)));
    join_texts(&parts, "\n")
}

} // verus!

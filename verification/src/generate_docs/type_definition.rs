//! Definitions of documented types.

use crate::text::{clone_opt_text, clone_texts, extend_texts, opt_text, texts};
use vstd::prelude::*;

verus! {

/// One documented type: what it is called, what it says about itself and
/// what shape its values have.
#[derive(Debug, PartialEq)]
pub struct TypeDefinition {
    pub name: Option<String>,
    pub description: Option<String>,
    pub kind: Kind,
    pub is_optional: bool,
    /// Names that the definition refers to and that are defined elsewhere.
    pub references: Vec<String>,
}

/// The shape of a documented type.
#[derive(Debug, PartialEq)]
pub enum Kind {
    Null,
    I32,
    F32,
    F64,
    U32,
    U16,
    U8,
    Bool,
    /// A string; `Some` restricts it to one literal value.
    String(Option<String>),
    /// A reference, by name, to another definition.
    Ref(String),
    Tuple(Vec<TypeDefinition>),
    Union(Vec<TypeDefinition>),
    Array(Box<TypeDefinition>),
    Object(Vec<ObjectProperty>),
    Mapping { value_type: Box<TypeDefinition> },
}

/// A named field of an object type.
#[derive(Debug, PartialEq)]
pub struct ObjectProperty {
    pub name: String,
    pub type_def: TypeDefinition,
}

/// Mathematical value of a [`TypeDefinition`].
pub struct TypeDefinitionView {
    pub name: Option<Seq<char>>,
    pub description: Option<Seq<char>>,
    pub kind: KindView,
    pub is_optional: bool,
    pub references: Seq<Seq<char>>,
}

/// Mathematical value of a [`Kind`].
pub enum KindView {
    Null,
    I32,
    F32,
    F64,
    U32,
    U16,
    U8,
    Bool,
    String(Option<Seq<char>>),
    Ref(Seq<char>),
    Tuple(Seq<TypeDefinitionView>),
    Union(Seq<TypeDefinitionView>),
    Array(Box<TypeDefinitionView>),
    Object(Seq<ObjectPropertyView>),
    Mapping { value_type: Box<TypeDefinitionView> },
}

/// Mathematical value of an [`ObjectProperty`].
pub struct ObjectPropertyView {
    pub name: Seq<char>,
    pub type_def: TypeDefinitionView,
}




/// The views of a list of definitions, one for one.
pub open spec fn defs_view(v: Seq<TypeDefinition>) -> Seq<TypeDefinitionView> {
    Seq::new(v.len(), |i: int| def_view(v[i]))
}

/// The views of a list of properties, one for one.
pub open spec fn props_view(v: Seq<ObjectProperty>) -> Seq<ObjectPropertyView> {
    Seq::new(v.len(), |i: int| prop_view(v[i]))
}

/// The mathematical value of a definition.
pub open spec fn def_view(d: TypeDefinition) -> TypeDefinitionView
    decreases d,
{
    TypeDefinitionView {
        name: opt_text(d.name),
        description: opt_text(d.description),
        kind: kind_view(d.kind),
        is_optional: d.is_optional,
        references: texts(d.references@),
    }
}

/// The mathematical value of a kind.
pub open spec fn kind_view(k: Kind) -> KindView
    decreases k,
{
    match k {
        Kind::Null => KindView::Null,
        Kind::I32 => KindView::I32,
        Kind::F32 => KindView::F32,
        Kind::F64 => KindView::F64,
        Kind::U32 => KindView::U32,
        Kind::U16 => KindView::U16,
        Kind::U8 => KindView::U8,
        Kind::Bool => KindView::Bool,
        Kind::String(v) => KindView::String(opt_text(v)),
        Kind::Ref(r) => KindView::Ref(r@),
        Kind::Tuple(ts) => KindView::Tuple(
            Seq::new(
                ts.len() as nat,
                |i: int|
                    if 0 <= i < ts.len() {
                        def_view(ts[i])
                    } else {
                        arbitrary()
                    },
            ),
        ),
        Kind::Union(ts) => KindView::Union(
            Seq::new(
                ts.len() as nat,
                |i: int|
                    if 0 <= i < ts.len() {
                        def_view(ts[i])
                    } else {
                        arbitrary()
                    },
            ),
        ),
        Kind::Array(t) => KindView::Array(Box::new(def_view(*t))),
        Kind::Object(ps) => KindView::Object(
            Seq::new(
                ps.len() as nat,
                |i: int|
                    if 0 <= i < ps.len() {
                        prop_view(ps[i])
                    } else {
                        arbitrary()
                    },
            ),
        ),
        Kind::Mapping { value_type } => KindView::Mapping {
            value_type: Box::new(def_view(*value_type)),
        },
    }
}

/// The mathematical value of a property.
pub open spec fn prop_view(p: ObjectProperty) -> ObjectPropertyView
    decreases p,
{
    ObjectPropertyView { name: p.name@, type_def: def_view(p.type_def) }
}

/// The view of a kind with a list inside is built from the views of the
/// list's items.
pub proof fn lemma_kind_view_lists(k: Kind)
    ensures
        k matches Kind::Tuple(ts) ==> kind_view(k) == KindView::Tuple(defs_view(ts@)),
        k matches Kind::Union(ts) ==> kind_view(k) == KindView::Union(defs_view(ts@)),
        k matches Kind::Object(ps) ==> kind_view(k) == KindView::Object(props_view(ps@)),
{
    match k {
        Kind::Tuple(ts) => {
            assert(kind_view(k)->Tuple_0 =~= defs_view(ts@));
        },
        Kind::Union(ts) => {
            assert(kind_view(k)->Union_0 =~= defs_view(ts@));
        },
        Kind::Object(ps) => {
            assert(kind_view(k)->Object_0 =~= props_view(ps@));
        },
        _ => {},
    }
}

impl View for TypeDefinition {
    type V = TypeDefinitionView;

    open spec fn view(&self) -> TypeDefinitionView {
        def_view(*self)
    }
}

impl View for Kind {
    type V = KindView;

    open spec fn view(&self) -> KindView {
        kind_view(*self)
    }
}

impl View for ObjectProperty {
    type V = ObjectPropertyView;

    open spec fn view(&self) -> ObjectPropertyView {
        prop_view(*self)
    }
}


/// A copy of each definition of `ts`, in order.
pub fn clone_defs(ts: &Vec<TypeDefinition>) -> (res: Vec<TypeDefinition>)
    ensures
        defs_view(res@) == defs_view(ts@),
    decreases ts,
{
    let mut res: Vec<TypeDefinition> = Vec::new();
    let mut i: usize = 0;
    while i < ts.len()
        invariant
            i <= ts.len(),
            res.len() == i,
            forall|j: int| 0 <= j < i ==> res[j]@ == ts[j]@,
        decreases ts.len() - i,
    {
        res.push(ts[i].clone());
        i += 1;
    }
    assert(defs_view(res@) =~= defs_view(ts@));
    res
}

/// A copy of each property of `ps`, in order.
pub fn clone_props(ps: &Vec<ObjectProperty>) -> (res: Vec<ObjectProperty>)
    ensures
        props_view(res@) == props_view(ps@),
    decreases ps,
{
    let mut res: Vec<ObjectProperty> = Vec::new();
    let mut i: usize = 0;
    while i < ps.len()
        invariant
            i <= ps.len(),
            res.len() == i,
            forall|j: int| 0 <= j < i ==> res[j]@ == ps[j]@,
        decreases ps.len() - i,
    {
        res.push(ps[i].clone());
        i += 1;
    }
    assert(props_view(res@) =~= props_view(ps@));
    res
}

impl Clone for TypeDefinition {
    fn clone(&self) -> (res: Self)
        ensures
            res@ == self@,
        decreases self,
    {
        TypeDefinition {
            name: clone_opt_text(&self.name),
            description: clone_opt_text(&self.description),
            kind: self.kind.clone(),
            is_optional: self.is_optional,
            references: clone_texts(&self.references),
        }
    }
}

impl Clone for Kind {
    fn clone(&self) -> (res: Self)
        ensures
            res@ == self@,
        decreases self,
    {
        proof {
            lemma_kind_view_lists(*self);
        }
        let res = match self {
            Kind::Null => Kind::Null,
            Kind::I32 => Kind::I32,
            Kind::F32 => Kind::F32,
            Kind::F64 => Kind::F64,
            Kind::U32 => Kind::U32,
            Kind::U16 => Kind::U16,
            Kind::U8 => Kind::U8,
            Kind::Bool => Kind::Bool,
            Kind::String(v) => Kind::String(clone_opt_text(v)),
            Kind::Ref(r) => Kind::Ref(r.clone()),
            Kind::Tuple(ts) => Kind::Tuple(clone_defs(ts)),
            Kind::Union(ts) => Kind::Union(clone_defs(ts)),
            Kind::Array(t) => Kind::Array(Box::new((**t).clone())),
            Kind::Object(ps) => Kind::Object(clone_props(ps)),
            Kind::Mapping { value_type } => Kind::Mapping {
                value_type: Box::new((**value_type).clone()),
            },
        };
        proof {
            lemma_kind_view_lists(res);
        }
        res
    }
}

impl Clone for ObjectProperty {
    fn clone(&self) -> (res: Self)
        ensures
            res@ == self@,
        decreases self,
    {
        ObjectProperty { name: self.name.clone(), type_def: self.type_def.clone() }
    }
}


/// The references of the first `n` definitions of `ds`, one list after the
/// other.
pub open spec fn gathered_references(ds: Seq<TypeDefinitionView>, n: int) -> Seq<Seq<char>>
    decreases n,
{
    if n <= 0 {
        Seq::empty()
    } else {
        gathered_references(ds, n - 1) + ds[n - 1].references
    }
}

/// The references of the types of the first `n` properties of `ps`, one list
/// after the other.
pub open spec fn gathered_property_references(ps: Seq<ObjectPropertyView>, n: int) -> Seq<
    Seq<char>,
>
    decreases n,
{
    if n <= 0 {
        Seq::empty()
    } else {
        gathered_property_references(ps, n - 1) + ps[n - 1].type_def.references
    }
}

/// The names a kind refers to: its own target if it is a reference, else
/// what its parts have recorded as theirs.
pub open spec fn kind_references(k: KindView) -> Seq<Seq<char>> {
    match k {
        KindView::Ref(r) => seq![r],
        KindView::Tuple(ts) => gathered_references(ts, ts.len() as int),
        KindView::Union(ts) => gathered_references(ts, ts.len() as int),
        KindView::Array(t) => t.references,
        KindView::Object(ps) => gathered_property_references(ps, ps.len() as int),
        KindView::Mapping { value_type } => value_type.references,
        _ => Seq::empty(),
    }
}

fn references_of_defs(ts: &Vec<TypeDefinition>) -> (res: Vec<String>)
    ensures
        texts(res@) == gathered_references(defs_view(ts@), ts.len() as int),
{
    let mut res: Vec<String> = Vec::new();
    let mut i: usize = 0;
    assert(texts(res@) =~= Seq::<Seq<char>>::empty());
    while i < ts.len()
        invariant
            i <= ts.len(),
            texts(res@) == gathered_references(defs_view(ts@), i as int),
        decreases ts.len() - i,
    {
        extend_texts(&mut res, &ts[i].references);
        i += 1;
    }
    res
}

fn references_of_props(ps: &Vec<ObjectProperty>) -> (res: Vec<String>)
    ensures
        texts(res@) == gathered_property_references(props_view(ps@), ps.len() as int),
{
    let mut res: Vec<String> = Vec::new();
    let mut i: usize = 0;
    assert(texts(res@) =~= Seq::<Seq<char>>::empty());
    while i < ps.len()
        invariant
            i <= ps.len(),
            texts(res@) == gathered_property_references(props_view(ps@), i as int),
        decreases ps.len() - i,
    {
        extend_texts(&mut res, &ps[i].type_def.references);
        i += 1;
    }
    res
}

fn references_of_kind(kind: &Kind) -> (res: Vec<String>)
    ensures
        texts(res@) == kind_references(kind@),
{
    proof {
        lemma_kind_view_lists(*kind);
    }
    match kind {
        Kind::Ref(r) => {
            let mut res: Vec<String> = Vec::new();
            res.push(r.clone());
            assert(texts(res@) =~= seq![r@]);
            res
        },
        Kind::Tuple(ts) => references_of_defs(ts),
        Kind::Union(ts) => references_of_defs(ts),
        Kind::Array(t) => clone_texts(&t.references),
        Kind::Object(ps) => references_of_props(ps),
        Kind::Mapping { value_type } => clone_texts(&value_type.references),
        _ => {
            let res: Vec<String> = Vec::new();
            assert(texts(res@) =~= Seq::<Seq<char>>::empty());
            res
        },
    }
}

impl TypeDefinition {
    /// The definition that `complex` builds from its arguments.
    pub open spec fn spec_complex(
        name: Option<Seq<char>>,
        description: Option<Seq<char>>,
        kind: KindView,
        is_optional: bool,
    ) -> TypeDefinitionView {
        TypeDefinitionView {
            name,
            description,
            kind,
            is_optional,
            references: kind_references(kind),
        }
    }

    /// A definition of the given kind; its references are gathered from
    /// the kind.
    pub fn complex(
        name: Option<String>,
        description: Option<String>,
        kind: Kind,
        is_optional: bool,
    ) -> (res: Self)
        ensures
            res@ == Self::spec_complex(opt_text(name), opt_text(description), kind@, is_optional),
    {
        let references = references_of_kind(&kind);
        TypeDefinition { name, description, kind, is_optional, references }
    }

    /// A definition without name or description.
    pub fn simple(kind: Kind, is_optional: bool) -> (res: Self)
        ensures
            res@ == Self::spec_complex(None, None, kind@, is_optional),
    {
        Self::complex(None, None, kind, is_optional)
    }
}

} // verus!

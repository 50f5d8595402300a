//! The tree that the grammar reads: definitions whose fields may hold further definitions.
use vstd::prelude::*;
use crate::token::{Token, TokenV, view_tokens};

verus! {

broadcast use vstd::std_specs::vec::group_vec_axioms;

/// A definition as written by the user: a struct or an enum whose fields may
/// hold further definitions inline.
#[derive(Debug, PartialEq, Eq)]
#[allow(inconsistent_fields)]
pub enum New {
    Struct { name: String, fields: Vec<StructField> },
    Enum { name: String, fields: Vec<EnumField> },
}

/// `name: value` inside a struct body.
#[derive(Debug, PartialEq, Eq)]
pub struct StructField {
    pub name: String,
    pub value: Content,
}

/// A variant of an enum, with its optional payload.
#[derive(Debug, PartialEq, Eq)]
pub struct EnumField {
    pub name: String,
    pub content: Option<EnumContent>,
}

/// The payload of an enum variant: `(T, U, ...)` or `{ a: T, ... }`.
#[derive(Debug, PartialEq, Eq)]
pub enum EnumContent {
    Tuple(Vec<Vec<Token>>),
    Struct(Vec<StructField>),
}

/// The type of a struct field: an existing type, kept as raw tokens, or a
/// definition written inline.
#[derive(Debug, PartialEq, Eq)]
pub enum Content {
    Existing(Vec<Token>),
    New(Box<New>),
}

/// The whole input of `define`: one top-level definition.
#[derive(Debug, PartialEq, Eq)]
pub struct Define(pub New);

pub ghost enum NewV {
    Struct { name: Seq<char>, fields: Seq<FieldV> },
    Enum { name: Seq<char>, variants: Seq<VariantV> },
}

pub ghost struct FieldV {
    pub name: Seq<char>,
    pub value: ContentV,
}

pub ghost struct VariantV {
    pub name: Seq<char>,
    pub content: Option<PayloadV>,
}

pub ghost enum PayloadV {
    Tuple(Seq<Seq<TokenV>>),
    Struct(Seq<FieldV>),
}

pub ghost enum ContentV {
    Existing(Seq<TokenV>),
    New(Box<NewV>),
}

impl NewV {
    pub open spec fn name(self) -> Seq<char> {
        match self {
            NewV::Struct { name, .. } => name,
            NewV::Enum { name, .. } => name,
        }
    }
}

pub open spec fn view_new(n: New) -> NewV
    decreases n,
{
    match n {
        New::Struct { name, fields } => NewV::Struct { name: name@, fields: view_fields(fields@) },
        New::Enum { name, fields } => NewV::Enum { name: name@, variants: view_variants(fields@) },
    }
}

pub open spec fn view_fields(fs: Seq<StructField>) -> Seq<FieldV>
    decreases fs,
{
    if fs.len() == 0 {
        Seq::empty()
    } else {
        view_fields(fs.drop_last()).push(view_field(fs.last()))
    }
}

pub open spec fn view_field(f: StructField) -> FieldV
    decreases f,
{
    FieldV { name: f.name@, value: view_content(f.value) }
}

pub open spec fn view_content(c: Content) -> ContentV
    decreases c,
{
    match c {
        Content::Existing(ts) => ContentV::Existing(view_tokens(ts@)),
        Content::New(n) => ContentV::New(Box::new(view_new(*n))),
    }
}

pub open spec fn view_variants(vs: Seq<EnumField>) -> Seq<VariantV>
    decreases vs,
{
    if vs.len() == 0 {
        Seq::empty()
    } else {
        view_variants(vs.drop_last()).push(view_variant(vs.last()))
    }
}

pub open spec fn view_variant(v: EnumField) -> VariantV
    decreases v,
{
    VariantV {
        name: v.name@,
        content: view_opt_payload(v.content),
    }
}

pub open spec fn view_opt_payload(p: Option<EnumContent>) -> Option<PayloadV>
    decreases p,
{
    match p {
        None => None,
        Some(c) => Some(view_payload(c)),
    }
}

pub open spec fn view_payload(p: EnumContent) -> PayloadV
    decreases p,
{
    match p {
        EnumContent::Tuple(tys) => PayloadV::Tuple(view_types(tys@)),
        EnumContent::Struct(fs) => PayloadV::Struct(view_fields(fs@)),
    }
}

pub open spec fn view_types(tys: Seq<Vec<Token>>) -> Seq<Seq<TokenV>>
    decreases tys,
{
    if tys.len() == 0 {
        Seq::empty()
    } else {
        view_types(tys.drop_last()).push(view_tokens(tys.last()@))
    }
}

pub proof fn lemma_view_fields(fs: Seq<StructField>)
    ensures
        view_fields(fs).len() == fs.len(),
        forall|i: int| 0 <= i < fs.len() ==> #[trigger] view_fields(fs)[i] == view_field(fs[i]),
    decreases fs.len(),
{
    if fs.len() > 0 {
        lemma_view_fields(fs.drop_last());
    }
}

pub proof fn lemma_view_variants(vs: Seq<EnumField>)
    ensures
        view_variants(vs).len() == vs.len(),
        forall|i: int| 0 <= i < vs.len() ==> #[trigger] view_variants(vs)[i] == view_variant(vs[i]),
    decreases vs.len(),
{
    if vs.len() > 0 {
        lemma_view_variants(vs.drop_last());
    }
}

pub proof fn lemma_view_types(tys: Seq<Vec<Token>>)
    ensures
        view_types(tys).len() == tys.len(),
        forall|i: int| 0 <= i < tys.len() ==> #[trigger] view_types(tys)[i] == view_tokens(tys[i]@),
    decreases tys.len(),
{
    if tys.len() > 0 {
        lemma_view_types(tys.drop_last());
    }
}

impl View for New {
    type V = NewV;

    open spec fn view(&self) -> NewV {
        view_new(*self)
    }
}

impl View for Define {
    type V = NewV;

    open spec fn view(&self) -> NewV {
        view_new(self.0)
    }
}

impl New {
    /// The name that this definition declares.
    pub fn name(&self) -> (r: String)
        ensures
            r@ == self@.name(),
    {
        match self {
            New::Struct { name, .. } => name.clone(),
            New::Enum { name, .. } => name.clone(),
        }
    }
}

} // verus!

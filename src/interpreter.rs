//! Flattening: every inline definition is hoisted out and replaced by its name.
use vstd::prelude::*;
use crate::ast::{
    Content, ContentV, Define, EnumContent, EnumField, FieldV, New, NewV, PayloadV, StructField,
    VariantV, lemma_view_fields, lemma_view_types, lemma_view_variants, view_content, view_field,
    view_fields, view_opt_payload, view_types, view_variant, view_variants,
};
use crate::token::{
    Delimiter, Token, TokenV, append_tokens, copy_tokens, ident_v, punct, punct_v, push_token,
    view_tokens,
};

verus! {

broadcast use vstd::std_specs::vec::group_vec_axioms;

/// Whether a flattened definition declares a struct or an enum.
#[derive(Clone, Copy, PartialEq, Eq, Debug, Structural)]
pub enum ContentType {
    Struct,
    Enum,
}

/// One field of a flattened struct (`name: value_type`), or one variant of a
/// flattened enum (`name value_type`, where `value_type` is the payload).
#[derive(Debug, PartialEq, Eq)]
pub struct FieldDef {
    pub name: String,
    pub value_type: Vec<Token>,
}

/// A definition with no definition nested in it.
#[derive(Debug, PartialEq, Eq)]
pub struct Def {
    pub content_type: ContentType,
    pub name: String,
    pub fields: Vec<FieldDef>,
}

/// The flattened definitions, in the order in which the walk finished them:
/// every definition stands after the ones nested in it, the root last.
#[derive(Debug, PartialEq, Eq)]
pub struct List(pub Vec<Def>);

pub ghost struct FieldDefV {
    pub name: Seq<char>,
    pub value: Seq<TokenV>,
}

pub ghost struct DefV {
    pub kind: ContentType,
    pub name: Seq<char>,
    pub fields: Seq<FieldDefV>,
}

impl View for FieldDef {
    type V = FieldDefV;

    open spec fn view(&self) -> FieldDefV {
        FieldDefV { name: self.name@, value: view_tokens(self.value_type@) }
    }
}

impl View for Def {
    type V = DefV;

    open spec fn view(&self) -> DefV {
        DefV {
            kind: self.content_type,
            name: self.name@,
            fields: view_field_defs(self.fields@),
        }
    }
}

pub open spec fn view_field_defs(fs: Seq<FieldDef>) -> Seq<FieldDefV> {
    fs.map_values(|f: FieldDef| f@)
}

pub open spec fn view_defs(ds: Seq<Def>) -> Seq<DefV> {
    ds.map_values(|d: Def| d@)
}

impl View for List {
    type V = Seq<DefV>;

    open spec fn view(&self) -> Seq<DefV> {
        view_defs(self.0@)
    }
}

/// What stands for a field's type in the flattened struct: the existing type
/// as it was written, or the bare name of the definition hoisted out of it.
pub open spec fn field_value(c: ContentV) -> Seq<TokenV> {
    match c {
        ContentV::Existing(ts) => ts,
        ContentV::New(n) => seq![ident_v(n.name())],
    }
}

pub open spec fn field_def_of(f: FieldV) -> FieldDefV {
    FieldDefV { name: f.name, value: field_value(f.value) }
}

pub open spec fn field_defs_of(fs: Seq<FieldV>) -> Seq<FieldDefV> {
    fs.map_values(|f: FieldV| field_def_of(f))
}

/// `name: value,`
pub open spec fn field_tokens(f: FieldDefV) -> Seq<TokenV> {
    seq![ident_v(f.name), punct_v(':')] + f.value + seq![punct_v(',')]
}

/// The body of a struct: each field in order, each followed by a comma.
pub open spec fn fields_tokens(fs: Seq<FieldDefV>) -> Seq<TokenV>
    decreases fs.len(),
{
    if fs.len() == 0 {
        Seq::empty()
    } else {
        fields_tokens(fs.drop_last()) + field_tokens(fs.last())
    }
}

/// The inside of a tuple payload: each type in order, each followed by a comma.
pub open spec fn types_tokens(tys: Seq<Seq<TokenV>>) -> Seq<TokenV>
    decreases tys.len(),
{
    if tys.len() == 0 {
        Seq::empty()
    } else {
        types_tokens(tys.drop_last()) + tys.last() + seq![punct_v(',')]
    }
}

/// The payload that follows a variant's name: nothing, `( .. )` or `{ .. }`.
pub open spec fn payload_tokens(p: Option<PayloadV>) -> Seq<TokenV> {
    match p {
        None => Seq::empty(),
        Some(PayloadV::Tuple(tys)) => seq![TokenV::Group(Delimiter::Parenthesis, types_tokens(tys))],
        Some(PayloadV::Struct(fs)) => seq![
            TokenV::Group(Delimiter::Brace, fields_tokens(field_defs_of(fs)))
        ],
    }
}

pub open spec fn variant_def_of(v: VariantV) -> FieldDefV {
    FieldDefV { name: v.name, value: payload_tokens(v.content) }
}

pub open spec fn variant_defs_of(vs: Seq<VariantV>) -> Seq<FieldDefV> {
    vs.map_values(|v: VariantV| variant_def_of(v))
}

/// The flattened form of one definition: each inline definition directly in
/// it is replaced by its name; everything else is kept as written.
pub open spec fn def_of(n: NewV) -> DefV {
    match n {
        NewV::Struct { name, fields } => DefV {
            kind: ContentType::Struct,
            name,
            fields: field_defs_of(fields),
        },
        NewV::Enum { name, variants } => DefV {
            kind: ContentType::Enum,
            name,
            fields: variant_defs_of(variants),
        },
    }
}

/// The flattened definitions of a tree, in the order in which the walk
/// finishes them: for each field in order, the definitions hoisted out of it;
/// then the definition itself.
pub open spec fn flatten(n: NewV) -> Seq<DefV>
    decreases n, 1int,
{
    match n {
        NewV::Struct { fields, .. } => hoist_fields(fields) + seq![def_of(n)],
        NewV::Enum { variants, .. } => hoist_variants(variants) + seq![def_of(n)],
    }
}

pub open spec fn hoist_fields(fs: Seq<FieldV>) -> Seq<DefV>
    decreases fs, 0int,
{
    if fs.len() == 0 {
        Seq::empty()
    } else {
        hoist_fields(fs.drop_last()) + hoist_content(fs.last().value)
    }
}

pub open spec fn hoist_content(c: ContentV) -> Seq<DefV>
    decreases c, 0int,
{
    match c {
        ContentV::Existing(_) => Seq::empty(),
        ContentV::New(m) => flatten(*m),
    }
}

pub open spec fn hoist_variants(vs: Seq<VariantV>) -> Seq<DefV>
    decreases vs, 0int,
{
    if vs.len() == 0 {
        Seq::empty()
    } else {
        hoist_variants(vs.drop_last()) + hoist_payload(vs.last().content)
    }
}

pub open spec fn hoist_payload(p: Option<PayloadV>) -> Seq<DefV>
    decreases p, 0int,
{
    match p {
        Some(PayloadV::Struct(fs)) => hoist_fields(fs),
        _ => Seq::empty(),
    }
}

proof fn lemma_fields_tokens_push(fs: Seq<FieldDefV>, f: FieldDefV)
    ensures
        fields_tokens(fs.push(f)) == fields_tokens(fs) + field_tokens(f),
{
    assert(fs.push(f).drop_last() =~= fs);
}

proof fn lemma_types_tokens_push(tys: Seq<Seq<TokenV>>, t: Seq<TokenV>)
    ensures
        types_tokens(tys.push(t)) == types_tokens(tys) + t + seq![punct_v(',')],
{
    assert(tys.push(t).drop_last() =~= tys);
}

/// The tokens of a struct body (or a struct variant's payload).
pub fn field_defs_tokens(fds: &Vec<FieldDef>) -> (r: Vec<Token>)
    ensures
        view_tokens(r@) == fields_tokens(view_field_defs(fds@)),
{
    let mut r: Vec<Token> = Vec::new();
    let mut i: usize = 0;
    while i < fds.len()
        invariant
            i <= fds.len(),
            view_tokens(r@) == fields_tokens(view_field_defs(fds@.take(i as int))),
        decreases fds.len() - i,
    {
        let fd = &fds[i];
        let ghost before = view_tokens(r@);
        push_token(&mut r, Token::Ident(fd.name.clone()));
        push_token(&mut r, punct(':'));
        append_tokens(&mut r, &fd.value_type);
        push_token(&mut r, punct(','));
        proof {
            assert(fds@.take(i + 1) =~= fds@.take(i as int).push(fds@[i as int]));
            assert(view_field_defs(fds@.take(i + 1)) =~= view_field_defs(fds@.take(i as int)).push(
                fds@[i as int]@,
            ));
            lemma_fields_tokens_push(view_field_defs(fds@.take(i as int)), fds@[i as int]@);
            assert(view_tokens(r@) =~= before + field_tokens(fds@[i as int]@));
        }
        i = i + 1;
    }
    proof {
        assert(fds@.take(i as int) =~= fds@);
    }
    r
}

/// The tokens inside a tuple payload.
fn tuple_tokens(tys: &Vec<Vec<Token>>) -> (r: Vec<Token>)
    ensures
        view_tokens(r@) == types_tokens(view_types(tys@)),
{
    let mut r: Vec<Token> = Vec::new();
    let mut i: usize = 0;
    proof {
        lemma_view_types(tys@);
    }
    while i < tys.len()
        invariant
            i <= tys.len(),
            view_types(tys@).len() == tys.len(),
            forall|j: int| 0 <= j < tys.len() ==> #[trigger] view_types(tys@)[j] == view_tokens(tys@[j]@),
            view_tokens(r@) == types_tokens(view_types(tys@).take(i as int)),
        decreases tys.len() - i,
    {
        let ghost before = view_tokens(r@);
        append_tokens(&mut r, &tys[i]);
        push_token(&mut r, punct(','));
        proof {
            assert(view_types(tys@).take(i + 1) =~= view_types(tys@).take(i as int).push(
                view_types(tys@)[i as int],
            ));
            lemma_types_tokens_push(view_types(tys@).take(i as int), view_types(tys@)[i as int]);
        }
        i = i + 1;
    }
    proof {
        assert(view_types(tys@).take(i as int) =~= view_types(tys@));
    }
    r
}

/// The type that stands for a field in the flattened struct; an inline
/// definition is hoisted into `list` first.
fn resolve_content(c: &Content, list: &mut Vec<Def>) -> (r: Vec<Token>)
    ensures
        view_tokens(r@) == field_value(view_content(*c)),
        view_defs(final(list)@) == view_defs(old(list)@) + hoist_content(view_content(*c)),
    decreases c,
{
    match c {
        Content::Existing(ts) => {
            proof {
                assert(view_defs(list@) + Seq::<DefV>::empty() =~= view_defs(list@));
            }
            copy_tokens(ts)
        },
        Content::New(n) => {
            let name = n.name();
            interpret_new(n, list);
            let mut r: Vec<Token> = Vec::new();
            push_token(&mut r, Token::Ident(name));
            proof {
                assert(view_tokens(r@) =~= seq![ident_v(name@)]);
            }
            r
        },
    }
}

/// The flattened fields of a struct body, hoisting the definitions written in
/// them into `list`, field by field.
fn interpret_fields(fs: &Vec<StructField>, list: &mut Vec<Def>) -> (r: Vec<FieldDef>)
    ensures
        view_field_defs(r@) == field_defs_of(view_fields(fs@)),
        view_defs(final(list)@) == view_defs(old(list)@) + hoist_fields(view_fields(fs@)),
    decreases fs,
{
    let mut r: Vec<FieldDef> = Vec::new();
    let mut i: usize = 0;
    proof {
        lemma_view_fields(fs@);
        assert(view_fields(fs@).take(0) =~= Seq::<FieldV>::empty());
        assert(view_defs(list@) + Seq::<DefV>::empty() =~= view_defs(list@));
    }
    while i < fs.len()
        invariant
            i <= fs.len(),
            view_fields(fs@).len() == fs.len(),
            forall|j: int| 0 <= j < fs.len() ==> #[trigger] view_fields(fs@)[j] == view_field(fs@[j]),
            view_field_defs(r@) =~= field_defs_of(view_fields(fs@).take(i as int)),
            view_defs(list@) == view_defs(old(list)@) + hoist_fields(view_fields(fs@).take(i as int)),
        decreases fs.len() - i,
    {
        let field = &fs[i];
        let value_type = resolve_content(&field.value, list);
        let fd = FieldDef { name: field.name.clone(), value_type };
        let ghost prev = r@;
        r.push(fd);
        proof {
            assert(view_field_defs(r@) =~= view_field_defs(prev).push(fd@));
            let s = view_fields(fs@);
            assert(s.take(i + 1) =~= s.take(i as int).push(s[i as int]));
            assert(s.take(i + 1).drop_last() =~= s.take(i as int));
            assert(view_field_defs(r@) =~= field_defs_of(s.take(i + 1)));
            assert(view_defs(list@) =~= view_defs(old(list)@) + hoist_fields(s.take(i + 1)));
        }
        i = i + 1;
    }
    proof {
        assert(view_fields(fs@).take(i as int) =~= view_fields(fs@));
    }
    r
}

/// The payload of a flattened variant; definitions written in a struct
/// variant's fields are hoisted into `list`.
fn interpret_payload(p: &Option<EnumContent>, list: &mut Vec<Def>) -> (r: Vec<Token>)
    ensures
        view_tokens(r@) == payload_tokens(view_opt_payload(*p)),
        view_defs(final(list)@) == view_defs(old(list)@) + hoist_payload(view_opt_payload(*p)),
    decreases p,
{
    proof {
        assert(view_defs(list@) + Seq::<DefV>::empty() =~= view_defs(list@));
    }
    match p {
        None => {
            let r: Vec<Token> = Vec::new();
            proof {
                assert(view_tokens(r@) =~= Seq::<TokenV>::empty());
            }
            r
        },
        Some(EnumContent::Tuple(tys)) => {
            let inner = tuple_tokens(tys);
            let mut r: Vec<Token> = Vec::new();
            push_token(&mut r, Token::Group(Delimiter::Parenthesis, inner));
            proof {
                assert(view_tokens(r@) =~= payload_tokens(view_opt_payload(*p)));
            }
            r
        },
        Some(EnumContent::Struct(fs)) => {
            let fds = interpret_fields(fs, list);
            let inner = field_defs_tokens(&fds);
            let mut r: Vec<Token> = Vec::new();
            push_token(&mut r, Token::Group(Delimiter::Brace, inner));
            proof {
                assert(view_tokens(r@) =~= payload_tokens(view_opt_payload(*p)));
            }
            r
        },
    }
}

/// The flattened variants of an enum body, hoisting the definitions written
/// in struct variants into `list`, variant by variant.
fn interpret_variants(vs: &Vec<EnumField>, list: &mut Vec<Def>) -> (r: Vec<FieldDef>)
    ensures
        view_field_defs(r@) == variant_defs_of(view_variants(vs@)),
        view_defs(final(list)@) == view_defs(old(list)@) + hoist_variants(view_variants(vs@)),
    decreases vs,
{
    let mut r: Vec<FieldDef> = Vec::new();
    let mut i: usize = 0;
    proof {
        lemma_view_variants(vs@);
        assert(view_variants(vs@).take(0) =~= Seq::<VariantV>::empty());
        assert(view_defs(list@) + Seq::<DefV>::empty() =~= view_defs(list@));
    }
    while i < vs.len()
        invariant
            i <= vs.len(),
            view_variants(vs@).len() == vs.len(),
            forall|j: int| 0 <= j < vs.len() ==> #[trigger] view_variants(vs@)[j] == view_variant(vs@[j]),
            view_field_defs(r@) =~= variant_defs_of(view_variants(vs@).take(i as int)),
            view_defs(list@) == view_defs(old(list)@) + hoist_variants(view_variants(vs@).take(i as int)),
        decreases vs.len() - i,
    {
        let variant = &vs[i];
        let value_type = interpret_payload(&variant.content, list);
        let fd = FieldDef { name: variant.name.clone(), value_type };
        let ghost prev = r@;
        r.push(fd);
        proof {
            assert(view_field_defs(r@) =~= view_field_defs(prev).push(fd@));
            let s = view_variants(vs@);
            assert(s.take(i + 1) =~= s.take(i as int).push(s[i as int]));
            assert(s.take(i + 1).drop_last() =~= s.take(i as int));
            assert(view_field_defs(r@) =~= variant_defs_of(s.take(i + 1)));
            assert(view_defs(list@) =~= view_defs(old(list)@) + hoist_variants(s.take(i + 1)));
        }
        i = i + 1;
    }
    proof {
        assert(view_variants(vs@).take(i as int) =~= view_variants(vs@));
    }
    r
}

/// Appends to `list` the flattened definitions of `n`: those hoisted out of
/// each field, in field order, and then `n` itself with each inline
/// definition replaced by its name.
pub fn interpret_new(n: &New, list: &mut Vec<Def>)
    ensures
        view_defs(final(list)@) == view_defs(old(list)@) + flatten(n@),
    decreases n,
{
    match n {
        New::Struct { name, fields } => {
            let fds = interpret_fields(fields, list);
            let d = Def { content_type: ContentType::Struct, name: name.clone(), fields: fds };
            let ghost mid = view_defs(list@);
            list.push(d);
            proof {
                assert(view_defs(list@) =~= mid.push(d@));
                assert(view_defs(list@) =~= view_defs(old(list)@) + flatten(n@));
            }
        },
        New::Enum { name, fields } => {
            let fds = interpret_variants(fields, list);
            let d = Def { content_type: ContentType::Enum, name: name.clone(), fields: fds };
            let ghost mid = view_defs(list@);
            list.push(d);
            proof {
                assert(view_defs(list@) =~= mid.push(d@));
                assert(view_defs(list@) =~= view_defs(old(list)@) + flatten(n@));
            }
        },
    }
}

impl Define {
    /// Flattens the definition: every definition written inline is hoisted
    /// out as a definition of its own and replaced by its name.
    pub fn interpret(self) -> (r: List)
        ensures
            r@ == flatten(self@),
    {
        let mut list: Vec<Def> = Vec::new();
        interpret_new(&self.0, &mut list);
        proof {
            assert(view_defs(Seq::<Def>::empty()) =~= Seq::<DefV>::empty());
            assert(Seq::<DefV>::empty() + flatten(self@) =~= flatten(self@));
        }
        List(list)
    }
}

} // verus!

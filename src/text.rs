//! Tokens, definitions and flattened definitions as text: for diagnostics,
//! and to hand an existing type to syn.
use vstd::prelude::*;
use vstd::string::StrSliceExecFns;
use crate::ast::{
    Content, ContentV, Define, EnumContent, EnumField, FieldV, New, NewV, PayloadV, StructField,
    VariantV, lemma_view_fields, lemma_view_types, lemma_view_variants, view_content, view_field,
    view_fields, view_payload, view_types, view_variant, view_variants,
};
use crate::interpreter::{ContentType, Def, DefV, FieldDefV, List, view_defs, view_field_defs};
use crate::token::{Delimiter, Token, TokenV, lemma_view_tokens, view_tokens};

verus! {

broadcast use vstd::std_specs::vec::group_vec_axioms;

/// Relies on `String`'s `FromIterator<char>`: the string holds the given
/// characters, in order.
#[verifier::external_body]
fn string_of(cs: &Vec<char>) -> (r: String)
    ensures
        r@ == cs@,
{
    cs.iter().collect()
}

/// How a token reads as text: an identifier or literal as written, a
/// punctuation character alone, a group between its delimiters (braces with
/// a space inside them when the group is not empty).
pub open spec fn token_text(t: TokenV) -> Seq<char>
    decreases t, 0int,
{
    match t {
        TokenV::Ident(s) => s,
        TokenV::Punct(c, _) => seq![c],
        TokenV::Literal(s) => s,
        TokenV::Group(d, inner) => match d {
            Delimiter::Parenthesis => seq!['('] + tokens_text(inner) + seq![')'],
            Delimiter::Bracket => seq!['['] + tokens_text(inner) + seq![']'],
            Delimiter::Brace => if inner.len() == 0 {
                seq!['{', ' ', '}']
            } else {
                seq!['{', ' '] + tokens_text(inner) + seq![' ', '}']
            },
            Delimiter::Invisible => tokens_text(inner),
        },
    }
}

/// Tokens as text: separated by a space, except after a joint punctuation
/// character.
pub open spec fn tokens_text(ts: Seq<TokenV>) -> Seq<char>
    decreases ts, 1int,
{
    if ts.len() == 0 {
        Seq::empty()
    } else if ts.len() == 1 {
        token_text(ts[0])
    } else {
        token_text(ts[0]) + (if ts[0] matches TokenV::Punct(_, true) {
            Seq::empty()
        } else {
            seq![' ']
        }) + tokens_text(ts.subrange(1, ts.len() as int))
    }
}

/// `name{field,field,}`, for a struct and for an enum alike.
pub open spec fn new_text(n: NewV) -> Seq<char>
    decreases n, 1int,
{
    match n {
        NewV::Struct { name, fields } => name + seq!['{'] + fields_text(fields) + seq!['}'],
        NewV::Enum { name, variants } => name + seq!['{'] + variants_text(variants) + seq!['}'],
    }
}

/// Each field as `name:type`, followed by a comma.
pub open spec fn fields_text(fs: Seq<FieldV>) -> Seq<char>
    decreases fs, 0int,
{
    if fs.len() == 0 {
        Seq::empty()
    } else {
        fields_text(fs.drop_last()) + field_text(fs.last()) + seq![',']
    }
}

pub open spec fn field_text(f: FieldV) -> Seq<char>
    decreases f, 0int,
{
    f.name + seq![':'] + content_text(f.value)
}

pub open spec fn content_text(c: ContentV) -> Seq<char>
    decreases c, 0int,
{
    match c {
        ContentV::Existing(ty) => tokens_text(ty),
        ContentV::New(m) => new_text(*m),
    }
}

/// Each variant as its name and payload, followed by a comma.
pub open spec fn variants_text(vs: Seq<VariantV>) -> Seq<char>
    decreases vs, 0int,
{
    if vs.len() == 0 {
        Seq::empty()
    } else {
        variants_text(vs.drop_last()) + variant_text(vs.last()) + seq![',']
    }
}

pub open spec fn variant_text(v: VariantV) -> Seq<char>
    decreases v, 0int,
{
    v.name + match v.content {
        None => Seq::empty(),
        Some(p) => payload_text(p),
    }
}

/// `(type,type,)` or `{field,field,}`.
pub open spec fn payload_text(p: PayloadV) -> Seq<char>
    decreases p, 0int,
{
    match p {
        PayloadV::Tuple(tys) => seq!['('] + types_text(tys) + seq![')'],
        PayloadV::Struct(fs) => seq!['{'] + fields_text(fs) + seq!['}'],
    }
}

pub open spec fn types_text(tys: Seq<Seq<TokenV>>) -> Seq<char>
    decreases tys.len(),
{
    if tys.len() == 0 {
        Seq::empty()
    } else {
        types_text(tys.drop_last()) + tokens_text(tys.last()) + seq![',']
    }
}

/// `struct Name{field:type,}` or `enum Name{Variant payload,}`.
pub open spec fn def_text(d: DefV) -> Seq<char> {
    match d.kind {
        ContentType::Struct => "struct "@ + d.name + seq!['{'] + def_fields_text(d.fields, true)
            + seq!['}'],
        ContentType::Enum => "enum "@ + d.name + seq!['{'] + def_fields_text(d.fields, false)
            + seq!['}'],
    }
}

/// Each field as `name:type,` (`colon`), or each variant as `namepayload,`.
pub open spec fn def_fields_text(fs: Seq<FieldDefV>, colon: bool) -> Seq<char>
    decreases fs.len(),
{
    if fs.len() == 0 {
        Seq::empty()
    } else {
        def_fields_text(fs.drop_last(), colon) + fs.last().name + (if colon {
            seq![':']
        } else {
            Seq::empty()
        }) + tokens_text(fs.last().value) + seq![',']
    }
}

/// `List[def, def]`.
pub open spec fn list_text(ds: Seq<DefV>) -> Seq<char> {
    "List["@ + defs_text(ds) + seq![']']
}

pub open spec fn defs_text(ds: Seq<DefV>) -> Seq<char>
    decreases ds.len(),
{
    if ds.len() == 0 {
        Seq::empty()
    } else if ds.len() == 1 {
        def_text(ds[0])
    } else {
        defs_text(ds.drop_last()) + seq![',', ' '] + def_text(ds.last())
    }
}

fn push_char(out: &mut Vec<char>, c: char)
    ensures
        final(out)@ == old(out)@ + seq![c],
{
    out.push(c);
    proof {
        assert(out@ =~= old(out)@ + seq![c]);
    }
}

fn push_str(out: &mut Vec<char>, s: &str)
    ensures
        final(out)@ == old(out)@ + s@,
{
    let n = s.unicode_len();
    let mut i: usize = 0;
    while i < n
        invariant
            n == s@.len(),
            i <= n,
            out@ == old(out)@ + s@.take(i as int),
        decreases n - i,
    {
        let c = s.get_char(i);
        out.push(c);
        proof {
            assert(s@.take(i + 1) =~= s@.take(i as int) + seq![c]);
            assert(out@ =~= old(out)@ + s@.take(i + 1));
        }
        i = i + 1;
    }
    proof {
        assert(s@.take(i as int) =~= s@);
    }
}

fn push_token_text(out: &mut Vec<char>, t: &Token)
    ensures
        final(out)@ == old(out)@ + token_text(t@),
    decreases t, 0int, 0int,
{
    match t {
        Token::Ident(s) => push_str(out, s.as_str()),
        Token::Punct(c, _) => push_char(out, *c),
        Token::Literal(s) => push_str(out, s.as_str()),
        Token::Group(d, inner) => {
            let ghost before = out@;
            proof {
                lemma_view_tokens(inner@);
            }
            match d {
                Delimiter::Parenthesis => {
                    push_char(out, '(');
                    push_tokens_text(out, inner);
                    push_char(out, ')');
                },
                Delimiter::Bracket => {
                    push_char(out, '[');
                    push_tokens_text(out, inner);
                    push_char(out, ']');
                },
                Delimiter::Brace => {
                    push_char(out, '{');
                    push_char(out, ' ');
                    if inner.len() > 0 {
                        push_tokens_text(out, inner);
                        push_char(out, ' ');
                    }
                    push_char(out, '}');
                },
                Delimiter::Invisible => {
                    push_tokens_text(out, inner);
                },
            }
            proof {
                assert(out@ =~= before + token_text(t@));
            }
        },
    }
}

fn push_tokens_text(out: &mut Vec<char>, ts: &Vec<Token>)
    ensures
        final(out)@ == old(out)@ + tokens_text(view_tokens(ts@)),
    decreases ts, 2int, 0int,
{
    proof {
        lemma_view_tokens(ts@);
    }
    if ts.len() == 0 {
        proof {
            assert(out@ =~= old(out)@ + tokens_text(view_tokens(ts@)));
        }
    } else {
        push_tokens_from(out, ts, 0);
        proof {
            assert(view_tokens(ts@).subrange(0, ts@.len() as int) =~= view_tokens(ts@));
        }
    }
}

/// Appends the text of the tokens from `i` to the end.
fn push_tokens_from(out: &mut Vec<char>, ts: &Vec<Token>, i: usize)
    requires
        i < ts.len(),
    ensures
        final(out)@ == old(out)@ + tokens_text(view_tokens(ts@).subrange(i as int, ts@.len() as int)),
    decreases ts, 1int, ts.len() - i,
{
    let ghost v = view_tokens(ts@);
    proof {
        lemma_view_tokens(ts@);
    }
    let ghost s = v.subrange(i as int, v.len() as int);
    push_token_text(out, &ts[i]);
    if i + 1 < ts.len() {
        let joint = match &ts[i] {
            Token::Punct(_, j) => *j,
            _ => false,
        };
        if !joint {
            push_char(out, ' ');
        }
        push_tokens_from(out, ts, i + 1);
        proof {
            assert(s.subrange(1, s.len() as int) =~= v.subrange(i + 1, v.len() as int));
            assert(s[0] == v[i as int]);
            assert(out@ =~= old(out)@ + tokens_text(s));
        }
    } else {
        proof {
            assert(s =~= seq![v[i as int]]);
        }
    }
}

fn push_new_text(out: &mut Vec<char>, n: &New)
    ensures
        final(out)@ == old(out)@ + new_text(n@),
    decreases n, 1int,
{
    let ghost before = out@;
    match n {
        New::Struct { name, fields } => {
            push_str(out, name.as_str());
            push_char(out, '{');
            push_fields_text(out, fields);
            push_char(out, '}');
        },
        New::Enum { name, fields } => {
            push_str(out, name.as_str());
            push_char(out, '{');
            push_variants_text(out, fields);
            push_char(out, '}');
        },
    }
    proof {
        assert(out@ =~= before + new_text(n@));
    }
}

fn push_fields_text(out: &mut Vec<char>, fs: &Vec<StructField>)
    ensures
        final(out)@ == old(out)@ + fields_text(view_fields(fs@)),
    decreases fs, 0int,
{
    proof {
        lemma_view_fields(fs@);
    }
    let ghost v = view_fields(fs@);
    let mut i: usize = 0;
    while i < fs.len()
        invariant
            i <= fs.len(),
            v == view_fields(fs@),
            v.len() == fs.len(),
            forall|j: int| 0 <= j < fs.len() ==> #[trigger] v[j] == view_field(fs@[j]),
            out@ == old(out)@ + fields_text(v.take(i as int)),
        decreases fs.len() - i,
    {
        let ghost before = out@;
        push_field_text(out, &fs[i]);
        push_char(out, ',');
        proof {
            assert(v.take(i + 1).drop_last() =~= v.take(i as int));
            assert(out@ =~= old(out)@ + fields_text(v.take(i + 1)));
        }
        i = i + 1;
    }
    proof {
        assert(v.take(i as int) =~= v);
    }
}

fn push_field_text(out: &mut Vec<char>, f: &StructField)
    ensures
        final(out)@ == old(out)@ + field_text(view_field(*f)),
    decreases f, 0int,
{
    let ghost before = out@;
    push_str(out, f.name.as_str());
    push_char(out, ':');
    push_content_text(out, &f.value);
    proof {
        assert(out@ =~= before + field_text(view_field(*f)));
    }
}

fn push_content_text(out: &mut Vec<char>, c: &Content)
    ensures
        final(out)@ == old(out)@ + content_text(view_content(*c)),
    decreases c, 0int,
{
    match c {
        Content::Existing(ty) => push_tokens_text(out, ty),
        Content::New(m) => push_new_text(out, m),
    }
}

fn push_variants_text(out: &mut Vec<char>, vs: &Vec<EnumField>)
    ensures
        final(out)@ == old(out)@ + variants_text(view_variants(vs@)),
    decreases vs, 0int,
{
    proof {
        lemma_view_variants(vs@);
    }
    let ghost v = view_variants(vs@);
    let mut i: usize = 0;
    while i < vs.len()
        invariant
            i <= vs.len(),
            v == view_variants(vs@),
            v.len() == vs.len(),
            forall|j: int| 0 <= j < vs.len() ==> #[trigger] v[j] == view_variant(vs@[j]),
            out@ == old(out)@ + variants_text(v.take(i as int)),
        decreases vs.len() - i,
    {
        push_variant_text(out, &vs[i]);
        push_char(out, ',');
        proof {
            assert(v.take(i + 1).drop_last() =~= v.take(i as int));
            assert(out@ =~= old(out)@ + variants_text(v.take(i + 1)));
        }
        i = i + 1;
    }
    proof {
        assert(v.take(i as int) =~= v);
    }
}

fn push_variant_text(out: &mut Vec<char>, v: &EnumField)
    ensures
        final(out)@ == old(out)@ + variant_text(view_variant(*v)),
    decreases v, 0int,
{
    let ghost before = out@;
    push_str(out, v.name.as_str());
    match &v.content {
        None => {},
        Some(p) => push_payload_text(out, p),
    }
    proof {
        assert(out@ =~= before + variant_text(view_variant(*v)));
    }
}

fn push_payload_text(out: &mut Vec<char>, p: &EnumContent)
    ensures
        final(out)@ == old(out)@ + payload_text(view_payload(*p)),
    decreases p, 0int,
{
    let ghost before = out@;
    match p {
        EnumContent::Tuple(tys) => {
            push_char(out, '(');
            push_types_text(out, tys);
            push_char(out, ')');
        },
        EnumContent::Struct(fs) => {
            push_char(out, '{');
            push_fields_text(out, fs);
            push_char(out, '}');
        },
    }
    proof {
        assert(out@ =~= before + payload_text(view_payload(*p)));
    }
}

fn push_types_text(out: &mut Vec<char>, tys: &Vec<Vec<Token>>)
    ensures
        final(out)@ == old(out)@ + types_text(view_types(tys@)),
{
    proof {
        lemma_view_types(tys@);
    }
    let ghost v = view_types(tys@);
    let mut i: usize = 0;
    while i < tys.len()
        invariant
            i <= tys.len(),
            v == view_types(tys@),
            v.len() == tys.len(),
            forall|j: int| 0 <= j < tys.len() ==> #[trigger] v[j] == view_tokens(tys@[j]@),
            out@ == old(out)@ + types_text(v.take(i as int)),
        decreases tys.len() - i,
    {
        push_tokens_text(out, &tys[i]);
        push_char(out, ',');
        proof {
            assert(v.take(i + 1).drop_last() =~= v.take(i as int));
            assert(out@ =~= old(out)@ + types_text(v.take(i + 1)));
        }
        i = i + 1;
    }
    proof {
        assert(v.take(i as int) =~= v);
    }
}

fn push_def_text(out: &mut Vec<char>, d: &Def)
    ensures
        final(out)@ == old(out)@ + def_text(d@),
{
    let ghost before = out@;
    let colon = match d.content_type {
        ContentType::Struct => {
            push_str(out, "struct ");
            true
        },
        ContentType::Enum => {
            push_str(out, "enum ");
            false
        },
    };
    push_str(out, d.name.as_str());
    push_char(out, '{');
    let ghost mid = out@;
    let ghost v = view_field_defs(d.fields@);
    let mut i: usize = 0;
    while i < d.fields.len()
        invariant
            i <= d.fields.len(),
            v == view_field_defs(d.fields@),
            out@ == mid + def_fields_text(v.take(i as int), colon),
        decreases d.fields.len() - i,
    {
        let f = &d.fields[i];
        push_str(out, f.name.as_str());
        if colon {
            push_char(out, ':');
        }
        push_tokens_text(out, &f.value_type);
        push_char(out, ',');
        proof {
            assert(v.take(i + 1).drop_last() =~= v.take(i as int));
            assert(v.take(i + 1).last() == f@);
            assert(out@ =~= mid + def_fields_text(v.take(i + 1), colon));
        }
        i = i + 1;
    }
    push_char(out, '}');
    proof {
        assert(v.take(i as int) =~= v);
        reveal_strlit("struct ");
        reveal_strlit("enum ");
        assert(out@ =~= before + def_text(d@));
    }
}

impl New {
    /// The definition as text: `Name{a:u8,b:Inner{c:u8,},}`.
    pub fn describe(&self) -> (r: String)
        ensures
            r@ == new_text(self@),
    {
        let mut out: Vec<char> = Vec::new();
        push_new_text(&mut out, self);
        proof {
            assert(out@ =~= new_text(self@));
        }
        string_of(&out)
    }
}

impl Define {
    /// `Define(` and the definition as text, then `)`.
    pub fn describe(&self) -> (r: String)
        ensures
            r@ == "Define("@ + new_text(self@) + seq![')'],
    {
        let mut out: Vec<char> = Vec::new();
        push_str(&mut out, "Define(");
        push_new_text(&mut out, &self.0);
        push_char(&mut out, ')');
        string_of(&out)
    }
}

impl StructField {
    /// `name:type`.
    pub fn describe(&self) -> (r: String)
        ensures
            r@ == field_text(view_field(*self)),
    {
        let mut out: Vec<char> = Vec::new();
        push_field_text(&mut out, self);
        proof {
            assert(out@ =~= field_text(view_field(*self)));
        }
        string_of(&out)
    }
}

impl Content {
    /// The existing type as text, or the inline definition as text.
    pub fn describe(&self) -> (r: String)
        ensures
            r@ == content_text(view_content(*self)),
    {
        let mut out: Vec<char> = Vec::new();
        push_content_text(&mut out, self);
        proof {
            assert(out@ =~= content_text(view_content(*self)));
        }
        string_of(&out)
    }
}

impl EnumField {
    /// The variant's name followed by its payload.
    pub fn describe(&self) -> (r: String)
        ensures
            r@ == variant_text(view_variant(*self)),
    {
        let mut out: Vec<char> = Vec::new();
        push_variant_text(&mut out, self);
        proof {
            assert(out@ =~= variant_text(view_variant(*self)));
        }
        string_of(&out)
    }
}

impl EnumContent {
    /// `(type,type,)` or `{field,field,}`.
    pub fn describe(&self) -> (r: String)
        ensures
            r@ == payload_text(view_payload(*self)),
    {
        let mut out: Vec<char> = Vec::new();
        push_payload_text(&mut out, self);
        proof {
            assert(out@ =~= payload_text(view_payload(*self)));
        }
        string_of(&out)
    }
}

impl Def {
    /// The flattened definition as text: `struct Name{a:u8,b:Inner,}`.
    pub fn describe(&self) -> (r: String)
        ensures
            r@ == def_text(self@),
    {
        let mut out: Vec<char> = Vec::new();
        push_def_text(&mut out, self);
        proof {
            assert(out@ =~= def_text(self@));
        }
        string_of(&out)
    }
}

impl List {
    /// `List[` and the definitions as text, separated by `, `, then `]`.
    pub fn describe(&self) -> (r: String)
        ensures
            r@ == list_text(self@),
    {
        let mut out: Vec<char> = Vec::new();
        push_str(&mut out, "List[");
        let ghost mid = out@;
        let ghost v = view_defs(self.0@);
        let mut i: usize = 0;
        while i < self.0.len()
            invariant
                i <= self.0.len(),
                v == view_defs(self.0@),
                out@ == mid + defs_text(v.take(i as int)),
            decreases self.0.len() - i,
        {
            if i > 0 {
                push_char(&mut out, ',');
                push_char(&mut out, ' ');
            }
            push_def_text(&mut out, &self.0[i]);
            proof {
                assert(v.take(i + 1).drop_last() =~= v.take(i as int));
                if i == 0 {
                    assert(v.take(1) =~= seq![v[0]]);
                }
                assert(out@ =~= mid + defs_text(v.take(i + 1)));
            }
            i = i + 1;
        }
        push_char(&mut out, ']');
        proof {
            assert(v.take(i as int) =~= v);
            reveal_strlit("List[");
            assert(out@ =~= list_text(self@));
        }
        string_of(&out)
    }
}

/// Tokens as text.
pub fn tokens_string(ts: &Vec<Token>) -> (r: String)
    ensures
        r@ == tokens_text(view_tokens(ts@)),
{
    let mut out: Vec<char> = Vec::new();
    push_tokens_text(&mut out, ts);
    proof {
        assert(out@ =~= tokens_text(view_tokens(ts@)));
    }
    string_of(&out)
}

} // verus!

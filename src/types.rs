//! The existing types of a definition, and syn's verdict on each of them.
use vstd::prelude::*;
use crate::ast::{
    Content, ContentV, Define, EnumContent, EnumField, FieldV, New, NewV, PayloadV, StructField,
    VariantV, lemma_view_fields, lemma_view_variants, view_content, view_field, view_fields,
    view_opt_payload, view_types, view_variant, view_variants,
};
use crate::parser::{SyntaxError, parse_define_spec};
use crate::text::tokens_string;
use crate::token::{Token, TokenV, copy_tokens, view_tokens};

verus! {

broadcast use vstd::std_specs::vec::group_vec_axioms;

#[verifier::external_type_specification]
#[verifier::external_body]
pub struct ExTokenStream(proc_macro2::TokenStream);

/// Relies on `proc_macro2::TokenStream::from_str` to lex the text; a text that
/// does not lex gives `None`. Which texts lex depends on the lexer in use (the
/// compiler's inside a macro expansion), so nothing more is promised.
#[verifier::external_body]
fn lex(text: &str) -> (r: Option<proc_macro2::TokenStream>) {
    text.parse::<proc_macro2::TokenStream>().ok()
}

/// Relies on `syn::parse2::<syn::Type>`: whether the whole stream reads as one
/// type. What syn accepts depends on the features it was built with, so
/// nothing is promised of the answer.
#[verifier::external_body]
fn reads_as_type(stream: proc_macro2::TokenStream) -> (r: bool) {
    syn::parse2::<syn::Type>(stream).is_ok()
}

/// The existing types written in a definition, in the order written: in its
/// fields, in tuple variants and in struct variants' fields, and in the
/// definitions written inline, where they stand.
pub open spec fn types_in_new(n: NewV) -> Seq<Seq<TokenV>>
    decreases n, 1int,
{
    match n {
        NewV::Struct { fields, .. } => types_in_fields(fields),
        NewV::Enum { variants, .. } => types_in_variants(variants),
    }
}

pub open spec fn types_in_fields(fs: Seq<FieldV>) -> Seq<Seq<TokenV>>
    decreases fs, 0int,
{
    if fs.len() == 0 {
        Seq::empty()
    } else {
        types_in_fields(fs.drop_last()) + types_in_content(fs.last().value)
    }
}

pub open spec fn types_in_content(c: ContentV) -> Seq<Seq<TokenV>>
    decreases c, 0int,
{
    match c {
        ContentV::Existing(ty) => seq![ty],
        ContentV::New(m) => types_in_new(*m),
    }
}

pub open spec fn types_in_variants(vs: Seq<VariantV>) -> Seq<Seq<TokenV>>
    decreases vs, 0int,
{
    if vs.len() == 0 {
        Seq::empty()
    } else {
        types_in_variants(vs.drop_last()) + types_in_payload(vs.last().content)
    }
}

pub open spec fn types_in_payload(p: Option<PayloadV>) -> Seq<Seq<TokenV>>
    decreases p, 0int,
{
    match p {
        Some(PayloadV::Tuple(tys)) => tys,
        Some(PayloadV::Struct(fs)) => types_in_fields(fs),
        None => Seq::empty(),
    }
}

/// There is one verdict for each of `n` types, and each says "a type".
pub open spec fn all_accepted(verdicts: Seq<bool>, n: nat) -> bool {
    verdicts.len() == n && forall|i: int| 0 <= i < verdicts.len() ==> verdicts[i]
}

proof fn lemma_view_types_push(s: Seq<Vec<Token>>, v: Vec<Token>)
    ensures
        view_types(s.push(v)) == view_types(s).push(view_tokens(v@)),
{
    assert(s.push(v).drop_last() =~= s);
}

fn push_type(out: &mut Vec<Vec<Token>>, ty: &Vec<Token>)
    ensures
        view_types(final(out)@) == view_types(old(out)@).push(view_tokens(ty@)),
{
    let c = copy_tokens(ty);
    proof {
        lemma_view_types_push(out@, c);
    }
    out.push(c);
}

fn collect_new(n: &New, out: &mut Vec<Vec<Token>>)
    ensures
        view_types(final(out)@) == view_types(old(out)@) + types_in_new(n@),
    decreases n, 1int,
{
    match n {
        New::Struct { fields, .. } => collect_fields(fields, out),
        New::Enum { fields, .. } => collect_variants(fields, out),
    }
}

fn collect_fields(fs: &Vec<StructField>, out: &mut Vec<Vec<Token>>)
    ensures
        view_types(final(out)@) == view_types(old(out)@) + types_in_fields(view_fields(fs@)),
    decreases fs, 0int,
{
    proof {
        lemma_view_fields(fs@);
        assert(view_types(out@) + Seq::<Seq<TokenV>>::empty() =~= view_types(out@));
    }
    let ghost v = view_fields(fs@);
    let mut i: usize = 0;
    while i < fs.len()
        invariant
            i <= fs.len(),
            v == view_fields(fs@),
            v.len() == fs.len(),
            forall|j: int| 0 <= j < fs.len() ==> #[trigger] v[j] == view_field(fs@[j]),
            view_types(out@) == view_types(old(out)@) + types_in_fields(v.take(i as int)),
        decreases fs.len() - i,
    {
        collect_content(&fs[i].value, out);
        proof {
            assert(v.take(i + 1).drop_last() =~= v.take(i as int));
            assert(view_types(out@) =~= view_types(old(out)@) + types_in_fields(v.take(i + 1)));
        }
        i = i + 1;
    }
    proof {
        assert(v.take(i as int) =~= v);
    }
}

fn collect_content(c: &Content, out: &mut Vec<Vec<Token>>)
    ensures
        view_types(final(out)@) == view_types(old(out)@) + types_in_content(view_content(*c)),
    decreases c, 0int,
{
    match c {
        Content::Existing(ty) => {
            push_type(out, ty);
            proof {
                assert(view_types(out@) =~= view_types(old(out)@) + types_in_content(
                    view_content(*c),
                ));
            }
        },
        Content::New(m) => collect_new(m, out),
    }
}

fn collect_variants(vs: &Vec<EnumField>, out: &mut Vec<Vec<Token>>)
    ensures
        view_types(final(out)@) == view_types(old(out)@) + types_in_variants(view_variants(vs@)),
    decreases vs, 0int,
{
    proof {
        lemma_view_variants(vs@);
        assert(view_types(out@) + Seq::<Seq<TokenV>>::empty() =~= view_types(out@));
    }
    let ghost v = view_variants(vs@);
    let mut i: usize = 0;
    while i < vs.len()
        invariant
            i <= vs.len(),
            v == view_variants(vs@),
            v.len() == vs.len(),
            forall|j: int| 0 <= j < vs.len() ==> #[trigger] v[j] == view_variant(vs@[j]),
            view_types(out@) == view_types(old(out)@) + types_in_variants(v.take(i as int)),
        decreases vs.len() - i,
    {
        collect_payload(&vs[i].content, out);
        proof {
            assert(v.take(i + 1).drop_last() =~= v.take(i as int));
            assert(view_types(out@) =~= view_types(old(out)@) + types_in_variants(v.take(i + 1)));
        }
        i = i + 1;
    }
    proof {
        assert(v.take(i as int) =~= v);
    }
}

fn collect_payload(p: &Option<EnumContent>, out: &mut Vec<Vec<Token>>)
    ensures
        view_types(final(out)@) == view_types(old(out)@) + types_in_payload(view_opt_payload(*p)),
    decreases p, 0int,
{
    match p {
        None => {
            proof {
                assert(view_types(out@) + Seq::<Seq<TokenV>>::empty() =~= view_types(out@));
            }
        },
        Some(EnumContent::Tuple(tys)) => {
            let mut i: usize = 0;
            proof {
                crate::ast::lemma_view_types(tys@);
            }
            while i < tys.len()
                invariant
                    i <= tys.len(),
                    view_types(tys@).len() == tys.len(),
                    forall|j: int| 0 <= j < tys.len() ==> #[trigger] view_types(tys@)[j] == view_tokens(tys@[j]@),
                    view_types(out@) == view_types(old(out)@) + view_types(tys@).take(i as int),
                decreases tys.len() - i,
            {
                push_type(out, &tys[i]);
                proof {
                    assert(view_types(out@) =~= view_types(old(out)@) + view_types(tys@).take(i + 1));
                }
                i = i + 1;
            }
            proof {
                assert(view_types(tys@).take(i as int) =~= view_types(tys@));
            }
        },
        Some(EnumContent::Struct(fs)) => collect_fields(fs, out),
    }
}

/// Whether syn takes one existing type for a type: its tokens are turned into
/// text, lexed, and read.
fn syn_reads_type(ty: &Vec<Token>) -> bool {
    let text = tokens_string(ty);
    match lex(text.as_str()) {
        Some(stream) => reads_as_type(stream),
        None => false,
    }
}

impl Define {
    /// Every existing type written in the definition, in the order written.
    pub fn existing_types(&self) -> (r: Vec<Vec<Token>>)
        ensures
            view_types(r@) == types_in_new(self@),
    {
        let mut out: Vec<Vec<Token>> = Vec::new();
        collect_new(&self.0, &mut out);
        proof {
            assert(view_types(Seq::<Vec<Token>>::empty()) =~= Seq::<Seq<TokenV>>::empty());
            assert(Seq::<Seq<TokenV>>::empty() + types_in_new(self@) =~= types_in_new(self@));
        }
        out
    }

    /// Keeps the definition when each of its existing types was read as a
    /// type: `verdicts[i]` is the verdict on the `i`-th of `existing_types`.
    /// Otherwise the definition is refused with `ExpectedType`.
    pub fn accept_types(self, verdicts: &Vec<bool>) -> (r: Result<Define, SyntaxError>)
        ensures
            all_accepted(verdicts@, types_in_new(self@).len()) ==> (r matches Ok(d) && d@ == self@),
            !all_accepted(verdicts@, types_in_new(self@).len()) ==> r == Err::<Define, SyntaxError>(
                SyntaxError::ExpectedType,
            ),
    {
        let tys = self.existing_types();
        proof {
            crate::ast::lemma_view_types(tys@);
        }
        let n = tys.len();
        if verdicts.len() != n {
            return Err(SyntaxError::ExpectedType);
        }
        let mut i: usize = 0;
        while i < verdicts.len()
            invariant
                i <= verdicts.len(),
                forall|j: int| 0 <= j < i ==> verdicts@[j],
            decreases verdicts.len() - i,
        {
            if !verdicts[i] {
                return Err(SyntaxError::ExpectedType);
            }
            i = i + 1;
        }
        Ok(self)
    }

    /// Reads one definition that spans the whole input, and asks syn whether
    /// each existing type in it is a type. A grammar error is reported as the
    /// grammar gives it; when the grammar is met, the result is the definition
    /// read, or `ExpectedType` where syn refused a type.
    pub fn parse(ts: &Vec<Token>) -> (r: Result<Define, SyntaxError>)
        ensures
            parse_define_spec(view_tokens(ts@)) matches Err(e) ==> r == Err::<Define, SyntaxError>(e),
            r matches Ok(d) ==> parse_define_spec(view_tokens(ts@)) == Ok::<NewV, SyntaxError>(d@),
            (parse_define_spec(view_tokens(ts@)) is Ok && r is Err) ==> r == Err::<Define, SyntaxError>(
                SyntaxError::ExpectedType,
            ),
    {
        match Define::read(ts) {
            Err(e) => Err(e),
            Ok(d) => {
                let tys = d.existing_types();
                let mut verdicts: Vec<bool> = Vec::new();
                let mut i: usize = 0;
                while i < tys.len()
                    invariant
                        i <= tys.len(),
                    decreases tys.len() - i,
                {
                    verdicts.push(syn_reads_type(&tys[i]));
                    i = i + 1;
                }
                d.accept_types(&verdicts)
            },
        }
    }
}

} // verus!

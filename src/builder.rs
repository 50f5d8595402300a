//! Emitting the flattened definitions as declarations.
use vstd::prelude::*;
use crate::interpreter::{
    ContentType, Def, DefV, FieldDef, FieldDefV, List, field_defs_tokens, fields_tokens,
    view_defs, view_field_defs,
};
use crate::token::{
    Delimiter, Token, TokenV, append_tokens, ident, ident_v, kw_enum, kw_struct, punct, punct_v,
    push_token, view_tokens,
};

verus! {

broadcast use vstd::std_specs::vec::group_vec_axioms;

/// `name payload,` inside an enum body.
pub open spec fn variant_tokens(f: FieldDefV) -> Seq<TokenV> {
    seq![ident_v(f.name)] + f.value + seq![punct_v(',')]
}

/// The body of an enum: each variant in order, each followed by a comma.
pub open spec fn variants_tokens(fs: Seq<FieldDefV>) -> Seq<TokenV>
    decreases fs.len(),
{
    if fs.len() == 0 {
        Seq::empty()
    } else {
        variants_tokens(fs.drop_last()) + variant_tokens(fs.last())
    }
}

/// The declaration of one flattened definition:
/// `struct Name { .. }` or `enum Name { .. }`.
pub open spec fn decl_tokens(d: DefV) -> Seq<TokenV> {
    match d.kind {
        ContentType::Struct => seq![
            ident_v(kw_struct()),
            ident_v(d.name),
            TokenV::Group(Delimiter::Brace, fields_tokens(d.fields)),
        ],
        ContentType::Enum => seq![
            ident_v(kw_enum()),
            ident_v(d.name),
            TokenV::Group(Delimiter::Brace, variants_tokens(d.fields)),
        ],
    }
}

/// The declarations in the order in which they are emitted: the last
/// definition of the list first.
pub open spec fn declarations(ds: Seq<DefV>) -> Seq<Seq<TokenV>>
    decreases ds.len(),
{
    if ds.len() == 0 {
        Seq::empty()
    } else {
        seq![decl_tokens(ds.last())] + declarations(ds.drop_last())
    }
}

/// The emitted tokens: the declaration of the last definition, then those of
/// the rest of the list.
pub open spec fn build_tokens(ds: Seq<DefV>) -> Seq<TokenV>
    decreases ds.len(),
{
    if ds.len() == 0 {
        Seq::empty()
    } else {
        decl_tokens(ds.last()) + build_tokens(ds.drop_last())
    }
}

proof fn lemma_variants_tokens_push(fs: Seq<FieldDefV>, f: FieldDefV)
    ensures
        variants_tokens(fs.push(f)) == variants_tokens(fs) + variant_tokens(f),
{
    assert(fs.push(f).drop_last() =~= fs);
}

/// The tokens of an enum body.
fn variant_defs_tokens(fds: &Vec<FieldDef>) -> (r: Vec<Token>)
    ensures
        view_tokens(r@) == variants_tokens(view_field_defs(fds@)),
{
    let mut r: Vec<Token> = Vec::new();
    let mut i: usize = 0;
    while i < fds.len()
        invariant
            i <= fds.len(),
            view_tokens(r@) == variants_tokens(view_field_defs(fds@.take(i as int))),
        decreases fds.len() - i,
    {
        let fd = &fds[i];
        let ghost before = view_tokens(r@);
        push_token(&mut r, Token::Ident(fd.name.clone()));
        append_tokens(&mut r, &fd.value_type);
        push_token(&mut r, punct(','));
        proof {
            assert(fds@.take(i + 1) =~= fds@.take(i as int).push(fds@[i as int]));
            assert(view_field_defs(fds@.take(i + 1)) =~= view_field_defs(fds@.take(i as int)).push(
                fds@[i as int]@,
            ));
            lemma_variants_tokens_push(view_field_defs(fds@.take(i as int)), fds@[i as int]@);
            assert(view_tokens(r@) =~= before + variant_tokens(fds@[i as int]@));
        }
        i = i + 1;
    }
    proof {
        assert(fds@.take(i as int) =~= fds@);
    }
    r
}

/// Appends the declaration of `d` to `out`.
fn emit_def(d: &Def, out: &mut Vec<Token>)
    ensures
        view_tokens(final(out)@) == view_tokens(old(out)@) + decl_tokens(d@),
{
    let ghost before = view_tokens(out@);
    match d.content_type {
        ContentType::Struct => {
            push_token(out, ident("struct"));
            push_token(out, Token::Ident(d.name.clone()));
            let body = field_defs_tokens(&d.fields);
            push_token(out, Token::Group(Delimiter::Brace, body));
        },
        ContentType::Enum => {
            push_token(out, ident("enum"));
            push_token(out, Token::Ident(d.name.clone()));
            let body = variant_defs_tokens(&d.fields);
            push_token(out, Token::Group(Delimiter::Brace, body));
        },
    }
    proof {
        assert(view_tokens(out@) =~= before + decl_tokens(d@));
    }
}

impl List {
    /// Takes the last definition out of the list.
    pub fn next(&mut self) -> (r: Option<Def>)
        ensures
            old(self)@.len() == 0 ==> r is None && final(self)@ == old(self)@,
            old(self)@.len() > 0 ==> (r matches Some(d) && d@ == old(self)@.last()),
            old(self)@.len() > 0 ==> final(self)@ == old(self)@.drop_last(),
    {
        let r = self.0.pop();
        proof {
            if old(self).0@.len() > 0 {
                assert(self@ =~= view_defs(old(self).0@.drop_last()));
            }
        }
        r
    }

    /// The declarations of all definitions, the last definition of the list
    /// first (for a flattened tree: the root first).
    pub fn build(self) -> (r: Vec<Token>)
        ensures
            view_tokens(r@) == build_tokens(self@),
    {
        let ghost all = self@;
        let mut list = self;
        let mut result: Vec<Token> = Vec::new();
        proof {
            assert(Seq::<TokenV>::empty() + build_tokens(all) =~= build_tokens(all));
        }
        while list.0.len() > 0
            invariant
                view_tokens(result@) + build_tokens(list@) == build_tokens(all),
            decreases list.0.len(),
        {
            let ghost rest = list@;
            match list.next() {
                Some(d) => {
                    let ghost before = view_tokens(result@);
                    emit_def(&d, &mut result);
                    proof {
                        assert(before + build_tokens(rest) =~= view_tokens(result@) + build_tokens(
                            list@,
                        ));
                    }
                },
                None => {},
            }
        }
        proof {
            assert(list@ =~= Seq::<DefV>::empty());
            assert(view_tokens(result@) + Seq::<TokenV>::empty() =~= view_tokens(result@));
        }
        result
    }
}

} // verus!

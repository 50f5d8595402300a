//! `retrieve`: `a, b from s` read and turned into binding statements.
use vstd::prelude::*;
use crate::parser::{SyntaxError, is_keyword, is_name, is_name_token, is_punct, is_punct_token};
use crate::token::{
    Token, TokenV, ident, ident_v, lemma_view_tokens, punct, punct_v, push_token, view_tokens,
};

verus! {

/// `a, b, .. from target`: the names to bind, and the value they are read from.
#[derive(Debug, PartialEq, Eq)]
pub struct Retrieve {
    pub idents: Vec<String>,
    pub target: String,
}

pub ghost struct RetrieveV {
    pub idents: Seq<Seq<char>>,
    pub target: Seq<char>,
}

pub open spec fn view_strings(ss: Seq<String>) -> Seq<Seq<char>> {
    ss.map_values(|s: String| s@)
}

impl View for Retrieve {
    type V = RetrieveV;

    open spec fn view(&self) -> RetrieveV {
        RetrieveV { idents: view_strings(self.idents@), target: self.target@ }
    }
}

pub open spec fn kw_from() -> Seq<char> {
    "from"@
}

/// The names that follow the first one, each after a comma, up to `from`;
/// on success, the names and the position of `from`.
pub open spec fn parse_more_idents_spec(ts: Seq<TokenV>, i: nat) -> Result<(Seq<Seq<char>>, nat), SyntaxError>
    decreases ts.len() - i,
{
    if i < ts.len() && ts[i as int] == ident_v(kw_from()) {
        Ok((Seq::empty(), i))
    } else if i >= ts.len() || !is_punct(ts[i as int], ',') {
        Err(SyntaxError::ExpectedComma)
    } else if i + 1 >= ts.len() || !is_name(ts[i + 1int]) {
        Err(SyntaxError::ExpectedIdent)
    } else {
        match parse_more_idents_spec(ts, i + 2) {
            Ok((rest, k)) => Ok((seq![ts[i + 1int]->Ident_0] + rest, k)),
            Err(e) => Err(e),
        }
    }
}

/// The whole input of `retrieve`: `ident (, ident)* from ident`.
pub open spec fn parse_retrieve_spec(ts: Seq<TokenV>) -> Result<RetrieveV, SyntaxError> {
    if ts.len() == 0 || !is_name(ts[0]) {
        Err(SyntaxError::ExpectedIdent)
    } else {
        match parse_more_idents_spec(ts, 1) {
            Ok((rest, k)) => if k + 1 >= ts.len() || !is_name(ts[k + 1int]) {
                Err(SyntaxError::ExpectedIdent)
            } else if k + 2 < ts.len() {
                Err(SyntaxError::UnexpectedToken)
            } else {
                Ok(RetrieveV { idents: seq![ts[0]->Ident_0] + rest, target: ts[k + 1int]->Ident_0 })
            },
            Err(e) => Err(e),
        }
    }
}

/// `let name = target.name;`
pub open spec fn binding_tokens(name: Seq<char>, target: Seq<char>) -> Seq<TokenV> {
    seq![
        ident_v("let"@),
        ident_v(name),
        punct_v('='),
        ident_v(target),
        punct_v('.'),
        ident_v(name),
        punct_v(';'),
    ]
}

/// One binding statement per name, in the order listed.
pub open spec fn bindings_tokens(names: Seq<Seq<char>>, target: Seq<char>) -> Seq<TokenV>
    decreases names.len(),
{
    if names.len() == 0 {
        Seq::empty()
    } else {
        bindings_tokens(names.drop_last(), target) + binding_tokens(names.last(), target)
    }
}

fn parse_more_idents(ts: &Vec<Token>, i: usize) -> (r: Result<(Vec<String>, usize), SyntaxError>)
    ensures
        match r {
            Ok((v, k)) => parse_more_idents_spec(view_tokens(ts@), i as nat) == Ok::<
                (Seq<Seq<char>>, nat),
                SyntaxError,
            >((view_strings(v@), k as nat)),
            Err(e) => parse_more_idents_spec(view_tokens(ts@), i as nat) == Err::<
                (Seq<Seq<char>>, nat),
                SyntaxError,
            >(e),
        },
        r matches Ok((v, k)) ==> k < ts.len(),
    decreases ts.len() - i,
{
    proof {
        lemma_view_tokens(ts@);
    }
    if i < ts.len() && is_keyword(&ts[i], "from") {
        let v: Vec<String> = Vec::new();
        proof {
            assert(view_strings(v@) =~= Seq::<Seq<char>>::empty());
        }
        return Ok((v, i));
    }
    if i >= ts.len() || !is_punct_token(&ts[i], ',') {
        return Err(SyntaxError::ExpectedComma);
    }
    if i + 1 >= ts.len() {
        return Err(SyntaxError::ExpectedIdent);
    }
    if !is_name_token(&ts[i + 1]) {
        return Err(SyntaxError::ExpectedIdent);
    }
    let name = match &ts[i + 1] {
        Token::Ident(s) => s.clone(),
        _ => {
            return Err(SyntaxError::ExpectedIdent);
        },
    };
    match parse_more_idents(ts, i + 2) {
        Ok((rest, k)) => {
            let ghost old_rest = rest@;
            let mut rest = rest;
            rest.insert(0, name);
            proof {
                assert(view_strings(rest@) =~= seq![name@] + view_strings(old_rest));
            }
            Ok((rest, k))
        },
        Err(e) => Err(e),
    }
}

impl Retrieve {
    /// Reads `ident (, ident)* from ident`, spanning the whole input.
    pub fn parse(ts: &Vec<Token>) -> (r: Result<Retrieve, SyntaxError>)
        ensures
            r matches Ok(x) ==> parse_retrieve_spec(view_tokens(ts@)) == Ok::<RetrieveV, SyntaxError>(x@),
            r matches Err(e) ==> parse_retrieve_spec(view_tokens(ts@)) == Err::<RetrieveV, SyntaxError>(e),
    {
        proof {
            lemma_view_tokens(ts@);
        }
        if ts.len() == 0 {
            return Err(SyntaxError::ExpectedIdent);
        }
        if !is_name_token(&ts[0]) {
            return Err(SyntaxError::ExpectedIdent);
        }
        let first = match &ts[0] {
            Token::Ident(s) => s.clone(),
            _ => {
                return Err(SyntaxError::ExpectedIdent);
            },
        };
        match parse_more_idents(ts, 1) {
            Ok((rest, k)) => {
                if k + 1 >= ts.len() {
                    return Err(SyntaxError::ExpectedIdent);
                }
                if !is_name_token(&ts[k + 1]) {
                    return Err(SyntaxError::ExpectedIdent);
                }
                let target = match &ts[k + 1] {
                    Token::Ident(s) => s.clone(),
                    _ => {
                        return Err(SyntaxError::ExpectedIdent);
                    },
                };
                if k + 2 < ts.len() {
                    return Err(SyntaxError::UnexpectedToken);
                }
                let ghost old_rest = rest@;
                let mut idents = rest;
                idents.insert(0, first);
                proof {
                    assert(view_strings(idents@) =~= seq![first@] + view_strings(old_rest));
                }
                Ok(Retrieve { idents, target })
            },
            Err(e) => Err(e),
        }
    }

    /// One statement `let name = target.name;` for each name, in order.
    pub fn build(self) -> (r: Vec<Token>)
        ensures
            view_tokens(r@) == bindings_tokens(self@.idents, self@.target),
    {
        let mut result: Vec<Token> = Vec::new();
        let mut i: usize = 0;
        while i < self.idents.len()
            invariant
                i <= self.idents.len(),
                view_tokens(result@) == bindings_tokens(
                    view_strings(self.idents@).take(i as int),
                    self.target@,
                ),
            decreases self.idents.len() - i,
        {
            let name = &self.idents[i];
            let ghost before = view_tokens(result@);
            push_token(&mut result, ident("let"));
            push_token(&mut result, Token::Ident(name.clone()));
            push_token(&mut result, punct('='));
            push_token(&mut result, Token::Ident(self.target.clone()));
            push_token(&mut result, punct('.'));
            push_token(&mut result, Token::Ident(name.clone()));
            push_token(&mut result, punct(';'));
            proof {
                let s = view_strings(self.idents@);
                assert(s.take(i + 1).drop_last() =~= s.take(i as int));
                assert(view_tokens(result@) =~= before + binding_tokens(s[i as int], self.target@));
            }
            i = i + 1;
        }
        proof {
            assert(view_strings(self.idents@).take(i as int) =~= view_strings(self.idents@));
        }
        result
    }
}

} // verus!

//! Token trees, the input and output of the macros, and their views.
use vstd::prelude::*;

verus! {

broadcast use vstd::std_specs::vec::group_vec_axioms;

/// The bracket kind that encloses a group of tokens.
#[derive(Clone, Copy, PartialEq, Eq, Debug, Structural)]
pub enum Delimiter {
    Parenthesis,
    Brace,
    Bracket,
    Invisible,
}

/// One token tree of the host language: an identifier, a punctuation
/// character, a literal, or a delimited group of further token trees.
#[derive(Debug, PartialEq, Eq)]
pub enum Token {
    Ident(String),
    /// A punctuation character; `joint` is set when it is glued to the next
    /// punctuation character (as the `-` of `->`).
    Punct(char, bool),
    Literal(String),
    Group(Delimiter, Vec<Token>),
}

/// The mathematical value of a [`Token`].
pub ghost enum TokenV {
    Ident(Seq<char>),
    Punct(char, bool),
    Literal(Seq<char>),
    Group(Delimiter, Seq<TokenV>),
}

pub open spec fn view_token(t: Token) -> TokenV
    decreases t, 0int,
{
    match t {
        Token::Ident(s) => TokenV::Ident(s@),
        Token::Punct(c, j) => TokenV::Punct(c, j),
        Token::Literal(s) => TokenV::Literal(s@),
        Token::Group(d, ts) => TokenV::Group(d, view_tokens(ts@)),
    }
}

pub open spec fn view_tokens(ts: Seq<Token>) -> Seq<TokenV>
    decreases ts, 1int,
{
    if ts.len() == 0 {
        Seq::empty()
    } else {
        view_tokens(ts.drop_last()).push(view_token(ts.last()))
    }
}

impl View for Token {
    type V = TokenV;

    open spec fn view(&self) -> TokenV {
        view_token(*self)
    }
}

pub open spec fn ident_v(s: Seq<char>) -> TokenV {
    TokenV::Ident(s)
}

pub open spec fn kw_struct() -> Seq<char> {
    "struct"@
}

pub open spec fn kw_enum() -> Seq<char> {
    "enum"@
}

/// A punctuation character that stands alone.
pub open spec fn punct_v(c: char) -> TokenV {
    TokenV::Punct(c, false)
}

/// The view of a token sequence, element by element.
pub proof fn lemma_view_tokens(ts: Seq<Token>)
    ensures
        view_tokens(ts).len() == ts.len(),
        forall|i: int| 0 <= i < ts.len() ==> #[trigger] view_tokens(ts)[i] == view_token(ts[i]),
    decreases ts.len(),
{
    if ts.len() > 0 {
        lemma_view_tokens(ts.drop_last());
    }
}

pub proof fn lemma_view_tokens_push(a: Seq<Token>, t: Token)
    ensures
        view_tokens(a.push(t)) == view_tokens(a).push(view_token(t)),
{
    assert(a.push(t).drop_last() =~= a);
}

/// An identifier token with the given text.
pub fn ident(s: &str) -> (r: Token)
    ensures
        r@ == ident_v(s@),
{
    Token::Ident(String::from_str(s))
}

pub fn punct(c: char) -> (r: Token)
    ensures
        r@ == punct_v(c),
{
    Token::Punct(c, false)
}

/// A copy of a token tree.
pub fn copy_token(t: &Token) -> (r: Token)
    ensures
        r@ == t@,
    decreases t, 0int,
{
    match t {
        Token::Ident(s) => Token::Ident(s.clone()),
        Token::Punct(c, j) => Token::Punct(*c, *j),
        Token::Literal(s) => Token::Literal(s.clone()),
        Token::Group(d, ts) => Token::Group(*d, copy_tokens(ts)),
    }
}

/// A copy of a token sequence.
pub fn copy_tokens(ts: &Vec<Token>) -> (r: Vec<Token>)
    ensures
        view_tokens(r@) == view_tokens(ts@),
    decreases ts, 1int,
{
    let mut r: Vec<Token> = Vec::new();
    append_tokens(&mut r, ts);
    proof {
        assert(Seq::<TokenV>::empty() + view_tokens(ts@) =~= view_tokens(ts@));
    }
    r
}

/// Appends copies of `ts` to `out`.
pub fn append_tokens(out: &mut Vec<Token>, ts: &Vec<Token>)
    ensures
        view_tokens(final(out)@) == view_tokens(old(out)@) + view_tokens(ts@),
    decreases ts, 0int,
{
    let mut i: usize = 0;
    while i < ts.len()
        invariant
            i <= ts.len(),
            view_tokens(out@) == view_tokens(old(out)@) + view_tokens(ts@.take(i as int)),
        decreases ts.len() - i,
    {
        let t = copy_token(&ts[i]);
        proof {
            lemma_view_tokens_push(out@, t);
            lemma_view_tokens_push(ts@.take(i as int), ts@[i as int]);
            assert(ts@.take(i as int).push(ts@[i as int]) =~= ts@.take(i + 1));
        }
        out.push(t);
        i = i + 1;
    }
    proof {
        assert(ts@.take(i as int) =~= ts@);
    }
}

/// Appends one token to `out`.
pub fn push_token(out: &mut Vec<Token>, t: Token)
    ensures
        view_tokens(final(out)@) == view_tokens(old(out)@).push(t@),
{
    proof {
        lemma_view_tokens_push(out@, t);
    }
    out.push(t);
}

} // verus!

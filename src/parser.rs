//! The grammar of `define`, as spec functions over token views, and the parser that follows it.
use vstd::prelude::*;
use crate::ast::{
    Content, ContentV, Define, EnumContent, EnumField, FieldV, New, NewV, PayloadV, StructField,
    VariantV, lemma_view_fields, lemma_view_types, lemma_view_variants, view_content, view_field,
    view_fields, view_types, view_variant, view_variants,
};
use crate::token::{
    Delimiter, Token, TokenV, copy_token, ident_v, kw_enum, kw_struct, lemma_view_tokens,
    lemma_view_tokens_push, view_tokens,
};

verus! {

/// Why an input does not match the grammar.
#[derive(Clone, Copy, PartialEq, Eq, Debug, Structural)]
pub enum SyntaxError {
    /// A definition does not start with `struct` or `enum`.
    ExpectedStructOrEnum,
    ExpectedIdent,
    ExpectedColon,
    ExpectedBraces,
    ExpectedComma,
    /// A field's type is neither an existing type nor a new definition.
    ExpectedType,
    /// Input is left over after a complete definition.
    UnexpectedToken,
}

/// The diagnostic text of each error.
pub open spec fn message_of(e: SyntaxError) -> Seq<char> {
    match e {
        SyntaxError::ExpectedStructOrEnum => "content of `define!` must start with `struct` or `enum`."@,
        SyntaxError::ExpectedIdent => "expected identifier"@,
        SyntaxError::ExpectedColon => "expected `:`"@,
        SyntaxError::ExpectedBraces => "expected curly braces"@,
        SyntaxError::ExpectedComma => "expected `,`"@,
        SyntaxError::ExpectedType => "Only\n- existing type\n- new struct\n- new enum\nare allowed as type"@,
        SyntaxError::UnexpectedToken => "unexpected token"@,
    }
}

impl SyntaxError {
    /// The diagnostic shown to the user.
    pub fn message(&self) -> (r: String)
        ensures
            r@ == message_of(*self),
    {
        match self {
            SyntaxError::ExpectedStructOrEnum => String::from_str(
                "content of `define!` must start with `struct` or `enum`.",
            ),
            SyntaxError::ExpectedIdent => String::from_str("expected identifier"),
            SyntaxError::ExpectedColon => String::from_str("expected `:`"),
            SyntaxError::ExpectedBraces => String::from_str("expected curly braces"),
            SyntaxError::ExpectedComma => String::from_str("expected `,`"),
            SyntaxError::ExpectedType => String::from_str(
                "Only\n- existing type\n- new struct\n- new enum\nare allowed as type",
            ),
            SyntaxError::UnexpectedToken => String::from_str("unexpected token"),
        }
    }
}

/// The words that cannot stand where a name is expected: Rust's keywords,
/// reserved words and `_`.
pub open spec fn is_reserved(s: Seq<char>) -> bool {
    s == "_"@
        || s == "abstract"@
        || s == "as"@
        || s == "become"@
        || s == "box"@
        || s == "break"@
        || s == "const"@
        || s == "continue"@
        || s == "crate"@
        || s == "do"@
        || s == "else"@
        || s == "enum"@
        || s == "extern"@
        || s == "false"@
        || s == "final"@
        || s == "fn"@
        || s == "for"@
        || s == "if"@
        || s == "impl"@
        || s == "in"@
        || s == "let"@
        || s == "loop"@
        || s == "macro"@
        || s == "match"@
        || s == "mod"@
        || s == "move"@
        || s == "mut"@
        || s == "override"@
        || s == "priv"@
        || s == "pub"@
        || s == "ref"@
        || s == "return"@
        || s == "Self"@
        || s == "self"@
        || s == "static"@
        || s == "struct"@
        || s == "super"@
        || s == "trait"@
        || s == "true"@
        || s == "type"@
        || s == "typeof"@
        || s == "unsafe"@
        || s == "unsized"@
        || s == "use"@
        || s == "virtual"@
        || s == "where"@
        || s == "while"@
        || s == "yield"@
}

/// An identifier that is not a reserved word.
pub open spec fn is_name(t: TokenV) -> bool {
    t matches TokenV::Ident(s) && !is_reserved(s)
}

/// Where an existing type may start: a name, or a group without delimiters
/// (as a type handed on by another macro arrives).
pub open spec fn starts_type(t: TokenV) -> bool {
    is_name(t) || t matches TokenV::Group(Delimiter::Invisible, _)
}

pub open spec fn is_punct(t: TokenV, c: char) -> bool {
    t matches TokenV::Punct(x, _) && x == c
}

/// A `>` that closes a generic argument list, not the tip of an arrow `->`.
pub open spec fn closes_angle(ts: Seq<TokenV>, i: int) -> bool {
    is_punct(ts[i], '>') && !(i > 0 && ts[i - 1] == TokenV::Punct('-', true))
}

/// Where the segment that should hold one type, starting at `i`, ends: at
/// the first comma outside any `< .. >` (groups are single tokens, so commas
/// inside them do not count), or at the end of the input. `depth` counts the
/// angle brackets open. Whether the segment is a type is asked of syn after
/// the whole definition has been read (`Define::parse`).
pub open spec fn segment_end(ts: Seq<TokenV>, i: nat, depth: nat) -> nat
    decreases ts.len() - i,
{
    if i >= ts.len() {
        ts.len()
    } else if is_punct(ts[i as int], ',') && depth == 0 {
        i
    } else if is_punct(ts[i as int], '<') {
        segment_end(ts, i + 1, depth + 1)
    } else if closes_angle(ts, i as int) {
        segment_end(ts, i + 1, if depth > 0 { (depth - 1) as nat } else { 0 })
    } else {
        segment_end(ts, i + 1, depth)
    }
}

/// `struct Name { fields }` or `enum Name { variants }` at `pos`; on success,
/// the definition and the position after it.
pub open spec fn parse_new_spec(ts: Seq<TokenV>, pos: nat) -> Result<(NewV, nat), SyntaxError>
    decreases ts, 0int, 0int,
{
    if pos < ts.len() && (ts[pos as int] == ident_v(kw_struct()) || ts[pos as int] == ident_v(
        kw_enum(),
    )) {
        if pos + 1 >= ts.len() || !is_name(ts[pos + 1int]) {
            Err(SyntaxError::ExpectedIdent)
        } else if pos + 2 >= ts.len() {
            Err(SyntaxError::ExpectedBraces)
        } else {
            let name = ts[pos + 1int]->Ident_0;
            match ts[pos + 2int] {
                TokenV::Group(Delimiter::Brace, inner) => if ts[pos as int] == ident_v(kw_struct()) {
                    match parse_fields_spec(inner, 0) {
                        Ok(fields) => Ok((NewV::Struct { name, fields }, pos + 3)),
                        Err(e) => Err(e),
                    }
                } else {
                    match parse_variants_spec(inner, 0) {
                        Ok(variants) => Ok((NewV::Enum { name, variants }, pos + 3)),
                        Err(e) => Err(e),
                    }
                },
                _ => Err(SyntaxError::ExpectedBraces),
            }
        }
    } else {
        Err(SyntaxError::ExpectedStructOrEnum)
    }
}

/// Fields separated by commas, with an optional trailing comma, up to the end
/// of `ts`.
pub open spec fn parse_fields_spec(ts: Seq<TokenV>, pos: nat) -> Result<Seq<FieldV>, SyntaxError>
    decreases ts, 3int, ts.len() - pos,
{
    if pos >= ts.len() {
        Ok(Seq::empty())
    } else {
        match parse_field_spec(ts, pos) {
            Err(e) => Err(e),
            // never taken (see `lemma_element_advances`); it shows the recursion ends
            Ok((f, k)) => if k <= pos || k > ts.len() {
                Err(SyntaxError::ExpectedType)
            } else if k == ts.len() {
                Ok(seq![f])
            } else if !is_punct(ts[k as int], ',') {
                Err(SyntaxError::ExpectedComma)
            } else {
                match parse_fields_spec(ts, k + 1) {
                    Ok(rest) => Ok(seq![f] + rest),
                    Err(e) => Err(e),
                }
            },
        }
    }
}

/// `name: type` at `pos`.
pub open spec fn parse_field_spec(ts: Seq<TokenV>, pos: nat) -> Result<(FieldV, nat), SyntaxError>
    decreases ts, 2int, 0int,
{
    if pos >= ts.len() || !is_name(ts[pos as int]) {
        Err(SyntaxError::ExpectedIdent)
    } else if pos + 1 >= ts.len() || !is_punct(ts[pos + 1int], ':') {
        Err(SyntaxError::ExpectedColon)
    } else {
        match parse_content_spec(ts, pos + 2) {
            Ok((c, k)) => Ok((FieldV { name: ts[pos as int]->Ident_0, value: c }, k)),
            Err(e) => Err(e),
        }
    }
}

/// A field's type at `pos`: a new definition when the next token is `struct`
/// or `enum`, otherwise an existing type that starts with an identifier.
pub open spec fn parse_content_spec(ts: Seq<TokenV>, pos: nat) -> Result<(ContentV, nat), SyntaxError>
    decreases ts, 1int, 0int,
{
    if pos < ts.len() && (ts[pos as int] == ident_v(kw_struct()) || ts[pos as int] == ident_v(
        kw_enum(),
    )) {
        match parse_new_spec(ts, pos) {
            Ok((n, k)) => Ok((ContentV::New(Box::new(n)), k)),
            Err(e) => Err(e),
        }
    } else if pos < ts.len() && starts_type(ts[pos as int]) {
        let k = segment_end(ts, pos, 0);
        Ok((ContentV::Existing(ts.subrange(pos as int, k as int)), k))
    } else {
        Err(SyntaxError::ExpectedType)
    }
}

/// Variants separated by commas, with an optional trailing comma, up to the
/// end of `ts`.
pub open spec fn parse_variants_spec(ts: Seq<TokenV>, pos: nat) -> Result<Seq<VariantV>, SyntaxError>
    decreases ts, 3int, ts.len() - pos,
{
    if pos >= ts.len() {
        Ok(Seq::empty())
    } else {
        match parse_variant_spec(ts, pos) {
            Err(e) => Err(e),
            // never taken (see `lemma_element_advances`); it shows the recursion ends
            Ok((v, k)) => if k <= pos || k > ts.len() {
                Err(SyntaxError::ExpectedIdent)
            } else if k == ts.len() {
                Ok(seq![v])
            } else if !is_punct(ts[k as int], ',') {
                Err(SyntaxError::ExpectedComma)
            } else {
                match parse_variants_spec(ts, k + 1) {
                    Ok(rest) => Ok(seq![v] + rest),
                    Err(e) => Err(e),
                }
            },
        }
    }
}

/// `Name`, `Name(types)` or `Name { fields }` at `pos`.
pub open spec fn parse_variant_spec(ts: Seq<TokenV>, pos: nat) -> Result<(VariantV, nat), SyntaxError>
    decreases ts, 2int, 0int,
{
    if pos >= ts.len() || !is_name(ts[pos as int]) {
        Err(SyntaxError::ExpectedIdent)
    } else {
        let name = ts[pos as int]->Ident_0;
        if pos + 1 < ts.len() {
            match ts[pos + 1int] {
                TokenV::Group(Delimiter::Parenthesis, inner) => match parse_types_spec(inner, 0) {
                    Ok(tys) => Ok((VariantV { name, content: Some(PayloadV::Tuple(tys)) }, pos + 2)),
                    Err(e) => Err(e),
                },
                TokenV::Group(Delimiter::Brace, inner) => match parse_fields_spec(inner, 0) {
                    Ok(fs) => Ok((VariantV { name, content: Some(PayloadV::Struct(fs)) }, pos + 2)),
                    Err(e) => Err(e),
                },
                _ => Ok((VariantV { name, content: None }, pos + 1)),
            }
        } else {
            Ok((VariantV { name, content: None }, pos + 1))
        }
    }
}

/// Types separated by commas, with an optional trailing comma, up to the end
/// of `ts`.
pub open spec fn parse_types_spec(ts: Seq<TokenV>, pos: nat) -> Result<Seq<Seq<TokenV>>, SyntaxError>
    decreases ts.len() - pos,
{
    if pos >= ts.len() {
        Ok(Seq::empty())
    } else {
        let k = segment_end(ts, pos, 0);
        if k <= pos {
            Err(SyntaxError::ExpectedType)
        } else if k >= ts.len() {
            Ok(seq![ts.subrange(pos as int, ts.len() as int)])
        } else {
            match parse_types_spec(ts, k + 1) {
                Ok(rest) => Ok(seq![ts.subrange(pos as int, k as int)] + rest),
                Err(e) => Err(e),
            }
        }
    }
}

/// The whole input of `define`: exactly one definition.
pub open spec fn parse_define_spec(ts: Seq<TokenV>) -> Result<NewV, SyntaxError> {
    match parse_new_spec(ts, 0) {
        Ok((n, k)) => if k == ts.len() {
            Ok(n)
        } else {
            Err(SyntaxError::UnexpectedToken)
        },
        Err(e) => Err(e),
    }
}

pub open spec fn new_agrees(r: Result<(New, usize), SyntaxError>, s: Result<(NewV, nat), SyntaxError>) -> bool {
    match r {
        Ok((n, k)) => s == Ok::<(NewV, nat), SyntaxError>((n@, k as nat)),
        Err(e) => s == Err::<(NewV, nat), SyntaxError>(e),
    }
}

pub open spec fn field_agrees(
    r: Result<(StructField, usize), SyntaxError>,
    s: Result<(FieldV, nat), SyntaxError>,
) -> bool {
    match r {
        Ok((f, k)) => s == Ok::<(FieldV, nat), SyntaxError>((view_field(f), k as nat)),
        Err(e) => s == Err::<(FieldV, nat), SyntaxError>(e),
    }
}

pub open spec fn content_agrees(
    r: Result<(Content, usize), SyntaxError>,
    s: Result<(ContentV, nat), SyntaxError>,
) -> bool {
    match r {
        Ok((c, k)) => s == Ok::<(ContentV, nat), SyntaxError>((view_content(c), k as nat)),
        Err(e) => s == Err::<(ContentV, nat), SyntaxError>(e),
    }
}

pub open spec fn variant_agrees(
    r: Result<(EnumField, usize), SyntaxError>,
    s: Result<(VariantV, nat), SyntaxError>,
) -> bool {
    match r {
        Ok((v, k)) => s == Ok::<(VariantV, nat), SyntaxError>((view_variant(v), k as nat)),
        Err(e) => s == Err::<(VariantV, nat), SyntaxError>(e),
    }
}

pub open spec fn fields_agree(
    r: Result<Vec<StructField>, SyntaxError>,
    s: Result<Seq<FieldV>, SyntaxError>,
) -> bool {
    match r {
        Ok(v) => s == Ok::<Seq<FieldV>, SyntaxError>(view_fields(v@)),
        Err(e) => s == Err::<Seq<FieldV>, SyntaxError>(e),
    }
}

pub open spec fn variants_agree(
    r: Result<Vec<EnumField>, SyntaxError>,
    s: Result<Seq<VariantV>, SyntaxError>,
) -> bool {
    match r {
        Ok(v) => s == Ok::<Seq<VariantV>, SyntaxError>(view_variants(v@)),
        Err(e) => s == Err::<Seq<VariantV>, SyntaxError>(e),
    }
}

pub open spec fn types_agree(
    r: Result<Vec<Vec<Token>>, SyntaxError>,
    s: Result<Seq<Seq<TokenV>>, SyntaxError>,
) -> bool {
    match r {
        Ok(v) => s == Ok::<Seq<Seq<TokenV>>, SyntaxError>(view_types(v@)),
        Err(e) => s == Err::<Seq<Seq<TokenV>>, SyntaxError>(e),
    }
}

/// Whether `t` is the identifier `kw`.
pub fn is_keyword(t: &Token, kw: &str) -> (r: bool)
    ensures
        r == (t@ == ident_v(kw@)),
{
    match t {
        Token::Ident(s) => {
            let k = String::from_str(kw);
            *s == k
        },
        _ => false,
    }
}

pub fn is_punct_token(t: &Token, c: char) -> (r: bool)
    ensures
        r == is_punct(t@, c),
{
    match t {
        Token::Punct(x, _) => *x == c,
        _ => false,
    }
}

fn text_is(s: &String, w: &str) -> (r: bool)
    ensures
        r == (s@ == w@),
{
    *s == String::from_str(w)
}

/// Whether the text is a reserved word.
pub fn reserved(s: &String) -> (r: bool)
    ensures
        r == is_reserved(s@),
{
    text_is(s, "_")
        || text_is(s, "abstract")
        || text_is(s, "as")
        || text_is(s, "become")
        || text_is(s, "box")
        || text_is(s, "break")
        || text_is(s, "const")
        || text_is(s, "continue")
        || text_is(s, "crate")
        || text_is(s, "do")
        || text_is(s, "else")
        || text_is(s, "enum")
        || text_is(s, "extern")
        || text_is(s, "false")
        || text_is(s, "final")
        || text_is(s, "fn")
        || text_is(s, "for")
        || text_is(s, "if")
        || text_is(s, "impl")
        || text_is(s, "in")
        || text_is(s, "let")
        || text_is(s, "loop")
        || text_is(s, "macro")
        || text_is(s, "match")
        || text_is(s, "mod")
        || text_is(s, "move")
        || text_is(s, "mut")
        || text_is(s, "override")
        || text_is(s, "priv")
        || text_is(s, "pub")
        || text_is(s, "ref")
        || text_is(s, "return")
        || text_is(s, "Self")
        || text_is(s, "self")
        || text_is(s, "static")
        || text_is(s, "struct")
        || text_is(s, "super")
        || text_is(s, "trait")
        || text_is(s, "true")
        || text_is(s, "type")
        || text_is(s, "typeof")
        || text_is(s, "unsafe")
        || text_is(s, "unsized")
        || text_is(s, "use")
        || text_is(s, "virtual")
        || text_is(s, "where")
        || text_is(s, "while")
        || text_is(s, "yield")
}

/// Whether an existing type may start at `t`.
fn starts_type_token(t: &Token) -> (r: bool)
    ensures
        r == starts_type(t@),
{
    match t {
        Token::Group(Delimiter::Invisible, _) => true,
        _ => is_name_token(t),
    }
}

/// Whether `t` is an identifier that may stand as a name.
pub fn is_name_token(t: &Token) -> (r: bool)
    ensures
        r == is_name(t@),
{
    match t {
        Token::Ident(s) => !reserved(s),
        _ => false,
    }
}

/// The position where the segment that starts at `pos` ends.
fn find_segment_end(ts: &Vec<Token>, pos: usize) -> (r: usize)
    ensures
        r == segment_end(view_tokens(ts@), pos as nat, 0),
{
    let ghost v = view_tokens(ts@);
    proof {
        lemma_view_tokens(ts@);
    }
    let mut i: usize = pos;
    let mut depth: usize = 0;
    if i >= ts.len() {
        return ts.len();
    }
    while i < ts.len()
        invariant
            pos <= i <= ts.len(),
            depth <= i - pos,
            v == view_tokens(ts@),
            v.len() == ts@.len(),
            forall|j: int| 0 <= j < ts@.len() ==> #[trigger] v[j] == ts@[j]@,
            segment_end(v, i as nat, depth as nat) == segment_end(v, pos as nat, 0),
        decreases ts.len() - i,
    {
        let t = &ts[i];
        if is_punct_token(t, ',') && depth == 0 {
            return i;
        } else if is_punct_token(t, '<') {
            depth = depth + 1;
        } else if is_punct_token(t, '>') && !(i > 0 && matches!(ts[i - 1], Token::Punct('-', true))) {
            if depth > 0 {
                depth = depth - 1;
            }
        }
        i = i + 1;
    }
    proof {
        assert(segment_end(v, i as nat, depth as nat) == v.len());
    }
    i
}

/// Copies of the tokens from `from` up to `to`.
fn copy_range(ts: &Vec<Token>, from: usize, to: usize) -> (r: Vec<Token>)
    requires
        from <= to <= ts.len(),
    ensures
        view_tokens(r@) == view_tokens(ts@).subrange(from as int, to as int),
{
    let mut r: Vec<Token> = Vec::new();
    let mut i: usize = from;
    proof {
        lemma_view_tokens(ts@);
    }
    while i < to
        invariant
            from <= i <= to <= ts.len(),
            view_tokens(ts@).len() == ts@.len(),
            forall|j: int| 0 <= j < ts@.len() ==> #[trigger] view_tokens(ts@)[j] == ts@[j]@,
            view_tokens(r@) =~= view_tokens(ts@).subrange(from as int, i as int),
        decreases to - i,
    {
        let t = copy_token(&ts[i]);
        proof {
            lemma_view_tokens_push(r@, t);
        }
        r.push(t);
        i = i + 1;
    }
    r
}

fn parse_new(ts: &Vec<Token>, pos: usize) -> (r: Result<(New, usize), SyntaxError>)
    ensures
        new_agrees(r, parse_new_spec(view_tokens(ts@), pos as nat)),
    decreases ts, 0int, 0int,
{
    proof {
        lemma_view_tokens(ts@);
    }
    let is_struct = pos < ts.len() && is_keyword(&ts[pos], "struct");
    let is_enum = pos < ts.len() && is_keyword(&ts[pos], "enum");
    if !is_struct && !is_enum {
        return Err(SyntaxError::ExpectedStructOrEnum);
    }
    if pos + 1 >= ts.len() {
        return Err(SyntaxError::ExpectedIdent);
    }
    if !is_name_token(&ts[pos + 1]) {
        return Err(SyntaxError::ExpectedIdent);
    }
    let name = match &ts[pos + 1] {
        Token::Ident(s) => s.clone(),
        _ => {
            return Err(SyntaxError::ExpectedIdent);
        },
    };
    if pos + 2 >= ts.len() {
        return Err(SyntaxError::ExpectedBraces);
    }
    match &ts[pos + 2] {
        Token::Group(Delimiter::Brace, inner) => {
            if is_struct {
                match parse_fields(inner, 0) {
                    Ok(fields) => Ok((New::Struct { name, fields }, pos + 3)),
                    Err(e) => Err(e),
                }
            } else {
                match parse_variants(inner, 0) {
                    Ok(fields) => Ok((New::Enum { name, fields }, pos + 3)),
                    Err(e) => Err(e),
                }
            }
        },
        _ => Err(SyntaxError::ExpectedBraces),
    }
}

fn parse_fields(ts: &Vec<Token>, pos: usize) -> (r: Result<Vec<StructField>, SyntaxError>)
    ensures
        fields_agree(r, parse_fields_spec(view_tokens(ts@), pos as nat)),
    decreases ts, 3int, ts.len() - pos,
{
    proof {
        lemma_view_tokens(ts@);
    }
    if pos >= ts.len() {
        let v: Vec<StructField> = Vec::new();
        proof {
            assert(view_fields(v@) =~= Seq::<FieldV>::empty());
        }
        return Ok(v);
    }
    match parse_field(ts, pos) {
        Err(e) => Err(e),
        Ok((f, k)) => {
            if k <= pos || k > ts.len() {
                Err(SyntaxError::ExpectedType)
            } else if k == ts.len() {
                let mut v: Vec<StructField> = Vec::new();
                v.push(f);
                proof {
                    lemma_view_fields(v@);
                    assert(view_fields(v@) =~= seq![view_field(f)]);
                }
                Ok(v)
            } else if !is_punct_token(&ts[k], ',') {
                Err(SyntaxError::ExpectedComma)
            } else {
                match parse_fields(ts, k + 1) {
                    Ok(rest) => {
                        let ghost old_rest = rest@;
                        let mut rest = rest;
                        rest.insert(0, f);
                        proof {
                            lemma_view_fields(rest@);
                            lemma_view_fields(old_rest);
                            assert(view_fields(rest@) =~= seq![view_field(f)] + view_fields(old_rest));
                        }
                        Ok(rest)
                    },
                    Err(e) => Err(e),
                }
            }
        },
    }
}

fn parse_field(ts: &Vec<Token>, pos: usize) -> (r: Result<(StructField, usize), SyntaxError>)
    ensures
        field_agrees(r, parse_field_spec(view_tokens(ts@), pos as nat)),
    decreases ts, 2int, 0int,
{
    proof {
        lemma_view_tokens(ts@);
    }
    if pos >= ts.len() {
        return Err(SyntaxError::ExpectedIdent);
    }
    if !is_name_token(&ts[pos]) {
        return Err(SyntaxError::ExpectedIdent);
    }
    let name = match &ts[pos] {
        Token::Ident(s) => s.clone(),
        _ => {
            return Err(SyntaxError::ExpectedIdent);
        },
    };
    if pos + 1 >= ts.len() || !is_punct_token(&ts[pos + 1], ':') {
        return Err(SyntaxError::ExpectedColon);
    }
    match parse_content(ts, pos + 2) {
        Ok((value, k)) => Ok((StructField { name, value }, k)),
        Err(e) => Err(e),
    }
}

fn parse_content(ts: &Vec<Token>, pos: usize) -> (r: Result<(Content, usize), SyntaxError>)
    ensures
        content_agrees(r, parse_content_spec(view_tokens(ts@), pos as nat)),
    decreases ts, 1int, 0int,
{
    proof {
        lemma_view_tokens(ts@);
    }
    if pos < ts.len() && (is_keyword(&ts[pos], "struct") || is_keyword(&ts[pos], "enum")) {
        match parse_new(ts, pos) {
            Ok((n, k)) => Ok((Content::New(Box::new(n)), k)),
            Err(e) => Err(e),
        }
    } else if pos < ts.len() && starts_type_token(&ts[pos]) {
        let k = find_segment_end(ts, pos);
        proof {
            lemma_segment_end_bounds(view_tokens(ts@), pos as nat, 0);
        }
        let ty = copy_range(ts, pos, k);
        Ok((Content::Existing(ty), k))
    } else {
        Err(SyntaxError::ExpectedType)
    }
}

fn parse_variants(ts: &Vec<Token>, pos: usize) -> (r: Result<Vec<EnumField>, SyntaxError>)
    ensures
        variants_agree(r, parse_variants_spec(view_tokens(ts@), pos as nat)),
    decreases ts, 3int, ts.len() - pos,
{
    proof {
        lemma_view_tokens(ts@);
    }
    if pos >= ts.len() {
        let v: Vec<EnumField> = Vec::new();
        proof {
            assert(view_variants(v@) =~= Seq::<VariantV>::empty());
        }
        return Ok(v);
    }
    match parse_variant(ts, pos) {
        Err(e) => Err(e),
        Ok((f, k)) => {
            if k <= pos || k > ts.len() {
                Err(SyntaxError::ExpectedIdent)
            } else if k == ts.len() {
                let mut v: Vec<EnumField> = Vec::new();
                v.push(f);
                proof {
                    lemma_view_variants(v@);
                    assert(view_variants(v@) =~= seq![view_variant(f)]);
                }
                Ok(v)
            } else if !is_punct_token(&ts[k], ',') {
                Err(SyntaxError::ExpectedComma)
            } else {
                match parse_variants(ts, k + 1) {
                    Ok(rest) => {
                        let ghost old_rest = rest@;
                        let mut rest = rest;
                        rest.insert(0, f);
                        proof {
                            lemma_view_variants(rest@);
                            lemma_view_variants(old_rest);
                            assert(view_variants(rest@) =~= seq![view_variant(f)] + view_variants(
                                old_rest,
                            ));
                        }
                        Ok(rest)
                    },
                    Err(e) => Err(e),
                }
            }
        },
    }
}

fn parse_variant(ts: &Vec<Token>, pos: usize) -> (r: Result<(EnumField, usize), SyntaxError>)
    ensures
        variant_agrees(r, parse_variant_spec(view_tokens(ts@), pos as nat)),
    decreases ts, 2int, 0int,
{
    proof {
        lemma_view_tokens(ts@);
    }
    if pos >= ts.len() {
        return Err(SyntaxError::ExpectedIdent);
    }
    if !is_name_token(&ts[pos]) {
        return Err(SyntaxError::ExpectedIdent);
    }
    let name = match &ts[pos] {
        Token::Ident(s) => s.clone(),
        _ => {
            return Err(SyntaxError::ExpectedIdent);
        },
    };
    if pos + 1 < ts.len() {
        match &ts[pos + 1] {
            Token::Group(Delimiter::Parenthesis, inner) => match parse_types(inner, 0) {
                Ok(tys) => Ok((EnumField { name, content: Some(EnumContent::Tuple(tys)) }, pos + 2)),
                Err(e) => Err(e),
            },
            Token::Group(Delimiter::Brace, inner) => match parse_fields(inner, 0) {
                Ok(fs) => Ok((EnumField { name, content: Some(EnumContent::Struct(fs)) }, pos + 2)),
                Err(e) => Err(e),
            },
            _ => Ok((EnumField { name, content: None }, pos + 1)),
        }
    } else {
        Ok((EnumField { name, content: None }, pos + 1))
    }
}

fn parse_types(ts: &Vec<Token>, pos: usize) -> (r: Result<Vec<Vec<Token>>, SyntaxError>)
    ensures
        types_agree(r, parse_types_spec(view_tokens(ts@), pos as nat)),
    decreases ts.len() - pos,
{
    proof {
        lemma_view_tokens(ts@);
    }
    if pos >= ts.len() {
        let v: Vec<Vec<Token>> = Vec::new();
        proof {
            assert(view_types(v@) =~= Seq::<Seq<TokenV>>::empty());
        }
        return Ok(v);
    }
    let k = find_segment_end(ts, pos);
    proof {
        lemma_segment_end_bounds(view_tokens(ts@), pos as nat, 0);
    }
    if k <= pos {
        Err(SyntaxError::ExpectedType)
    } else if k >= ts.len() {
        let ty = copy_range(ts, pos, ts.len());
        let mut v: Vec<Vec<Token>> = Vec::new();
        v.push(ty);
        proof {
            lemma_view_types(v@);
            assert(view_types(v@) =~= seq![view_tokens(ts@).subrange(pos as int, ts@.len() as int)]);
        }
        Ok(v)
    } else {
        let ty = copy_range(ts, pos, k);
        match parse_types(ts, k + 1) {
            Ok(rest) => {
                let ghost old_rest = rest@;
                let mut rest = rest;
                rest.insert(0, ty);
                proof {
                    lemma_view_types(rest@);
                    lemma_view_types(old_rest);
                    assert(view_types(rest@) =~= seq![view_tokens(ty@)] + view_types(old_rest));
                }
                Ok(rest)
            },
            Err(e) => Err(e),
        }
    }
}

/// A segment ends no earlier than it starts and no later than the input.
proof fn lemma_segment_end_bounds(ts: Seq<TokenV>, i: nat, depth: nat)
    requires
        i <= ts.len(),
    ensures
        i <= segment_end(ts, i, depth) <= ts.len(),
    decreases ts.len() - i,
{
    if i < ts.len() {
        if !(is_punct(ts[i as int], ',') && depth == 0) {
            if is_punct(ts[i as int], '<') {
                lemma_segment_end_bounds(ts, i + 1, depth + 1);
            } else if closes_angle(ts, i as int) {
                lemma_segment_end_bounds(ts, i + 1, if depth > 0 { (depth - 1) as nat } else { 0 });
            } else {
                lemma_segment_end_bounds(ts, i + 1, depth);
            }
        }
    }
}

/// A field or a variant that is read ends past where it starts and within
/// the input.
pub proof fn lemma_element_advances(ts: Seq<TokenV>, pos: nat)
    ensures
        parse_field_spec(ts, pos) matches Ok((_, k)) ==> pos < k <= ts.len(),
        parse_variant_spec(ts, pos) matches Ok((_, k)) ==> pos < k <= ts.len(),
{
    if pos + 2 <= ts.len() {
        lemma_segment_end_bounds(ts, pos + 2, 0);
    }
}

impl Define {
    /// Reads one definition that spans the whole input, by the grammar alone:
    /// existing types are taken as the segments that should hold them.
    pub fn read(ts: &Vec<Token>) -> (r: Result<Define, SyntaxError>)
        ensures
            r matches Ok(d) ==> parse_define_spec(view_tokens(ts@)) == Ok::<NewV, SyntaxError>(d@),
            r matches Err(e) ==> parse_define_spec(view_tokens(ts@)) == Err::<NewV, SyntaxError>(e),
    {
        proof {
            lemma_view_tokens(ts@);
        }
        match parse_new(ts, 0) {
            Ok((n, k)) => if k == ts.len() {
                Ok(Define(n))
            } else {
                Err(SyntaxError::UnexpectedToken)
            },
            Err(e) => Err(e),
        }
    }
}

} // verus!

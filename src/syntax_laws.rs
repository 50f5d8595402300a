//! What the grammar accepts: every well-formed definition, written out, reads back as itself.
use vstd::prelude::*;
use crate::ast::{ContentV, FieldV, NewV, PayloadV, VariantV};
use crate::parser::{
    SyntaxError, closes_angle, is_name, is_reserved, is_punct, parse_content_spec, parse_define_spec, parse_field_spec,
    parse_fields_spec, parse_new_spec, parse_types_spec, parse_variant_spec, parse_variants_spec,
    segment_end,
};
use crate::token::{Delimiter, TokenV, ident_v, kw_enum, kw_struct, punct_v};

verus! {

/// A comma after the last element of a list, or nothing.
pub open spec fn trailing(trail: bool) -> Seq<TokenV> {
    if trail {
        seq![punct_v(',')]
    } else {
        Seq::empty()
    }
}

/// A definition written out as tokens, its elements separated by commas;
/// `trail` says whether the last element of each list has a comma after it.
pub open spec fn print_new(n: NewV, trail: bool) -> Seq<TokenV>
    decreases n, 1int,
{
    match n {
        NewV::Struct { name, fields } => seq![
            ident_v(kw_struct()),
            ident_v(name),
            TokenV::Group(Delimiter::Brace, print_fields(fields, trail)),
        ],
        NewV::Enum { name, variants } => seq![
            ident_v(kw_enum()),
            ident_v(name),
            TokenV::Group(Delimiter::Brace, print_variants(variants, trail)),
        ],
    }
}

pub open spec fn print_fields(fs: Seq<FieldV>, trail: bool) -> Seq<TokenV>
    decreases fs, 0int,
{
    if fs.len() == 0 {
        Seq::empty()
    } else if fs.len() == 1 {
        print_field(fs[0], trail) + trailing(trail)
    } else {
        print_field(fs[0], trail) + seq![punct_v(',')] + print_fields(
            fs.subrange(1, fs.len() as int),
            trail,
        )
    }
}

/// `name: type`
pub open spec fn print_field(f: FieldV, trail: bool) -> Seq<TokenV>
    decreases f, 0int,
{
    seq![ident_v(f.name), punct_v(':')] + print_content(f.value, trail)
}

pub open spec fn print_content(c: ContentV, trail: bool) -> Seq<TokenV>
    decreases c, 0int,
{
    match c {
        ContentV::Existing(ty) => ty,
        ContentV::New(m) => print_new(*m, trail),
    }
}

pub open spec fn print_variants(vs: Seq<VariantV>, trail: bool) -> Seq<TokenV>
    decreases vs, 0int,
{
    if vs.len() == 0 {
        Seq::empty()
    } else if vs.len() == 1 {
        print_variant(vs[0], trail) + trailing(trail)
    } else {
        print_variant(vs[0], trail) + seq![punct_v(',')] + print_variants(
            vs.subrange(1, vs.len() as int),
            trail,
        )
    }
}

/// `Name`, `Name(types)` or `Name { fields }`
pub open spec fn print_variant(v: VariantV, trail: bool) -> Seq<TokenV>
    decreases v, 0int,
{
    match v.content {
        None => seq![ident_v(v.name)],
        Some(PayloadV::Tuple(tys)) => seq![
            ident_v(v.name),
            TokenV::Group(Delimiter::Parenthesis, print_types(tys, trail)),
        ],
        Some(PayloadV::Struct(fs)) => seq![
            ident_v(v.name),
            TokenV::Group(Delimiter::Brace, print_fields(fs, trail)),
        ],
    }
}

pub open spec fn print_types(tys: Seq<Seq<TokenV>>, trail: bool) -> Seq<TokenV>
    decreases tys.len(),
{
    if tys.len() == 0 {
        Seq::empty()
    } else if tys.len() == 1 {
        tys[0] + trailing(trail)
    } else {
        tys[0] + seq![punct_v(',')] + print_types(tys.subrange(1, tys.len() as int), trail)
    }
}

/// A type written in a tuple variant: not empty, and it reaches its end with
/// every `<` closed and no comma outside them. (Whether syn reads it as a
/// type is asked apart, see `Define::parse`.)
pub open spec fn wf_type(ty: Seq<TokenV>) -> bool {
    &&& ty.len() > 0
    &&& segment_end(ty + seq![punct_v(',')], 0, 0) == ty.len()
}

/// An existing type written for a field: as in a tuple variant, and it starts
/// with a name (an identifier that is no reserved word).
pub open spec fn wf_field_type(ty: Seq<TokenV>) -> bool {
    wf_type(ty) && is_name(ty[0])
}

/// A definition whose names are no reserved words and whose existing types are
/// all written as above.
pub open spec fn wf_new(n: NewV) -> bool
    decreases n, 1int,
{
    match n {
        NewV::Struct { name, fields } => !is_reserved(name) && wf_fields(fields),
        NewV::Enum { name, variants } => !is_reserved(name) && wf_variants(variants),
    }
}

pub open spec fn wf_fields(fs: Seq<FieldV>) -> bool
    decreases fs, 0int,
{
    fs.len() > 0 ==> !is_reserved(fs[0].name) && wf_content(fs[0].value) && wf_fields(
        fs.subrange(1, fs.len() as int),
    )
}

pub open spec fn wf_content(c: ContentV) -> bool
    decreases c, 0int,
{
    match c {
        ContentV::Existing(ty) => wf_field_type(ty),
        ContentV::New(m) => wf_new(*m),
    }
}

pub open spec fn wf_variants(vs: Seq<VariantV>) -> bool
    decreases vs, 0int,
{
    vs.len() > 0 ==> !is_reserved(vs[0].name) && wf_payload(vs[0].content) && wf_variants(
        vs.subrange(1, vs.len() as int),
    )
}

pub open spec fn wf_payload(p: Option<PayloadV>) -> bool
    decreases p, 0int,
{
    match p {
        Some(PayloadV::Tuple(tys)) => forall|i: int| 0 <= i < tys.len() ==> wf_type(#[trigger] tys[i]),
        Some(PayloadV::Struct(fs)) => wf_fields(fs),
        None => true,
    }
}

/// The token before a type does not make its first `>` part of an arrow.
pub open spec fn no_arrow_before(a: Seq<TokenV>) -> bool {
    a.len() > 0 ==> a.last() != TokenV::Punct('-', true)
}

/// What may follow an element of a list: a comma, or the end of the list.
pub open spec fn ends_element(b: Seq<TokenV>) -> bool {
    b.len() == 0 || b[0] == punct_v(',')
}

/// Scanning a well-formed type inside longer input, where a comma or the end
/// of the input follows it, stops right after the type.
proof fn lemma_segment_end_in_context(
    a: Seq<TokenV>,
    ty: Seq<TokenV>,
    b: Seq<TokenV>,
    i: nat,
    d: nat,
)
    requires
        i <= ty.len(),
        no_arrow_before(a),
        ends_element(b),
        segment_end(ty + seq![punct_v(',')], i, d) == ty.len(),
    ensures
        segment_end(a + ty + b, a.len() + i, d) == a.len() + ty.len(),
    decreases ty.len() - i,
{
    let t = a + ty + b;
    let s = ty + seq![punct_v(',')];
    let p = a.len() + i;
    if i < ty.len() {
        assert(t[p as int] == s[i as int]);
        if i > 0 {
            assert(t[p - 1int] == s[i - 1int]);
        } else if a.len() > 0 {
            assert(t[p - 1int] == a.last());
        }
        assert(closes_angle(t, p as int) == closes_angle(s, i as int));
        if is_punct(s[i as int], ',') && d == 0 {
        } else if is_punct(s[i as int], '<') {
            lemma_segment_end_in_context(a, ty, b, i + 1, d + 1);
        } else if closes_angle(s, i as int) {
            lemma_segment_end_in_context(a, ty, b, i + 1, if d > 0 { (d - 1) as nat } else { 0 });
        } else {
            lemma_segment_end_in_context(a, ty, b, i + 1, d);
        }
    } else if b.len() > 0 {
        assert(t[p as int] == s[i as int]);
        if d > 0 {
            assert(segment_end(s, i + 1, d) == s.len());
        }
    }
}

proof fn lemma_read_new(a: Seq<TokenV>, n: NewV, b: Seq<TokenV>, trail: bool)
    requires
        wf_new(n),
    ensures
        parse_new_spec(a + print_new(n, trail) + b, a.len()) == Ok::<(NewV, nat), SyntaxError>(
            (n, a.len() + 3),
        ),
    decreases n, 1int,
{
    let t = a + print_new(n, trail) + b;
    let p = a.len();
    assert(t[p as int] == print_new(n, trail)[0]);
    assert(t[p + 1int] == print_new(n, trail)[1]);
    assert(t[p + 2int] == print_new(n, trail)[2]);
    reveal_strlit("struct");
    reveal_strlit("enum");
    match n {
        NewV::Struct { fields, .. } => {
            let body = print_fields(fields, trail);
            lemma_read_fields(Seq::empty(), fields, trail);
            assert(Seq::<TokenV>::empty() + body =~= body);
            assert(parse_fields_spec(body, 0) == Ok::<Seq<FieldV>, SyntaxError>(fields));
            assert(t[p as int] == ident_v(kw_struct()));
        },
        NewV::Enum { variants, .. } => {
            let body = print_variants(variants, trail);
            lemma_read_variants(Seq::empty(), variants, trail);
            assert(Seq::<TokenV>::empty() + body =~= body);
            assert(parse_variants_spec(body, 0) == Ok::<Seq<VariantV>, SyntaxError>(variants));
            assert(t[p as int] == ident_v(kw_enum()));
            assert(kw_enum() != kw_struct()) by {
                assert(kw_enum().len() != kw_struct().len());
            }
        },
    }
}

proof fn lemma_read_fields(a: Seq<TokenV>, fs: Seq<FieldV>, trail: bool)
    requires
        wf_fields(fs),
    ensures
        parse_fields_spec(a + print_fields(fs, trail), a.len()) == Ok::<Seq<FieldV>, SyntaxError>(fs),
    decreases fs, 1int,
{
    let t = a + print_fields(fs, trail);
    if fs.len() == 0 {
        assert(t.len() == a.len());
        assert(fs =~= Seq::<FieldV>::empty());
    } else {
        let rest = fs.subrange(1, fs.len() as int);
        let f = fs[0];
        let b = if fs.len() == 1 {
            trailing(trail)
        } else {
            seq![punct_v(',')] + print_fields(rest, trail)
        };
        assert(t =~= a + print_field(f, trail) + b);
        lemma_read_field(a, f, b, trail);
        let k = a.len() + print_field(f, trail).len();
        let a2 = a + print_field(f, trail) + seq![punct_v(',')];
        if fs.len() == 1 {
            assert(seq![f] =~= fs);
            if trail {
                assert(t[k as int] == punct_v(','));
                assert(t.len() == k + 1);
                assert(parse_fields_spec(t, (k + 1) as nat) == Ok::<Seq<FieldV>, SyntaxError>(
                    Seq::empty(),
                ));
                assert(seq![f] + Seq::<FieldV>::empty() =~= fs);
            }
        } else {
            assert(t =~= a2 + print_fields(rest, trail));
            assert(t[k as int] == punct_v(','));
            lemma_read_fields(a2, rest, trail);
            assert(parse_fields_spec(t, (k + 1) as nat) == Ok::<Seq<FieldV>, SyntaxError>(rest));
            assert(seq![f] + rest =~= fs);
        }
    }
}

proof fn lemma_read_field(a: Seq<TokenV>, f: FieldV, b: Seq<TokenV>, trail: bool)
    requires
        !is_reserved(f.name),
        wf_content(f.value),
        ends_element(b),
    ensures
        parse_field_spec(a + print_field(f, trail) + b, a.len()) == Ok::<(FieldV, nat), SyntaxError>(
            (f, a.len() + print_field(f, trail).len()),
        ),
    decreases f, 0int,
{
    let t = a + print_field(f, trail) + b;
    let p = a.len();
    assert(t[p as int] == ident_v(f.name));
    assert(t[p + 1int] == punct_v(':'));
    let a2 = a + seq![ident_v(f.name), punct_v(':')];
    assert(t =~= a2 + print_content(f.value, trail) + b);
    lemma_read_content(a2, f.value, b, trail);
}

proof fn lemma_read_content(a: Seq<TokenV>, c: ContentV, b: Seq<TokenV>, trail: bool)
    requires
        wf_content(c),
        no_arrow_before(a),
        ends_element(b),
    ensures
        parse_content_spec(a + print_content(c, trail) + b, a.len()) == Ok::<
            (ContentV, nat),
            SyntaxError,
        >((c, a.len() + print_content(c, trail).len())),
    decreases c, 0int,
{
    let t = a + print_content(c, trail) + b;
    let p = a.len();
    match c {
        ContentV::Existing(ty) => {
            assert(t[p as int] == ty[0]);
            lemma_segment_end_in_context(a, ty, b, 0, 0);
            assert(t.subrange(p as int, (p + ty.len()) as int) =~= ty);
        },
        ContentV::New(m) => {
            lemma_read_new(a, *m, b, trail);
            assert(t[p as int] == print_new(*m, trail)[0]);
            reveal_strlit("struct");
            reveal_strlit("enum");
        },
    }
}

proof fn lemma_read_variants(a: Seq<TokenV>, vs: Seq<VariantV>, trail: bool)
    requires
        wf_variants(vs),
    ensures
        parse_variants_spec(a + print_variants(vs, trail), a.len()) == Ok::<
            Seq<VariantV>,
            SyntaxError,
        >(vs),
    decreases vs, 1int,
{
    let t = a + print_variants(vs, trail);
    if vs.len() == 0 {
        assert(t.len() == a.len());
        assert(vs =~= Seq::<VariantV>::empty());
    } else {
        let rest = vs.subrange(1, vs.len() as int);
        let v = vs[0];
        let b = if vs.len() == 1 {
            trailing(trail)
        } else {
            seq![punct_v(',')] + print_variants(rest, trail)
        };
        assert(t =~= a + print_variant(v, trail) + b);
        lemma_read_variant(a, v, b, trail);
        let k = a.len() + print_variant(v, trail).len();
        let a2 = a + print_variant(v, trail) + seq![punct_v(',')];
        if vs.len() == 1 {
            assert(seq![v] =~= vs);
            if trail {
                assert(t[k as int] == punct_v(','));
                assert(t.len() == k + 1);
                assert(parse_variants_spec(t, (k + 1) as nat) == Ok::<Seq<VariantV>, SyntaxError>(
                    Seq::empty(),
                ));
                assert(seq![v] + Seq::<VariantV>::empty() =~= vs);
            }
        } else {
            assert(t =~= a2 + print_variants(rest, trail));
            assert(t[k as int] == punct_v(','));
            lemma_read_variants(a2, rest, trail);
            assert(parse_variants_spec(t, (k + 1) as nat) == Ok::<Seq<VariantV>, SyntaxError>(
                rest,
            ));
            assert(seq![v] + rest =~= vs);
        }
    }
}

proof fn lemma_read_variant(a: Seq<TokenV>, v: VariantV, b: Seq<TokenV>, trail: bool)
    requires
        !is_reserved(v.name),
        wf_payload(v.content),
        ends_element(b),
    ensures
        parse_variant_spec(a + print_variant(v, trail) + b, a.len()) == Ok::<
            (VariantV, nat),
            SyntaxError,
        >((v, a.len() + print_variant(v, trail).len())),
    decreases v, 0int,
{
    let t = a + print_variant(v, trail) + b;
    let p = a.len();
    assert(t[p as int] == ident_v(v.name));
    match v.content {
        None => {
            if b.len() > 0 {
                assert(t[p + 1int] == punct_v(','));
            }
        },
        Some(PayloadV::Tuple(tys)) => {
            let body = print_types(tys, trail);
            assert(t[p + 1int] == TokenV::Group(Delimiter::Parenthesis, body));
            lemma_read_types(Seq::empty(), tys, trail);
            assert(Seq::<TokenV>::empty() + body =~= body);
        },
        Some(PayloadV::Struct(fs)) => {
            let body = print_fields(fs, trail);
            assert(t[p + 1int] == TokenV::Group(Delimiter::Brace, body));
            lemma_read_fields(Seq::empty(), fs, trail);
            assert(Seq::<TokenV>::empty() + body =~= body);
        },
    }
}

proof fn lemma_read_types(a: Seq<TokenV>, tys: Seq<Seq<TokenV>>, trail: bool)
    requires
        forall|i: int| 0 <= i < tys.len() ==> wf_type(#[trigger] tys[i]),
        no_arrow_before(a),
    ensures
        parse_types_spec(a + print_types(tys, trail), a.len()) == Ok::<
            Seq<Seq<TokenV>>,
            SyntaxError,
        >(tys),
    decreases tys.len(),
{
    let t = a + print_types(tys, trail);
    if tys.len() == 0 {
        assert(t.len() == a.len());
        assert(tys =~= Seq::<Seq<TokenV>>::empty());
    } else {
        let rest = tys.subrange(1, tys.len() as int);
        let ty = tys[0];
        assert(wf_type(tys[0]));
        let b = if tys.len() == 1 {
            trailing(trail)
        } else {
            seq![punct_v(',')] + print_types(rest, trail)
        };
        assert(t =~= a + ty + b);
        lemma_segment_end_in_context(a, ty, b, 0, 0);
        let k = a.len() + ty.len();
        let a2 = a + ty + seq![punct_v(',')];
        if tys.len() == 1 {
            if trail {
                assert(t.len() == k + 1);
                assert(t.subrange(a.len() as int, k as int) =~= ty);
                assert(parse_types_spec(t, (k + 1) as nat) == Ok::<Seq<Seq<TokenV>>, SyntaxError>(
                    Seq::empty(),
                ));
                assert(seq![ty] + Seq::<Seq<TokenV>>::empty() =~= tys);
            } else {
                assert(t.subrange(a.len() as int, t.len() as int) =~= ty);
                assert(seq![ty] =~= tys);
            }
        } else {
            assert(t =~= a2 + print_types(rest, trail));
            assert(forall|i: int| 0 <= i < rest.len() ==> rest[i] == tys[i + 1]);
            lemma_read_types(a2, rest, trail);
            assert(parse_types_spec(t, (k + 1) as nat) == Ok::<Seq<Seq<TokenV>>, SyntaxError>(
                rest,
            ));
            assert(t.subrange(a.len() as int, k as int) =~= ty);
            assert(seq![ty] + rest =~= tys);
        }
    }
}

/// A definition whose existing types are well formed, written out as tokens
/// with or without trailing commas, reads back as that same definition.
pub proof fn lemma_parse_print(n: NewV, trail: bool)
    requires
        wf_new(n),
    ensures
        parse_define_spec(print_new(n, trail)) == Ok::<NewV, SyntaxError>(n),
{
    lemma_read_new(Seq::empty(), n, Seq::empty(), trail);
    assert(Seq::<TokenV>::empty() + print_new(n, trail) + Seq::<TokenV>::empty() =~= print_new(
        n,
        trail,
    ));
}

/// Input that does not start with `struct` or `enum` is refused with that
/// error, whatever follows.
pub proof fn lemma_needs_keyword(ts: Seq<TokenV>)
    requires
        ts.len() == 0 || (ts[0] != ident_v(kw_struct()) && ts[0] != ident_v(kw_enum())),
    ensures
        parse_define_spec(ts) == Err::<NewV, SyntaxError>(SyntaxError::ExpectedStructOrEnum),
{
}

} // verus!

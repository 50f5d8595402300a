//! What flattening and building keep, proved for every tree and every list.
use vstd::prelude::*;
use vstd::multiset::Multiset;
use crate::ast::{ContentV, FieldV, NewV, PayloadV, VariantV};
use crate::builder::{build_tokens, decl_tokens, declarations};
use crate::interpreter::{
    DefV, FieldDefV, field_defs_of, def_of, field_value, flatten, hoist_content, hoist_fields, hoist_payload,
    hoist_variants, payload_tokens, types_tokens,
};
use crate::token::{Delimiter, TokenV, ident_v};

verus! {

/// Every definition of a tree, the inline ones included, each once, in the
/// order in which a depth-first walk finishes them.
pub open spec fn nodes(n: NewV) -> Seq<NewV>
    decreases n, 1int,
{
    match n {
        NewV::Struct { fields, .. } => nodes_in_fields(fields) + seq![n],
        NewV::Enum { variants, .. } => nodes_in_variants(variants) + seq![n],
    }
}

pub open spec fn nodes_in_fields(fs: Seq<FieldV>) -> Seq<NewV>
    decreases fs, 0int,
{
    if fs.len() == 0 {
        Seq::empty()
    } else {
        nodes_in_fields(fs.drop_last()) + nodes_in_content(fs.last().value)
    }
}

pub open spec fn nodes_in_content(c: ContentV) -> Seq<NewV>
    decreases c, 0int,
{
    match c {
        ContentV::Existing(_) => Seq::empty(),
        ContentV::New(m) => nodes(*m),
    }
}

pub open spec fn nodes_in_variants(vs: Seq<VariantV>) -> Seq<NewV>
    decreases vs, 0int,
{
    if vs.len() == 0 {
        Seq::empty()
    } else {
        nodes_in_variants(vs.drop_last()) + nodes_in_payload(vs.last().content)
    }
}

pub open spec fn nodes_in_payload(p: Option<PayloadV>) -> Seq<NewV>
    decreases p, 0int,
{
    match p {
        Some(PayloadV::Struct(fs)) => nodes_in_fields(fs),
        _ => Seq::empty(),
    }
}

pub open spec fn defs_of(ms: Seq<NewV>) -> Seq<DefV> {
    ms.map_values(|m: NewV| def_of(m))
}

pub open spec fn names_of(ms: Seq<NewV>) -> Seq<Seq<char>> {
    ms.map_values(|m: NewV| m.name())
}

/// `d` is `m` flattened: the same kind, name, and fields or variants in the
/// same order; a field keeps its existing type or holds the bare name of the
/// definition written in it; a variant keeps its payload shape.
pub open spec fn flattens_to(m: NewV, d: DefV) -> bool {
    &&& d.name == m.name()
    &&& match m {
        NewV::Struct { fields, .. } => {
            &&& d.kind == crate::interpreter::ContentType::Struct
            &&& d.fields.len() == fields.len()
            &&& forall|i: int|
                0 <= i < fields.len() ==> (#[trigger] d.fields[i]).name == fields[i].name
                    && d.fields[i].value == field_value(fields[i].value)
        },
        NewV::Enum { variants, .. } => {
            &&& d.kind == crate::interpreter::ContentType::Enum
            &&& d.fields.len() == variants.len()
            &&& forall|i: int|
                0 <= i < variants.len() ==> (#[trigger] d.fields[i]).name == variants[i].name
                    && d.fields[i].value == payload_tokens(variants[i].content)
        },
    }
}

proof fn lemma_defs_of_add(a: Seq<NewV>, b: Seq<NewV>)
    ensures
        defs_of(a + b) == defs_of(a) + defs_of(b),
{
    assert(defs_of(a + b) =~= defs_of(a) + defs_of(b));
}

proof fn lemma_flatten_nodes(n: NewV)
    ensures
        flatten(n) == defs_of(nodes(n)),
    decreases n, 1int,
{
    match n {
        NewV::Struct { fields, .. } => {
            lemma_fields_nodes(fields);
            lemma_defs_of_add(nodes_in_fields(fields), seq![n]);
            assert(defs_of(seq![n]) =~= seq![def_of(n)]);
        },
        NewV::Enum { variants, .. } => {
            lemma_variants_nodes(variants);
            lemma_defs_of_add(nodes_in_variants(variants), seq![n]);
            assert(defs_of(seq![n]) =~= seq![def_of(n)]);
        },
    }
}

proof fn lemma_fields_nodes(fs: Seq<FieldV>)
    ensures
        hoist_fields(fs) == defs_of(nodes_in_fields(fs)),
    decreases fs, 0int,
{
    if fs.len() == 0 {
        assert(defs_of(Seq::<NewV>::empty()) =~= Seq::<DefV>::empty());
    } else {
        lemma_fields_nodes(fs.drop_last());
        lemma_content_nodes(fs.last().value);
        lemma_defs_of_add(nodes_in_fields(fs.drop_last()), nodes_in_content(fs.last().value));
    }
}

proof fn lemma_content_nodes(c: ContentV)
    ensures
        hoist_content(c) == defs_of(nodes_in_content(c)),
    decreases c, 0int,
{
    match c {
        ContentV::Existing(_) => {
            assert(defs_of(Seq::<NewV>::empty()) =~= Seq::<DefV>::empty());
        },
        ContentV::New(m) => {
            lemma_flatten_nodes(*m);
        },
    }
}

proof fn lemma_variants_nodes(vs: Seq<VariantV>)
    ensures
        hoist_variants(vs) == defs_of(nodes_in_variants(vs)),
    decreases vs, 0int,
{
    if vs.len() == 0 {
        assert(defs_of(Seq::<NewV>::empty()) =~= Seq::<DefV>::empty());
    } else {
        lemma_variants_nodes(vs.drop_last());
        lemma_payload_nodes(vs.last().content);
        lemma_defs_of_add(nodes_in_variants(vs.drop_last()), nodes_in_payload(vs.last().content));
    }
}

proof fn lemma_payload_nodes(p: Option<PayloadV>)
    ensures
        hoist_payload(p) == defs_of(nodes_in_payload(p)),
    decreases p, 0int,
{
    match p {
        Some(PayloadV::Struct(fs)) => {
            lemma_fields_nodes(fs);
        },
        _ => {
            assert(defs_of(Seq::<NewV>::empty()) =~= Seq::<DefV>::empty());
        },
    }
}

/// Flattening a tree and building the result: there is one flattened
/// definition for each definition of the tree, however deeply it was nested,
/// and each appears once, in the position of its node; each is its node
/// flattened, so that every inline definition is replaced in its parent by
/// its bare name; the root's own definition comes last in the list and so
/// its declaration is emitted first, with the root's name and fields in
/// their order.
pub proof fn lemma_round_trip(n: NewV)
    ensures
        flatten(n) == defs_of(nodes(n)),
        flatten(n).len() == nodes(n).len(),
        forall|j: int| 0 <= j < nodes(n).len() ==> flattens_to(nodes(n)[j], #[trigger] flatten(n)[j]),
        nodes(n).last() == n,
        flatten(n).last() == def_of(n),
        flattens_to(n, def_of(n)),
        build_tokens(flatten(n)) == decl_tokens(def_of(n)) + build_tokens(flatten(n).drop_last()),
{
    lemma_flatten_nodes(n);
    assert forall|j: int| 0 <= j < nodes(n).len() implies flattens_to(
        nodes(n)[j],
        #[trigger] flatten(n)[j],
    ) by {
        lemma_def_of_flattens(nodes(n)[j]);
    }
    lemma_def_of_flattens(n);
}

proof fn lemma_def_of_flattens(m: NewV)
    ensures
        flattens_to(m, def_of(m)),
{
}

/// When no two definitions of a tree share a name, exactly one flattened
/// definition carries the root's name: the root's own.
pub proof fn lemma_root_unique(n: NewV)
    requires
        names_of(nodes(n)).no_duplicates(),
    ensures
        forall|j: int|
            0 <= j < flatten(n).len() ==> (#[trigger] flatten(n)[j].name == n.name() <==> j
                == flatten(n).len() - 1),
{
    lemma_round_trip(n);
    let ms = nodes(n);
    assert forall|j: int| 0 <= j < flatten(n).len() implies (#[trigger] flatten(n)[j].name
        == n.name() <==> j == flatten(n).len() - 1) by {
        assert(names_of(ms)[j] == ms[j].name());
        assert(names_of(ms)[ms.len() - 1] == ms[ms.len() - 1].name());
    }
}

/// The emitted tokens, cut into declarations (each is three tokens: the
/// keyword, the name and the braced body).
pub open spec fn split_decls(ts: Seq<TokenV>) -> Seq<Seq<TokenV>>
    decreases ts.len(),
{
    if ts.len() < 3 {
        Seq::empty()
    } else {
        seq![ts.take(3)] + split_decls(ts.skip(3))
    }
}

/// The emitted tokens are the declarations, one after the other.
pub proof fn lemma_build_declarations(ds: Seq<DefV>)
    ensures
        build_tokens(ds).len() == 3 * ds.len(),
        split_decls(build_tokens(ds)) == declarations(ds),
    decreases ds.len(),
{
    if ds.len() > 0 {
        lemma_build_declarations(ds.drop_last());
        let t = build_tokens(ds);
        assert(t.take(3) =~= decl_tokens(ds.last()));
        assert(t.skip(3) =~= build_tokens(ds.drop_last()));
    } else {
        assert(build_tokens(ds) =~= Seq::<TokenV>::empty());
    }
}

proof fn lemma_declarations_contains(ds: Seq<DefV>, x: Seq<TokenV>)
    ensures
        declarations(ds).contains(x) <==> exists|i: int| 0 <= i < ds.len() && decl_tokens(#[trigger] ds[i]) == x,
    decreases ds.len(),
{
    if ds.len() > 0 {
        let rest = ds.drop_last();
        lemma_declarations_contains(rest, x);
        let s = declarations(ds);
        if s.contains(x) {
            let k = choose|k: int| 0 <= k < s.len() && s[k] == x;
            if k == 0 {
                assert(decl_tokens(ds[ds.len() - 1]) == x);
            } else {
                assert(declarations(rest)[k - 1] == x);
                assert(declarations(rest).contains(x));
                let i = choose|i: int| 0 <= i < rest.len() && decl_tokens(#[trigger] rest[i]) == x;
                assert(ds[i] == rest[i]);
            }
        }
        if exists|i: int| 0 <= i < ds.len() && decl_tokens(#[trigger] ds[i]) == x {
            let i = choose|i: int| 0 <= i < ds.len() && decl_tokens(#[trigger] ds[i]) == x;
            if i == ds.len() - 1 {
                assert(s[0] == x);
            } else {
                assert(rest[i] == ds[i]);
                let k = choose|k: int| 0 <= k < declarations(rest).len() && declarations(rest)[k] == x;
                assert(s[k + 1] == x);
            }
        }
    }
}

/// Building from two lists that hold the same definitions, in any order and
/// any number of times, emits the same set of declarations.
pub proof fn lemma_order_independent(ds1: Seq<DefV>, ds2: Seq<DefV>)
    requires
        ds1.to_set() == ds2.to_set(),
    ensures
        split_decls(build_tokens(ds1)).to_set() == split_decls(build_tokens(ds2)).to_set(),
{
    lemma_build_declarations(ds1);
    lemma_build_declarations(ds2);
    assert forall|x: Seq<TokenV>| declarations(ds1).contains(x) implies declarations(ds2).contains(
        x,
    ) by {
        lemma_declarations_contains(ds1, x);
        lemma_declarations_contains(ds2, x);
        let i = choose|i: int| 0 <= i < ds1.len() && decl_tokens(#[trigger] ds1[i]) == x;
        assert(ds1.to_set().contains(ds1[i]));
        assert(ds2.contains(ds1[i]));
    }
    assert forall|x: Seq<TokenV>| declarations(ds2).contains(x) implies declarations(ds1).contains(
        x,
    ) by {
        lemma_declarations_contains(ds1, x);
        lemma_declarations_contains(ds2, x);
        let i = choose|i: int| 0 <= i < ds2.len() && decl_tokens(#[trigger] ds2[i]) == x;
        assert(ds2.to_set().contains(ds2[i]));
        assert(ds1.contains(ds2[i]));
    }
    assert(declarations(ds1).to_set() =~= declarations(ds2).to_set());
}

/// In a flattened enum each variant keeps its name, and its payload follows
/// its shape: a unit variant has none; a tuple variant has its types in
/// parentheses, in their order, each followed by a comma; a struct variant
/// has the braced body that a struct with the same fields gets, and the
/// definitions written in those fields are hoisted as that struct's would be.
pub proof fn lemma_enum_payloads(name: Seq<char>, variants: Seq<VariantV>)
    ensures
        forall|i: int| 0 <= i < variants.len() ==> {
            let d = #[trigger] def_of(NewV::Enum { name, variants }).fields[i];
            let v = variants[i];
            &&& d.name == v.name
            &&& v.content is None ==> d.value == Seq::<TokenV>::empty()
            &&& v.content matches Some(PayloadV::Tuple(tys)) ==> d.value == seq![
                TokenV::Group(Delimiter::Parenthesis, types_tokens(tys)),
            ]
            &&& v.content matches Some(PayloadV::Struct(fs)) ==> {
                let s = NewV::Struct { name: v.name, fields: fs };
                &&& d.value == seq![decl_tokens(def_of(s))[2]]
                &&& hoist_payload(v.content) == flatten(s).drop_last()
            }
        },
{
    assert forall|i: int| 0 <= i < variants.len() implies {
        let d = #[trigger] def_of(NewV::Enum { name, variants }).fields[i];
        let v = variants[i];
        &&& d.name == v.name
        &&& v.content is None ==> d.value == Seq::<TokenV>::empty()
        &&& v.content matches Some(PayloadV::Tuple(tys)) ==> d.value == seq![
            TokenV::Group(Delimiter::Parenthesis, types_tokens(tys)),
        ]
        &&& v.content matches Some(PayloadV::Struct(fs)) ==> {
            let s = NewV::Struct { name: v.name, fields: fs };
            &&& d.value == seq![decl_tokens(def_of(s))[2]]
            &&& hoist_payload(v.content) == flatten(s).drop_last()
        }
    } by {
        let v = variants[i];
        match v.content {
            Some(PayloadV::Struct(fs)) => {
                let s = NewV::Struct { name: v.name, fields: fs };
                assert(flatten(s).drop_last() =~= hoist_fields(fs));
            },
            _ => {},
        }
    }
}

/// The declaration of each definition, in list order.
pub open spec fn decls_of(ds: Seq<DefV>) -> Seq<Seq<TokenV>> {
    ds.map_values(|d: DefV| decl_tokens(d))
}

/// The declaration of each definition of a tree, flattened.
pub open spec fn node_decls(ms: Seq<NewV>) -> Seq<Seq<TokenV>> {
    ms.map_values(|m: NewV| decl_tokens(def_of(m)))
}

proof fn lemma_declarations_multiset(ds: Seq<DefV>)
    ensures
        declarations(ds).to_multiset() == decls_of(ds).to_multiset(),
    decreases ds.len(),
{
    broadcast use vstd::seq_lib::group_to_multiset_ensures;
    broadcast use vstd::multiset::group_multiset_axioms;

    if ds.len() == 0 {
        assert(decls_of(ds) =~= Seq::<Seq<TokenV>>::empty());
    } else {
        let rest = ds.drop_last();
        lemma_declarations_multiset(rest);
        let x = decl_tokens(ds.last());
        vstd::seq_lib::lemma_multiset_commutative(seq![x], declarations(rest));
        assert(decls_of(ds) =~= decls_of(rest).push(x));
        assert(seq![x].to_multiset() =~= Multiset::<Seq<TokenV>>::empty().insert(x)) by {
            assert(Seq::<Seq<TokenV>>::empty().push(x) =~= seq![x]);
        }
        assert(declarations(ds).to_multiset() =~= decls_of(ds).to_multiset());
    }
}

proof fn lemma_decls_of_permutation(s1: Seq<DefV>, s2: Seq<DefV>)
    requires
        s1.to_multiset() == s2.to_multiset(),
    ensures
        decls_of(s1).to_multiset() == decls_of(s2).to_multiset(),
    decreases s1.len(),
{
    broadcast use vstd::seq_lib::group_to_multiset_ensures;
    broadcast use vstd::multiset::group_multiset_axioms;

    if s1.len() == 0 {
        assert(s1.to_multiset().len() == s1.len());
        assert(s2.to_multiset().len() == s2.len());
        assert(s2.len() == 0);
        assert(decls_of(s1) =~= decls_of(s2));
    } else {
        let x = s1.last();
        let r1 = s1.drop_last();
        assert(r1.push(x) =~= s1);
        assert(s2.to_multiset().count(x) > 0);
        assert(s2.contains(x));
        let j = choose|j: int| 0 <= j < s2.len() && s2[j] == x;
        let r2 = s2.remove(j);
        assert(r1.to_multiset() =~= s1.to_multiset().remove(x));
        assert(r2.to_multiset() =~= s2.to_multiset().remove(x));
        lemma_decls_of_permutation(r1, r2);
        assert(decls_of(s1) =~= decls_of(r1).push(decl_tokens(x)));
        assert(decls_of(s2) =~= decls_of(r2).insert(j, decl_tokens(x)));
        vstd::seq_lib::to_multiset_insert(decls_of(r2), j, decl_tokens(x));
        assert(decls_of(s1).to_multiset() =~= decls_of(s2).to_multiset());
    }
}

/// Building from two lists that hold the same definitions the same number of
/// times, in any order, emits the same declarations the same number of times.
pub proof fn lemma_permutation_same_declarations(ds1: Seq<DefV>, ds2: Seq<DefV>)
    requires
        ds1.to_multiset() == ds2.to_multiset(),
    ensures
        split_decls(build_tokens(ds1)).to_multiset() == split_decls(build_tokens(ds2)).to_multiset(),
{
    lemma_build_declarations(ds1);
    lemma_build_declarations(ds2);
    lemma_declarations_multiset(ds1);
    lemma_declarations_multiset(ds2);
    lemma_decls_of_permutation(ds1, ds2);
}

/// Flattening a tree and building the result emits, as a multiset, exactly
/// one declaration for each definition of the tree, inline ones included at
/// any depth: that definition with each inline definition replaced by its name.
pub proof fn lemma_declarations_of_tree(n: NewV)
    ensures
        split_decls(build_tokens(flatten(n))).to_multiset() == node_decls(nodes(n)).to_multiset(),
        split_decls(build_tokens(flatten(n))).len() == nodes(n).len(),
{
    lemma_round_trip(n);
    lemma_build_declarations(flatten(n));
    lemma_declarations_multiset(flatten(n));
    assert(decls_of(flatten(n)) =~= node_decls(nodes(n)));
    broadcast use vstd::seq_lib::group_to_multiset_ensures;

    assert(declarations(flatten(n)).to_multiset().len() == decls_of(flatten(n)).to_multiset().len());
}

/// `N0 { f: struct N1 { f: .. struct Nk { leaf } } }`: a chain of structs,
/// each but the last holding the next in its one field `f`.
pub open spec fn chain(names: Seq<Seq<char>>, f: Seq<char>, leaf: Seq<FieldV>) -> NewV
    decreases names.len(),
{
    if names.len() <= 1 {
        NewV::Struct { name: names[0], fields: leaf }
    } else {
        NewV::Struct {
            name: names[0],
            fields: seq![
                FieldV {
                    name: f,
                    value: ContentV::New(Box::new(chain(names.subrange(1, names.len() as int), f, leaf))),
                },
            ],
        }
    }
}

/// The declarations a chain flattens to, innermost first: `struct Nk { leaf }`,
/// then `struct Ni { f: N(i+1), }` for each outer struct.
pub open spec fn chain_decls(names: Seq<Seq<char>>, f: Seq<char>, leaf: Seq<FieldV>) -> Seq<Seq<TokenV>>
    decreases names.len(),
{
    if names.len() <= 1 {
        seq![
            decl_tokens(
                DefV {
                    kind: crate::interpreter::ContentType::Struct,
                    name: names[0],
                    fields: leaf.map_values(|l: FieldV| FieldDefV { name: l.name, value: field_value(l.value) }),
                },
            ),
        ]
    } else {
        chain_decls(names.subrange(1, names.len() as int), f, leaf) + seq![
            decl_tokens(
                DefV {
                    kind: crate::interpreter::ContentType::Struct,
                    name: names[0],
                    fields: seq![FieldDefV { name: f, value: seq![ident_v(names[1])] }],
                },
            ),
        ]
    }
}

/// Fields that hold existing types only.
pub open spec fn all_existing(fs: Seq<FieldV>) -> bool {
    forall|i: int| 0 <= i < fs.len() ==> (#[trigger] fs[i]).value is Existing
}

proof fn lemma_existing_fields_no_nodes(fs: Seq<FieldV>)
    requires
        all_existing(fs),
    ensures
        nodes_in_fields(fs) == Seq::<NewV>::empty(),
    decreases fs.len(),
{
    if fs.len() > 0 {
        let rest = fs.drop_last();
        assert forall|i: int| 0 <= i < rest.len() implies (#[trigger] rest[i]).value is Existing by {
            assert(rest[i] == fs[i]);
        }
        lemma_existing_fields_no_nodes(rest);
        assert(fs[fs.len() - 1].value is Existing);
        assert(nodes_in_content(fs.last().value) == Seq::<NewV>::empty());
        assert(nodes_in_fields(fs) =~= Seq::<NewV>::empty());
    }
}

proof fn lemma_chain_nodes(names: Seq<Seq<char>>, f: Seq<char>, leaf: Seq<FieldV>)
    requires
        names.len() >= 1,
        all_existing(leaf),
    ensures
        node_decls(nodes(chain(names, f, leaf))) == chain_decls(names, f, leaf),
    decreases names.len(),
{
    let c = chain(names, f, leaf);
    if names.len() == 1 {
        lemma_existing_fields_no_nodes(leaf);
        assert(nodes(c) =~= seq![c]);
        assert(field_defs_of(leaf) =~= leaf.map_values(
            |l: FieldV| FieldDefV { name: l.name, value: field_value(l.value) },
        ));
        assert(node_decls(nodes(c)) =~= chain_decls(names, f, leaf));
    } else {
        let rest = names.subrange(1, names.len() as int);
        let inner = chain(rest, f, leaf);
        lemma_chain_nodes(rest, f, leaf);
        let fv = FieldV { name: f, value: ContentV::New(Box::new(inner)) };
        assert(seq![fv].drop_last() =~= Seq::<FieldV>::empty());
        assert(nodes_in_fields(Seq::<FieldV>::empty()) == Seq::<NewV>::empty());
        assert(nodes_in_content(fv.value) == nodes(inner));
        assert(nodes_in_fields(seq![fv]) =~= nodes(inner));
        assert(nodes(c) =~= nodes(inner) + seq![c]);
        assert(inner.name() == names[1]) by {
            if rest.len() > 1 {
            }
        }
        assert(field_defs_of(seq![fv]) =~= seq![FieldDefV { name: f, value: seq![ident_v(names[1])] }]);
        assert(node_decls(nodes(c)) =~= node_decls(nodes(inner)) + seq![decl_tokens(def_of(c))]);
        assert(node_decls(nodes(c)) =~= chain_decls(names, f, leaf));
    }
}

/// A chain of any depth `k` flattens the same way: into exactly `k + 1`
/// declarations, as a multiset `struct Ni { f: N(i+1), }` for each outer
/// struct and `struct Nk { leaf }` for the innermost.
pub proof fn lemma_chain_flattens(names: Seq<Seq<char>>, f: Seq<char>, leaf: Seq<FieldV>)
    requires
        names.len() >= 1,
        all_existing(leaf),
    ensures
        split_decls(build_tokens(flatten(chain(names, f, leaf)))).len() == names.len(),
        split_decls(build_tokens(flatten(chain(names, f, leaf)))).to_multiset() == chain_decls(
            names,
            f,
            leaf,
        ).to_multiset(),
{
    lemma_chain_nodes(names, f, leaf);
    lemma_declarations_of_tree(chain(names, f, leaf));
    lemma_chain_len(names, f, leaf);
}

proof fn lemma_chain_len(names: Seq<Seq<char>>, f: Seq<char>, leaf: Seq<FieldV>)
    requires
        names.len() >= 1,
    ensures
        chain_decls(names, f, leaf).len() == names.len(),
    decreases names.len(),
{
    if names.len() > 1 {
        lemma_chain_len(names.subrange(1, names.len() as int), f, leaf);
    }
}

} // verus!

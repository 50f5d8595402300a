use kozo::ast::{Content, Define, EnumContent, EnumField, New, StructField};
use kozo::define;
use kozo::interpreter::{interpret_new, ContentType, Def, FieldDef, List};
use kozo::parser::SyntaxError;
use kozo::token::{Delimiter, Token};

/// Token trees of a small piece of source text: identifiers, numbers,
/// punctuation (joint when another punctuation character other than a
/// separator follows at once, as in `->` or `::`, and for the quote of a
/// lifetime) and bracketed groups.
fn lex(src: &str) -> Vec<Token> {
    let chars: Vec<char> = src.chars().collect();
    let mut pos = 0;
    let out = lex_until(&chars, &mut pos, None);
    assert_eq!(pos, chars.len());
    out
}

fn is_punct_char(c: char) -> bool {
    !c.is_alphanumeric() && !c.is_whitespace() && c != '_' && !"(){}[],;".contains(c)
}

fn lex_until(chars: &[char], pos: &mut usize, close: Option<char>) -> Vec<Token> {
    let mut out = Vec::new();
    while *pos < chars.len() {
        let c = chars[*pos];
        if Some(c) == close {
            *pos += 1;
            return out;
        }
        if c.is_whitespace() {
            *pos += 1;
        } else if c.is_alphabetic() || c == '_' {
            let start = *pos;
            if c == 'r' && chars.get(*pos + 1) == Some(&'#') {
                *pos += 2;
            }
            while *pos < chars.len() && (chars[*pos].is_alphanumeric() || chars[*pos] == '_') {
                *pos += 1;
            }
            out.push(Token::Ident(chars[start..*pos].iter().collect()));
        } else if c.is_ascii_digit() {
            let start = *pos;
            while *pos < chars.len() && chars[*pos].is_alphanumeric() {
                *pos += 1;
            }
            out.push(Token::Literal(chars[start..*pos].iter().collect()));
        } else if c == '(' || c == '{' || c == '[' {
            *pos += 1;
            let (delim, end) = match c {
                '(' => (Delimiter::Parenthesis, ')'),
                '{' => (Delimiter::Brace, '}'),
                _ => (Delimiter::Bracket, ']'),
            };
            let inner = lex_until(chars, pos, Some(end));
            out.push(Token::Group(delim, inner));
        } else {
            *pos += 1;
            let joint = *pos < chars.len()
                && (is_punct_char(chars[*pos]) || (c == '\'' && chars[*pos].is_alphabetic()));
            out.push(Token::Punct(c, joint));
        }
    }
    assert!(close.is_none(), "unclosed group");
    out
}

fn field(name: &str, value: Content) -> StructField {
    StructField { name: name.to_string(), value }
}

fn existing(ty: &str) -> Content {
    Content::Existing(lex(ty))
}

fn new_struct(name: &str, fields: Vec<StructField>) -> New {
    New::Struct { name: name.to_string(), fields }
}

fn def(kind: ContentType, name: &str, fields: &[(&str, &str)]) -> Def {
    Def {
        content_type: kind,
        name: name.to_string(),
        fields: fields
            .iter()
            .map(|(n, v)| FieldDef { name: n.to_string(), value_type: lex(v) })
            .collect(),
    }
}

/// Whether the two lists hold the same definitions the same number of times,
/// in any order.
fn same_defs(x: &List, y: &List) -> bool {
    if x.0.len() != y.0.len() {
        return false;
    }
    let mut left: Vec<&Def> = x.0.iter().collect();
    for d in &y.0 {
        match left.iter().position(|e| *e == d) {
            Some(i) => {
                left.remove(i);
            }
            None => return false,
        }
    }
    left.is_empty()
}

/// The declarations of an emitted token sequence: keyword, name, body.
fn declarations(ts: &[Token]) -> Vec<&[Token]> {
    assert_eq!(ts.len() % 3, 0);
    ts.chunks(3).collect()
}

fn same_declarations(x: &[Token], y: &[Token]) -> bool {
    let (mut a, mut b) = (declarations(x), declarations(y));
    let key = |d: &&[Token]| format!("{:?}", d);
    a.sort_by_key(key);
    b.sort_by_key(key);
    a == b
}

fn flatten_and_build(src: &str) -> Vec<Token> {
    Define::parse(&lex(src)).unwrap().interpret().build()
}

#[test]
fn parse_non_nested_1() {
    let case = lex("struct NonNestedStruct { a: Vec<u8>, b: u8, }");
    assert_eq!(
        Define::parse(&case).unwrap(),
        Define(new_struct(
            "NonNestedStruct",
            vec![field("a", existing("Vec<u8>")), field("b", existing("u8"))],
        ))
    )
}

#[test]
fn parse_nested_1() {
    let case = lex("struct NestedStruct { a: struct A { b: u8, c: u8, }, }");
    assert_eq!(
        Define::parse(&case).unwrap(),
        Define(new_struct(
            "NestedStruct",
            vec![field(
                "a",
                Content::New(Box::new(new_struct(
                    "A",
                    vec![field("b", existing("u8")), field("c", existing("u8"))],
                ))),
            )],
        ))
    )
}

#[test]
fn parse_nested_2() {
    let case = lex(
        "struct NestedStruct { a: struct A { b: u8, c: u8, }, d: struct D { e: String, f: Vec<u8>, }, }",
    );
    assert_eq!(
        Define::parse(&case).unwrap(),
        Define(new_struct(
            "NestedStruct",
            vec![
                field(
                    "a",
                    Content::New(Box::new(new_struct(
                        "A",
                        vec![field("b", existing("u8")), field("c", existing("u8"))],
                    ))),
                ),
                field(
                    "d",
                    Content::New(Box::new(new_struct(
                        "D",
                        vec![field("e", existing("String")), field("f", existing("Vec<u8>"))],
                    ))),
                ),
            ],
        ))
    )
}

#[test]
fn interpret_nested_1() {
    let case = Define::parse(&lex("struct NestedStruct { a: struct A { b: u8, c: u8, }, }")).unwrap();
    let expected = List(vec![
        def(ContentType::Struct, "NestedStruct", &[("a", "A")]),
        def(ContentType::Struct, "A", &[("b", "u8"), ("c", "u8")]),
    ]);
    assert!(same_defs(&case.interpret(), &expected));
}

#[test]
fn interpret_nested_2() {
    let case = Define::parse(&lex(
        "struct NestedStruct { a: struct A { b: u8, c: u8, }, d: struct D { e: String, f: Vec<u8>, }, }",
    ))
    .unwrap();
    let expected = List(vec![
        def(ContentType::Struct, "NestedStruct", &[("a", "A"), ("d", "D")]),
        def(ContentType::Struct, "A", &[("b", "u8"), ("c", "u8")]),
        def(ContentType::Struct, "D", &[("e", "String"), ("f", "Vec<u8>")]),
    ]);
    assert!(same_defs(&case.interpret(), &expected));
}

#[test]
fn build_nested_1() {
    let built = flatten_and_build("struct NestedStruct { a: struct A { b: u8, c: u8, }, }");
    assert_eq!(built, lex("struct NestedStruct { a: A, } struct A { b: u8, c: u8, }"));
}

#[test]
fn build_nested_2() {
    let built = flatten_and_build(
        "struct NestedStruct { a: struct A { b: u8, c: u8, }, d: struct D { e: String, f: Vec<u8>, }, }",
    );
    assert_eq!(
        built,
        lex("struct NestedStruct { a: A, d: D, } struct D { e: String, f: Vec<u8>, } struct A { b: u8, c: u8, }")
    );
}

#[test]
fn build_double_nested_1() {
    let built = flatten_and_build(
        "struct NestedStruct { a: struct A { b: struct B { c: u8, d: String, }, e: u8, }, }",
    );
    assert_eq!(
        built,
        lex("struct NestedStruct { a: A, } struct A { b: B, e: u8, } struct B { c: u8, d: String, }")
    );
}

#[test]
fn flatten_one_nested_struct() {
    let built = define(lex("struct S { a: struct A { b: u8, c: u8 } }")).unwrap();
    let expected = lex("struct S { a: A, } struct A { b: u8, c: u8, }");
    assert_eq!(declarations(&built).len(), 2);
    assert!(same_declarations(&built, &expected));
}

#[test]
fn flatten_two_nested_structs() {
    let built = define(lex("struct S { a: struct A { b: u8 }, d: struct D { e: String } }")).unwrap();
    let expected = lex("struct S { a: A, d: D, } struct A { b: u8, } struct D { e: String, }");
    assert_eq!(declarations(&built).len(), 3);
    assert!(same_declarations(&built, &expected));
}

#[test]
fn flatten_double_nesting() {
    let built = define(lex("struct S { a: struct A { b: struct B { c: u8 }, e: u8 } }")).unwrap();
    let expected = lex("struct S { a: A, } struct A { b: B, e: u8, } struct B { c: u8, }");
    assert_eq!(declarations(&built).len(), 3);
    assert!(same_declarations(&built, &expected));
}

#[test]
fn enum_with_unit_and_tuple_variants() {
    let built = define(lex("enum E { X, Y, Other(String, usize) }")).unwrap();
    assert_eq!(built, lex("enum E { X, Y, Other(String, usize,), }"));
}

#[test]
fn input_without_struct_or_enum_is_refused() {
    assert_eq!(
        define(lex("fn f { a: u8 }")),
        Err(SyntaxError::ExpectedStructOrEnum)
    );
    assert_eq!(define(lex("")), Err(SyntaxError::ExpectedStructOrEnum));
}

#[test]
fn depth_three_and_four() {
    let built = define(lex(
        "struct S { a: struct A { b: struct B { c: struct C { d: u8 } } }, z: u8 }",
    ))
    .unwrap();
    assert_eq!(
        built,
        lex("struct S { a: A, z: u8, } struct A { b: B, } struct B { c: C, } struct C { d: u8, }")
    );
}

#[test]
fn depth_one_without_nesting() {
    let built = define(lex("struct S { a: u8, b: Vec<u8> }")).unwrap();
    assert_eq!(built, lex("struct S { a: u8, b: Vec<u8>, }"));
}

#[test]
fn enum_payload_shapes() {
    let case = Define::parse(&lex(
        "enum F { X, T(u8, Vec<String>,), Other { name: String, inner: struct In { id: usize } } }",
    ))
    .unwrap();
    let list = case.interpret();
    let expected = List(vec![
        def(ContentType::Struct, "In", &[("id", "usize")]),
        def(
            ContentType::Enum,
            "F",
            &[("X", ""), ("T", "(u8, Vec<String>,)"), ("Other", "{ name: String, inner: In, }")],
        ),
    ]);
    assert_eq!(list, expected);
    assert_eq!(
        list.build(),
        lex("enum F { X, T(u8, Vec<String>,), Other { name: String, inner: In, }, } struct In { id: usize, }")
    );
}

#[test]
fn enum_nested_in_struct() {
    let built = define(lex(
        "struct NestedStruct { a: Vec<u8>, b: struct B { c: struct C { d: u8, e: u8 }, f: enum F { X, Y, Other { name: String, id: usize } } } }",
    ))
    .unwrap();
    assert_eq!(
        built,
        lex("struct NestedStruct { a: Vec<u8>, b: B, } struct B { c: C, f: F, } enum F { X, Y, Other { name: String, id: usize, }, } struct C { d: u8, e: u8, }")
    );
}

#[test]
fn hoisted_names_may_repeat() {
    let built = define(lex("struct S { a: struct A { x: u8 }, b: struct A { y: u8 } }")).unwrap();
    assert_eq!(
        built,
        lex("struct S { a: A, b: A, } struct A { y: u8, } struct A { x: u8, }")
    );
}

#[test]
fn order_of_list_does_not_change_declarations() {
    let one = List(vec![
        def(ContentType::Struct, "A", &[("b", "u8")]),
        def(ContentType::Struct, "S", &[("a", "A")]),
    ]);
    let two = List(vec![
        def(ContentType::Struct, "S", &[("a", "A")]),
        def(ContentType::Struct, "A", &[("b", "u8")]),
        def(ContentType::Struct, "A", &[("b", "u8")]),
    ]);
    let (x, y) = (one.build(), two.build());
    assert_ne!(x, y);
    let set = |ts: &[Token]| {
        let mut ds: Vec<String> = declarations(ts).iter().map(|d| format!("{:?}", d)).collect();
        ds.sort();
        ds.dedup();
        ds
    };
    assert_eq!(set(&x), set(&y));
    assert_eq!(set(&x).len(), 2);
}

#[test]
fn list_next_takes_the_last() {
    let mut list = List(vec![
        def(ContentType::Struct, "A", &[("b", "u8")]),
        def(ContentType::Enum, "E", &[("X", "")]),
    ]);
    assert_eq!(list.next().unwrap().name, "E");
    assert_eq!(list.next().unwrap().name, "A");
    assert!(list.next().is_none());
}

#[test]
fn new_name_of_struct_and_enum() {
    assert_eq!(new_struct("S", vec![]).name(), "S");
    assert_eq!(New::Enum { name: "E".to_string(), fields: vec![] }.name(), "E");
}

#[test]
fn parse_enum_variants() {
    let case = Define::parse(&lex("enum E { X, Y(u8,), Z { a: u8 } }")).unwrap();
    assert_eq!(
        case,
        Define(New::Enum {
            name: "E".to_string(),
            fields: vec![
                EnumField { name: "X".to_string(), content: None },
                EnumField { name: "Y".to_string(), content: Some(EnumContent::Tuple(vec![lex("u8")])) },
                EnumField {
                    name: "Z".to_string(),
                    content: Some(EnumContent::Struct(vec![field("a", existing("u8"))])),
                },
            ],
        })
    );
}

#[test]
fn parse_existing_types_keep_generics_and_arrows() {
    let case = Define::parse(&lex(
        "struct S { a: HashMap<u8, Vec<u8>>, b: Box<dyn Fn(u8) -> u8>, c: std::string::String }",
    ))
    .unwrap();
    assert_eq!(
        case,
        Define(new_struct(
            "S",
            vec![
                field("a", existing("HashMap<u8, Vec<u8>>")),
                field("b", existing("Box<dyn Fn(u8) -> u8>")),
                field("c", existing("std::string::String")),
            ],
        ))
    );
}

#[test]
fn parse_errors() {
    assert_eq!(Define::parse(&lex("struct { a: u8 }")), Err(SyntaxError::ExpectedIdent));
    assert_eq!(Define::parse(&lex("struct S ( a: u8 )")), Err(SyntaxError::ExpectedBraces));
    assert_eq!(Define::parse(&lex("struct S")), Err(SyntaxError::ExpectedBraces));
    assert_eq!(Define::parse(&lex("struct S { a u8 }")), Err(SyntaxError::ExpectedColon));
    assert_eq!(Define::parse(&lex("struct S { a: &str }")), Err(SyntaxError::ExpectedType));
    assert_eq!(Define::parse(&lex("struct S { a: }")), Err(SyntaxError::ExpectedType));
    assert_eq!(Define::parse(&lex("struct S { 1: u8 }")), Err(SyntaxError::ExpectedIdent));
    assert_eq!(Define::parse(&lex("enum E { X Y }")), Err(SyntaxError::ExpectedComma));
    assert_eq!(Define::parse(&lex("enum E { X(u8,,) }")), Err(SyntaxError::ExpectedType));
    assert_eq!(Define::parse(&lex("struct S { } struct T { }")), Err(SyntaxError::UnexpectedToken));
    assert_eq!(
        Define::parse(&lex("struct S { a: struct { b: u8 } }")),
        Err(SyntaxError::ExpectedIdent)
    );
}

#[test]
fn error_messages() {
    assert_eq!(
        SyntaxError::ExpectedStructOrEnum.message(),
        "content of `define!` must start with `struct` or `enum`."
    );
    assert_eq!(SyntaxError::ExpectedComma.message(), "expected `,`");
    assert_eq!(SyntaxError::ExpectedIdent.message(), "expected identifier");
    assert_eq!(SyntaxError::ExpectedColon.message(), "expected `:`");
    assert_eq!(SyntaxError::ExpectedBraces.message(), "expected curly braces");
    assert_eq!(
        SyntaxError::ExpectedType.message(),
        "Only\n- existing type\n- new struct\n- new enum\nare allowed as type"
    );
    assert_eq!(SyntaxError::UnexpectedToken.message(), "unexpected token");
}

#[test]
fn describe_definitions() {
    let case = Define::parse(&lex(
        "struct NestedStruct { a: Vec<u8>, b: struct B { c: u8 }, e: enum E { X, Y(u8, String), Z { q: u8 } } }",
    ))
    .unwrap();
    assert_eq!(
        case.0.describe(),
        "NestedStruct{a:Vec < u8 >,b:B{c:u8,},e:E{X,Y(u8,String,),Z{q:u8,},},}"
    );
    assert_eq!(
        case.describe(),
        "Define(NestedStruct{a:Vec < u8 >,b:B{c:u8,},e:E{X,Y(u8,String,),Z{q:u8,},},})"
    );
    if let New::Struct { fields, .. } = &case.0 {
        assert_eq!(fields[0].describe(), "a:Vec < u8 >");
        assert_eq!(fields[1].value.describe(), "B{c:u8,}");
    } else {
        panic!("a struct was read");
    }
    let list = case.interpret();
    assert_eq!(list.0[0].describe(), "struct B{c:u8,}");
    assert_eq!(list.0[1].describe(), "enum E{X,Y(u8 , String ,),Z{ q : u8 , },}");
    assert_eq!(
        list.describe(),
        "List[struct B{c:u8,}, enum E{X,Y(u8 , String ,),Z{ q : u8 , },}, struct NestedStruct{a:Vec < u8 >,b:B,e:E,}]"
    );
}

#[test]
fn describe_variants_and_payloads() {
    let v = EnumField { name: "Y".to_string(), content: Some(EnumContent::Tuple(vec![lex("u8"), lex("Vec<u8>")])) };
    assert_eq!(v.describe(), "Y(u8,Vec < u8 >,)");
    let unit = EnumField { name: "X".to_string(), content: None };
    assert_eq!(unit.describe(), "X");
    let body = EnumContent::Struct(vec![field("a", existing("u8"))]);
    assert_eq!(body.describe(), "{a:u8,}");
}

#[test]
fn fields_without_comma_are_refused() {
    assert_eq!(define(lex("struct S { a: u8 b: u8 }")), Err(SyntaxError::ExpectedType));
    assert_eq!(
        define(lex("struct S { a: struct A { b u8 } }")),
        Err(SyntaxError::ExpectedColon)
    );
}

#[test]
fn existing_type_must_be_a_type() {
    assert_eq!(define(lex("struct S { a: Foo:: }")), Err(SyntaxError::ExpectedType));
    assert_eq!(define(lex("struct S { a: Vec<u8 }")), Err(SyntaxError::ExpectedType));
    assert_eq!(define(lex("struct S { a: Self }")), Err(SyntaxError::ExpectedType));
    assert_eq!(define(lex("struct S { a: crate::X }")), Err(SyntaxError::ExpectedType));
    assert_eq!(
        define(lex("struct S { a: Option<(u8, String)>, b: [u8; 4] }")),
        Err(SyntaxError::ExpectedType)
    );
    assert_eq!(
        define(lex("struct S { a: Option<Vec<u8>>, b: Box<dyn Fn(u8) -> u8> }")).unwrap(),
        lex("struct S { a: Option<Vec<u8>>, b: Box<dyn Fn(u8) -> u8>, }")
    );
}

#[test]
fn tuple_elements_must_be_types() {
    assert_eq!(define(lex("enum E { X(u8 u8) }")), Err(SyntaxError::ExpectedType));
    assert_eq!(define(lex("enum E { X(u8, Foo::) }")), Err(SyntaxError::ExpectedType));
    assert_eq!(
        define(lex("enum E { X(&'static str, [u8; 4], (u8, u16)) }")).unwrap(),
        lex("enum E { X(&'static str, [u8; 4], (u8, u16),), }")
    );
}

#[test]
fn reserved_words_are_no_names() {
    assert_eq!(define(lex("struct fn { a: u8 }")), Err(SyntaxError::ExpectedIdent));
    assert_eq!(define(lex("struct S { type: u8 }")), Err(SyntaxError::ExpectedIdent));
    assert_eq!(define(lex("enum E { Self }")), Err(SyntaxError::ExpectedIdent));
    assert_eq!(define(lex("struct S { a: struct _ { b: u8 } }")), Err(SyntaxError::ExpectedIdent));
    assert!(define(lex("struct S { r#type: u8, from: u8 }")).is_ok());
}

#[test]
fn interpret_new_appends_after_existing_entries() {
    let n = match Define::parse(&lex("enum E { X, T(u8, String), S { a: struct A { b: u8 } } }")).unwrap() {
        Define(n) => n,
    };
    let mut list = vec![def(ContentType::Struct, "Before", &[("z", "u8")])];
    interpret_new(&n, &mut list);
    assert_eq!(
        List(list),
        List(vec![
            def(ContentType::Struct, "Before", &[("z", "u8")]),
            def(ContentType::Struct, "A", &[("b", "u8")]),
            def(ContentType::Enum, "E", &[("X", ""), ("T", "(u8, String,)"), ("S", "{ a: A, }")]),
        ])
    );
}

#[test]
fn type_in_invisible_group_is_accepted() {
    let mut input = lex("struct S { a: X, }");
    if let Token::Group(_, inner) = &mut input[2] {
        inner[2] = Token::Group(Delimiter::Invisible, lex("Vec<u8>"));
    }
    let out = define(input).unwrap();
    let mut expected = lex("struct S { a: X, }");
    if let Token::Group(_, inner) = &mut expected[2] {
        inner[2] = Token::Group(Delimiter::Invisible, lex("Vec<u8>"));
    }
    assert_eq!(out, expected);
}

#[test]
fn accept_types_follows_the_verdicts() {
    let read = |src: &str| Define::read(&lex(src)).unwrap();
    let d = read("struct S { a: u8, b: struct B { c: Foo:: }, e: enum E { X(u8 u8, u16) } }");
    assert_eq!(d.existing_types(), vec![lex("u8"), lex("Foo::"), lex("u8 u8"), lex("u16")]);
    let src = "struct S { a: u8, b: struct B { c: u8 } }";
    assert_eq!(read(src).accept_types(&vec![true, true]), Ok(read(src)));
    assert_eq!(read(src).accept_types(&vec![true, false]), Err(SyntaxError::ExpectedType));
    assert_eq!(read(src).accept_types(&vec![true]), Err(SyntaxError::ExpectedType));
    assert_eq!(Define::parse(&lex(src)), Ok(read(src)));
}

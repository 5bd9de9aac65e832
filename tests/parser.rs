use xdrust::parser::{constant, declaration, identifier, is_ident, parse, tokenize, Token, Type};

#[test]
fn ident_bytes() {
    assert!(is_ident(b'a'));
    assert!(is_ident(b'Z'));
    assert!(is_ident(b'0'));
    assert!(is_ident(b'_'));
    assert!(!is_ident(b'-'));
    assert!(!is_ident(b' '));
}

#[test]
fn parse_typedef() {
    let ts = parse(b"typedef unsigned int foo;", false).expect("parses");
    assert_eq!(
        ts,
        vec![Token::TypeDef(Box::new(Token::Decl {
            ty: Box::new(Token::Type(Type::Uint)),
            id: Box::new(Token::Ident("foo".to_string())),
        }))]
    );
}

#[test]
fn parse_requires_total_consumption() {
    assert!(parse(b"typedef int foo; garbage", false).is_none());
    assert!(parse(b"struct point { int x; ", false).is_none());
    let (ts, end) = tokenize(b"typedef int foo; garbage");
    assert_eq!(end, 17);
    assert_eq!(ts.len(), 2);
}

#[test]
fn parse_empty_input() {
    assert_eq!(parse(b"", false), Some(vec![]));
}

#[test]
fn parse_struct_in_order() {
    let ts = parse(b"struct point { int x; int y; };", false).expect("parses");
    match &ts[0] {
        Token::StructDef { id, decl } => {
            assert_eq!(**id, Token::Ident("point".to_string()));
            match &**decl {
                Token::Struct(fields) => {
                    assert_eq!(fields.len(), 2);
                    assert_eq!(
                        fields[0],
                        Token::Decl { ty: Box::new(Token::Type(Type::Int)), id: Box::new(Token::Ident("x".to_string())) }
                    );
                    assert_eq!(
                        fields[1],
                        Token::Decl { ty: Box::new(Token::Type(Type::Int)), id: Box::new(Token::Ident("y".to_string())) }
                    );
                },
                other => panic!("unexpected {:?}", other),
            }
        },
        other => panic!("unexpected {:?}", other),
    }
}

#[test]
fn comment_and_passthrough_lines_are_kept() {
    let ts = parse(b"// hello\n%#include \"x.h\"\n", false).expect("parses");
    assert_eq!(ts, vec![Token::Comment(" hello".to_string()), Token::CodeSnippet("#include \"x.h\"".to_string())]);
}

#[test]
fn numeric_literals() {
    assert_eq!(constant(b"0x1F", 0), Some((Token::Constant(31), 4)));
    assert_eq!(constant(b"017", 0), Some((Token::Constant(15), 3)));
    assert_eq!(constant(b"42;", 0), Some((Token::Constant(42), 2)));
    assert_eq!(constant(b"0", 0), Some((Token::Constant(0), 1)));
    assert_eq!(constant(b"0x", 0), Some((Token::Constant(0), 1)));
    assert_eq!(constant(b"x", 0), None);
    assert_eq!(constant(b"99999999999999999999", 0), None);
}

#[test]
fn identifier_is_longest_run() {
    assert_eq!(identifier(b"foo_1 bar", 0), Some((Token::Ident("foo_1".to_string()), 5)));
    assert_eq!(identifier(b" foo", 0), None);
}

#[test]
fn declaration_forms() {
    assert_eq!(
        declaration(b"opaque data[16]", 0),
        Some((Token::OpaqueDecl { id: Box::new(Token::Ident("data".to_string())), size: Box::new(Token::Constant(16)) }, 15))
    );
    assert_eq!(
        declaration(b"opaque data<>", 0),
        Some((Token::VarOpaqueDecl { id: Box::new(Token::Ident("data".to_string())), size: Box::new(None) }, 13))
    );
    assert_eq!(
        declaration(b"hyper h[MAX]", 0),
        Some((
            Token::ArrayDecl {
                ty: Box::new(Token::Type(Type::Hyper)),
                id: Box::new(Token::Ident("h".to_string())),
                size: Box::new(Token::Ident("MAX".to_string())),
            },
            12
        ))
    );
    assert_eq!(
        declaration(b"node * next", 0),
        Some((
            Token::PointerDecl { ty: Box::new(Token::Ident("node".to_string())), id: Box::new(Token::Ident("next".to_string())) },
            11
        ))
    );
    assert_eq!(declaration(b"void", 0), Some((Token::VoidDecl, 4)));
    assert_eq!(
        declaration(b"u_int64_t n", 0),
        Some((Token::Decl { ty: Box::new(Token::Type(Type::Uhyper)), id: Box::new(Token::Ident("n".to_string())) }, 11))
    );
}

#[test]
fn union_with_default() {
    let ts = parse(b"union u switch (int d) { case 1: int a; case 2: int b; default: void; };", false).expect("parses");
    match &ts[0] {
        Token::UnionDef { decl, .. } => match &**decl {
            Token::Union { cases, default, .. } => {
                assert_eq!(cases.len(), 2);
                assert_eq!(**default, Some(Token::VoidDecl));
            },
            other => panic!("unexpected {:?}", other),
        },
        other => panic!("unexpected {:?}", other),
    }
}

#[test]
fn program_definition() {
    let src = b"program calc { version v1 { int add(int a, int b) = 1; } = 1; } = 0x20000001;";
    let ts = parse(src, false).expect("parses");
    match &ts[0] {
        Token::Program { name, id, versions } => {
            assert_eq!(**name, Token::Ident("calc".to_string()));
            assert_eq!(**id, Token::Constant(0x20000001));
            match &versions[0] {
                Token::Version { procs, .. } => match &procs[0] {
                    Token::Proc { return_type, arg_types, .. } => {
                        assert_eq!(**return_type, Token::Type(Type::Int));
                        assert_eq!(arg_types, &vec![Token::Type(Type::Int), Token::Type(Type::Int)]);
                    },
                    other => panic!("unexpected {:?}", other),
                },
                other => panic!("unexpected {:?}", other),
            }
        },
        other => panic!("unexpected {:?}", other),
    }
}

#[test]
fn trailing_unparsable_text_gives_no_result() {
    assert!(parse(b"typedef unsigned int foo; @@@", false).is_none());
}

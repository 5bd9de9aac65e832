use xdrust::code_writer::CodeWriter;
use xdrust::codegen::{compile, compile_tokens, convert_basic_token, rustify, write_typedef};
use xdrust::parser::{Token, Type};

const HEADER: &str = "// autogenerated by xdrust\n#[allow(dead_code)]\n\n";
const DERIVE: &str = "#[derive(Serialize, Deserialize, PartialEq, Debug)]\n";

fn generate(source: &str) -> (String, Vec<usize>) {
    let mut wr = CodeWriter::new();
    let skipped = compile(&mut wr, source.to_string()).expect("source parses");
    (wr.output().clone(), skipped)
}

#[test]
fn rustify_strips_trailing_t_after_underscore() {
    assert_eq!(rustify(&"foo_bar_t".to_string()), "FooBar");
}

#[test]
fn rustify_single_letter() {
    assert_eq!(rustify(&"a".to_string()), "A");
}

#[test]
fn rustify_keeps_t_without_underscore() {
    assert_eq!(rustify(&"at".to_string()), "At");
}

#[test]
fn rustify_lowers_the_rest_of_each_word() {
    assert_eq!(rustify(&"RED".to_string()), "Red");
    assert_eq!(rustify(&"my_long_name".to_string()), "MyLongName");
    assert_eq!(rustify(&"t".to_string()), "T");
    assert_eq!(rustify(&"".to_string()), "");
}

#[test]
fn convert_maps_primitives() {
    assert_eq!(convert_basic_token(&Token::Type(Type::Uint), true), "u32");
    assert_eq!(convert_basic_token(&Token::Type(Type::Int), true), "i32");
    assert_eq!(convert_basic_token(&Token::Type(Type::Uhyper), true), "u64");
    assert_eq!(convert_basic_token(&Token::Type(Type::Hyper), true), "i64");
    assert_eq!(convert_basic_token(&Token::Type(Type::Bool), true), "bool");
    assert_eq!(convert_basic_token(&Token::Type(Type::Quadruple), true), "UNSUPORTED_TYPE");
    assert_eq!(convert_basic_token(&Token::Constant(-42), false), "-42");
    assert_eq!(convert_basic_token(&Token::Ident("my_type_t".to_string()), true), "MyType");
    assert_eq!(convert_basic_token(&Token::Ident("my_field".to_string()), false), "my_field");
    assert_eq!(convert_basic_token(&Token::Blank, false), "UNSUPORTED_TYPE");
}

#[test]
fn typedef_unsigned_int_alias() {
    let (out, skipped) = generate("typedef unsigned int foo;");
    assert_eq!(out, format!("{}pub type Foo = u32;\n", HEADER));
    assert!(skipped.is_empty());
}

#[test]
fn typedef_variable_array_and_string() {
    let (out, _) = generate("typedef int ids<10>;\ntypedef string name<>;\n");
    assert_eq!(out, format!("{}pub type Ids = Vec<i32>;\npub type Name = String;\n", HEADER));
}

#[test]
fn struct_fields_in_declared_order() {
    let (out, skipped) = generate("struct point { int x; int y; };");
    let expected = format!("{}\n{}pub struct Point {{\n  pub x: i32,\n  pub y: i32,\n}}\n", HEADER, DERIVE);
    assert_eq!(out, expected);
    assert!(skipped.is_empty());
}

#[test]
fn struct_string_field_and_user_type() {
    let (out, _) = generate("struct rec_t {\n  string name<16>;\n  my_kind_t kind;\n};\n");
    let expected = format!(
        "{}\n{}pub struct Rec {{\n  pub name: String,\n  pub kind: MyKind,\n}}\n",
        HEADER, DERIVE
    );
    assert_eq!(out, expected);
}

#[test]
fn enum_members_with_values() {
    let (out, _) = generate("enum color { RED=0, GREEN=1, BLUE=2 };");
    let expected = format!(
        "{}\n{}pub enum Color {{\n  Red = 0,\n  Green = 1,\n  Blue = 2,\n}}\n",
        HEADER, DERIVE
    );
    assert_eq!(out, expected);
}

#[test]
fn union_variant_per_label_and_default() {
    let src = "union u switch (int d) { case 1: int a; case 2: case 3: int b; default: void; };";
    let (out, _) = generate(src);
    let expected = format!(
        "{}\n{}pub enum U {{\n  1 {{\n    a: i32,\n  }},\n  2 {{\n    b: i32,\n  }},\n  3 {{\n    b: i32,\n  }},\n  // Default case for the XDR Union\n  UnionDefault_ {{\n  }},\n}}\n",
        HEADER, DERIVE
    );
    assert_eq!(out, expected);
}

#[test]
fn program_request_and_response_variants() {
    let src = "program calc { version calc_v1 { int add(int a, int b) = 1; void ping(void) = 2; } = 1; } = 0x20000001;";
    let (out, skipped) = generate(src);
    let expected = format!(
        "{h}\n{d}pub enum CalcRequest {{\n  V1(CalcRequestV1),\n}}\n\n{d}pub enum CalcResponse {{\n  V1(CalcResponseV1),\n}}\n\n{d}pub enum CalcRequestV1 {{\n  Add(i32, i32),\n  Ping,\n}}\n\n{d}pub enum CalcResponseV1 {{\n  Add(i32),\n  Ping,\n}}\n",
        h = HEADER,
        d = DERIVE
    );
    assert_eq!(out, expected);
    assert!(skipped.is_empty());
}

#[test]
fn namespace_holds_program_and_service() {
    let proc_ = Token::Proc {
        return_type: Box::new(Token::Type(Type::Int)),
        name: Box::new(Token::Ident("Add_Item".to_string())),
        arg_types: vec![Token::Type(Type::Int), Token::VoidDecl, Token::Type(Type::Int)],
        id: Box::new(Token::Constant(1)),
    };
    let version = Token::Version {
        name: Box::new(Token::Ident("v".to_string())),
        id: Box::new(Token::Constant(2)),
        procs: vec![proc_],
    };
    let program = Token::Program {
        name: Box::new(Token::Ident("Calc".to_string())),
        id: Box::new(Token::Constant(7)),
        versions: vec![version],
    };
    let ns = Token::Namespace { name: Box::new(Token::Ident("calc".to_string())), progs: vec![program] };
    let mut wr = CodeWriter::new();
    let skipped = compile_tokens(&mut wr, &vec![ns]);
    assert!(skipped.is_empty());
    let out = wr.output().clone();
    assert!(out.starts_with("pub mod calc {\n"));
    assert!(out.contains("  pub enum CalcRequestV2 {\n    AddItem(i32, i32),\n  }\n"));
    assert!(out.contains("  pub trait CalcService {\n    pub type Request = CalcRequest;\n"));
    assert!(out.contains("            CalcRequestV2::AddItem(arg0, arg2) => {\n              self.add_item_v2(arg0, arg2)\n            },\n"));
    assert!(out.ends_with("}\n"));
}

#[test]
fn malformed_definition_is_skipped_others_kept() {
    let bad = Token::StructDef {
        id: Box::new(Token::Constant(3)),
        decl: Box::new(Token::Struct(vec![])),
    };
    let good = Token::TypeDef(Box::new(Token::Decl {
        ty: Box::new(Token::Type(Type::Hyper)),
        id: Box::new(Token::Ident("big".to_string())),
    }));
    let constant = Token::ConstantDef(Box::new(Token::Constant(5)));
    let mut wr = CodeWriter::new();
    let skipped = compile_tokens(&mut wr, &vec![bad, good, constant, Token::Blank]);
    assert_eq!(skipped, vec![0, 2]);
    assert_eq!(wr.output().as_str(), "pub type Big = i64;\n");
}

#[test]
fn unsupported_typedef_is_refused() {
    let mut wr = CodeWriter::new();
    let def = Token::OpaqueDecl { id: Box::new(Token::Ident("blob".to_string())), size: Box::new(Token::Constant(4)) };
    assert!(!write_typedef(&def, &mut wr));
    assert_eq!(wr.output().as_str(), "");
}

#[test]
fn compile_fails_on_unparsed_source() {
    let mut wr = CodeWriter::new();
    assert_eq!(compile(&mut wr, "struct point { int x; ".to_string()), Err(()));
    assert_eq!(wr.output().as_str(), "");
}

#[test]
fn comments_and_passthrough_generate_nothing() {
    let (out, skipped) = generate("// a comment\n%#include <x.h>\n\nconst MAX = 0x10;\n");
    assert_eq!(out, HEADER);
    assert_eq!(skipped, vec![3]);
}

#[test]
fn service_trait_uses_mapped_program_name() {
    let version = Token::Version {
        name: Box::new(Token::Ident("v".to_string())),
        id: Box::new(Token::Constant(1)),
        procs: vec![Token::Proc {
            return_type: Box::new(Token::VoidDecl),
            name: Box::new(Token::Ident("ping".to_string())),
            arg_types: vec![Token::VoidDecl],
            id: Box::new(Token::Constant(1)),
        }],
    };
    let program = Token::Program {
        name: Box::new(Token::Ident("calc_prog".to_string())),
        id: Box::new(Token::Constant(7)),
        versions: vec![version],
    };
    let ns = Token::Namespace { name: Box::new(Token::Ident("calc".to_string())), progs: vec![program] };
    let mut wr = CodeWriter::new();
    compile_tokens(&mut wr, &vec![ns]);
    let out = wr.output().clone();
    assert!(out.contains("  pub trait CalcProgService {\n    pub type Request = CalcProgRequest;\n    pub type Response = CalcProgResponse;\n"));
    assert!(out.contains("  pub enum CalcProgRequest {\n"));
    assert!(out.contains("CalcProgRequestV1::Ping => {\n"));
    assert!(!out.contains("calc_prog"));
}

#[test]
fn unsupported_typedef_skipped_others_emitted() {
    let (out, skipped) = generate("typedef opaque buf[16];\ntypedef unsigned int foo;\n");
    assert_eq!(out, format!("{}pub type Foo = u32;\n", HEADER));
    assert_eq!(skipped, vec![0]);
}

//! Generation of Rust source from the syntax tree: type names, primitive
//! types, structs, enums, unions, type aliases, and the request, response
//! and dispatch items of RPC programs.
use vstd::prelude::*;
use vstd::string::StrSliceExecFns;
use vstd::utf8::encode_utf8;
use crate::code_writer::{
    CodeWriter, dec, digits, item_head, join, line, pad, push_digits, push_decimal, request_variant,
    arm_head, views, dispatch_head,
};
use crate::parser::{Token, Type, accepts, parse, split_whole, tokens_tree};

verus! {

/// What `char::to_uppercase` yields for `c`.
pub uninterp spec fn upper_of(c: char) -> Seq<char>;

/// What `char::to_lowercase` yields for `c`.
pub uninterp spec fn lower_of(c: char) -> Seq<char>;

/// What `str::to_lowercase` returns for `s`.
pub uninterp spec fn lower_text(s: Seq<char>) -> Seq<char>;

/// Whether `c` is an ASCII lowercase letter.
pub open spec fn ascii_lower(c: char) -> bool {
    'a' <= c <= 'z'
}

/// Whether `c` is an ASCII uppercase letter.
pub open spec fn ascii_upper(c: char) -> bool {
    'A' <= c <= 'Z'
}

/// Relies on `char::to_uppercase`, collected into a string. An ASCII
/// lowercase letter becomes its uppercase letter; any other ASCII character
/// stays as it is.
#[verifier::external_body]
fn upper_char(c: char) -> (r: String)
    ensures
        r@ == upper_of(c),
        ascii_lower(c) ==> r@.len() == 1 && r@[0] as u32 == c as u32 - 32,
        (c as u32) < 128 && !ascii_lower(c) ==> r@ == seq![c],
{
    c.to_uppercase().collect::<String>()
}

/// Relies on `char::to_lowercase`, collected into a string. An ASCII
/// uppercase letter becomes its lowercase letter; any other ASCII character
/// stays as it is.
#[verifier::external_body]
fn lower_char(c: char) -> (r: String)
    ensures
        r@ == lower_of(c),
        ascii_upper(c) ==> r@.len() == 1 && r@[0] as u32 == c as u32 + 32,
        (c as u32) < 128 && !ascii_upper(c) ==> r@ == seq![c],
{
    c.to_lowercase().collect::<String>()
}

/// Relies on `str::to_lowercase`; the empty string stays empty.
#[verifier::external_body]
fn lowercase(s: &str) -> (r: String)
    ensures
        r@ == lower_text(s@),
        s@.len() == 0 ==> r@.len() == 0,
{
    s.to_lowercase()
}

/// The state of the name mapping after one more character: the text so
/// far, whether an underscore came last, and whether nothing was written yet.
pub open spec fn camel_step(acc: (Seq<char>, bool, bool), c: char, last: bool) -> (Seq<char>, bool, bool) {
    let (out, under, first) = acc;
    if c == 't' && last && under {
        (out, under, first)
    } else if c == '_' {
        (out, true, first)
    } else if under || first {
        (out + upper_of(c), false, false)
    } else {
        (out + lower_of(c), under, first)
    }
}

/// The state of the name mapping after the first `k` characters of `s`.
pub open spec fn camel_state(s: Seq<char>, k: nat) -> (Seq<char>, bool, bool)
    decreases k,
{
    if k == 0 || k > s.len() {
        (Seq::empty(), false, true)
    } else {
        camel_step(camel_state(s, (k - 1) as nat), s[k - 1], k == s.len())
    }
}

/// The type name for `s`: underscores split it into words, each word starts
/// with an uppercase letter and goes on in lowercase, and a last word that
/// is a lone `t` after an underscore is dropped.
pub open spec fn camel(s: Seq<char>) -> Seq<char> {
    camel_state(s, s.len()).0
}

/// Maps a C-style name (`foo_bar_t`) to a Rust type name (`FooBar`).
pub fn rustify(underscores: &String) -> (r: String)
    ensures
        r@ == camel(underscores@),
{
    let s = underscores.as_str();
    let n = s.unicode_len();
    let mut collect = String::new();
    let mut under = false;
    let mut first = true;
    let mut i: usize = 0;
    while i < n
        invariant
            n == s@.len(),
            s@ == underscores@,
            i <= n,
            camel_state(s@, i as nat) == (collect@, under, first),
        decreases n - i,
    {
        let c = s.get_char(i);
        if c == 't' && i + 1 == n && under {
        } else if c == '_' {
            under = true;
        } else if under || first {
            let u = upper_char(c);
            collect.append(u.as_str());
            first = false;
            under = false;
        } else {
            let l = lower_char(c);
            collect.append(l.as_str());
        }
        i = i + 1;
    }
    collect
}

/// The Rust name of a primitive type; `quadruple` has none.
pub open spec fn prim_name(ty: Type) -> Seq<char> {
    match ty {
        Type::Uint => "u32"@,
        Type::Int => "i32"@,
        Type::Uhyper => "u64"@,
        Type::Hyper => "i64"@,
        Type::Float => "f32"@,
        Type::Double => "f64"@,
        Type::Bool => "bool"@,
        Type::Quadruple => "UNSUPORTED_TYPE"@,
    }
}

/// The text that a leaf token becomes: a primitive type's Rust name, a
/// name (mapped to a type name when `is_type`), or a number in decimal.
pub open spec fn converted(t: Token, is_type: bool) -> Seq<char> {
    match t {
        Token::Type(ty) => prim_name(ty),
        Token::Ident(s) => if is_type { camel(s@) } else { s@ },
        Token::Constant(v) => dec(v as int),
        _ => "UNSUPORTED_TYPE"@,
    }
}

fn prim_text(ty: Type) -> (r: String)
    ensures
        r@ == prim_name(ty),
{
    match ty {
        Type::Uint => String::from_str("u32"),
        Type::Int => String::from_str("i32"),
        Type::Uhyper => String::from_str("u64"),
        Type::Hyper => String::from_str("i64"),
        Type::Float => String::from_str("f32"),
        Type::Double => String::from_str("f64"),
        Type::Bool => String::from_str("bool"),
        Type::Quadruple => String::from_str("UNSUPORTED_TYPE"),
    }
}

/// The text of a leaf token; see `converted`.
pub fn convert_basic_token(ident: &Token, is_type: bool) -> (r: String)
    ensures
        r@ == converted(*ident, is_type),
{
    match ident {
        Token::Type(ty) => prim_text(*ty),
        Token::Ident(s) => {
            if is_type {
                rustify(s)
            } else {
                s.clone()
            }
        },
        Token::Constant(v) => {
            let mut t = String::new();
            push_decimal(&mut t, *v);
            assert(t@ =~= dec(*v as int));
            t
        },
        _ => String::from_str("UNSUPORTED_TYPE"),
    }
}

/// The line of one struct field: a plain declaration keeps its type, a
/// string becomes `String`; other forms have no line.
pub open spec fn field_text(level: nat, f: Token) -> Seq<char> {
    match f {
        Token::Decl { ty, id } => line(level, "pub "@ + converted(*id, false) + ": "@ + converted(*ty, true) + ","@),
        Token::StringDecl { id, .. } => line(level, "pub "@ + converted(*id, false) + ": "@ + "String"@ + ","@),
        _ => Seq::empty(),
    }
}

/// The lines of struct fields, in declaration order.
pub open spec fn fields_text(level: nat, fs: Seq<Token>) -> Seq<char>
    decreases fs.len(),
{
    if fs.len() == 0 {
        Seq::empty()
    } else {
        fields_text(level, fs.drop_last()) + field_text(level, fs.last())
    }
}

/// The text of a struct named `name` with the fields `fs`.
pub open spec fn struct_text(level: nat, name: Seq<char>, fs: Seq<Token>) -> Seq<char> {
    item_head(level, "pub struct "@, name) + fields_text(level + 1, fs) + line(level, "}"@)
}

/// Writes a struct definition. Nothing is written unless `ident` is a name.
pub fn write_struct(ident: &Token, fields: &Vec<Token>, wr: &mut CodeWriter) -> (r: bool)
    requires
        old(wr).depth() + 1 < usize::MAX,
    ensures
        r == ident is Ident,
        final(wr).depth() == old(wr).depth(),
        final(wr).text() == old(wr).text() + match *ident {
            Token::Ident(s) => struct_text(old(wr).depth(), camel(s@), fields@),
            _ => Seq::empty(),
        },
{
    let id = match ident {
        Token::Ident(id) => rustify(id),
        _ => {
            assert(wr.text() =~= wr.text() + Seq::<char>::empty());
            return false;
        },
    };
    let ghost t0 = wr.text();
    let ghost l = wr.depth();
    wr.pub_struct(id.as_str());
    let mut i: usize = 0;
    while i < fields.len()
        invariant
            i <= fields.len(),
            wr.depth() == l + 1,
            l + 1 < usize::MAX,
            wr.text() == t0 + item_head(l, "pub struct "@, id@) + fields_text(l + 1, fields@.take(i as int)),
        decreases fields.len() - i,
    {
        let ghost before = wr.text();
        match &fields[i] {
            Token::Decl { ty, id } => {
                let n = convert_basic_token(id, false);
                let t = convert_basic_token(ty, true);
                wr.pub_field_decl(n.as_str(), t.as_str());
            },
            Token::StringDecl { id, .. } => {
                let n = convert_basic_token(id, false);
                wr.pub_field_decl(n.as_str(), "String");
            },
            _ => {},
        }
        proof {
            assert(fields@.take(i + 1).drop_last() =~= fields@.take(i as int));
            assert(wr.text() =~= before + field_text(l + 1, fields@[i as int]));
        }
        i = i + 1;
    }
    wr.end_block();
    assert(fields@.take(fields.len() as int) =~= fields@);
    true
}

/// The line of one enum member: `NAME,` when it has no value, else the
/// member's type name and its value.
pub open spec fn member_text(level: nat, m: (Token, Token)) -> Seq<char> {
    match m.1 {
        Token::Blank => line(level, enum_line(converted(m.0, false), ""@)),
        _ => line(level, enum_line(converted(m.0, true), converted(m.1, false))),
    }
}

/// A member line as the writer forms it: `name,` or `name = val,`.
pub open spec fn enum_line(name: Seq<char>, val: Seq<char>) -> Seq<char> {
    if val.len() == 0 { name + ","@ } else { name + " = "@ + val + ","@ }
}

/// The member lines of an enum, in declaration order.
pub open spec fn members_text(level: nat, ms: Seq<(Token, Token)>) -> Seq<char>
    decreases ms.len(),
{
    if ms.len() == 0 {
        Seq::empty()
    } else {
        members_text(level, ms.drop_last()) + member_text(level, ms.last())
    }
}

/// The text of an enum named `name` with the members `ms`.
pub open spec fn enum_text(level: nat, name: Seq<char>, ms: Seq<(Token, Token)>) -> Seq<char> {
    item_head(level, "pub enum "@, name) + members_text(level + 1, ms) + line(level, "}"@)
}

/// Writes an enum definition. Nothing is written unless `ident` is a name.
pub fn write_enum(ident: &Token, fields: &Vec<(Token, Token)>, wr: &mut CodeWriter) -> (r: bool)
    requires
        old(wr).depth() + 1 < usize::MAX,
    ensures
        r == ident is Ident,
        final(wr).depth() == old(wr).depth(),
        final(wr).text() == old(wr).text() + match *ident {
            Token::Ident(s) => enum_text(old(wr).depth(), camel(s@), fields@),
            _ => Seq::empty(),
        },
{
    let id = match ident {
        Token::Ident(id) => rustify(id),
        _ => {
            assert(wr.text() =~= wr.text() + Seq::<char>::empty());
            return false;
        },
    };
    let ghost t0 = wr.text();
    let ghost l = wr.depth();
    wr.pub_enum(id.as_str());
    let mut i: usize = 0;
    while i < fields.len()
        invariant
            i <= fields.len(),
            wr.depth() == l + 1,
            l + 1 < usize::MAX,
            wr.text() == t0 + item_head(l, "pub enum "@, id@) + members_text(l + 1, fields@.take(i as int)),
        decreases fields.len() - i,
    {
        let ghost before = wr.text();
        let (field_id, field_val) = &fields[i];
        match field_val {
            Token::Blank => {
                let n = convert_basic_token(field_id, false);
                wr.enum_decl(n.as_str(), "");
            },
            _ => {
                let n = convert_basic_token(field_id, true);
                let v = convert_basic_token(field_val, false);
                wr.enum_decl(n.as_str(), v.as_str());
            },
        }
        proof {
            reveal_strlit("");
            assert(fields@.take(i + 1).drop_last() =~= fields@.take(i as int));
            assert(wr.text() =~= before + member_text(l + 1, fields@[i as int]));
        }
        i = i + 1;
    }
    wr.end_block();
    assert(fields@.take(fields.len() as int) =~= fields@);
    true
}

/// The text of a type alias: `pub type Name = T;` for a variable array, a
/// string or a plain declaration; other forms have none.
pub open spec fn typedef_text(level: nat, def: Token) -> Seq<char> {
    match def {
        Token::VarArrayDecl { ty, id, .. } => alias_text(level, converted(*id, true), "Vec<"@ + converted(*ty, true) + ">"@),
        Token::StringDecl { id, .. } => alias_text(level, converted(*id, true), "String"@),
        Token::Decl { ty, id } => alias_text(level, converted(*id, true), converted(*ty, true)),
        _ => Seq::empty(),
    }
}

/// An alias as the writer forms it, the aliased type written at the current indentation.
pub open spec fn alias_text(level: nat, name: Seq<char>, ty: Seq<char>) -> Seq<char> {
    pad(level) + ("pub type "@ + name + " = "@) + pad(level) + ty + ";\n"@
}

/// Whether a type alias can be generated for `def`.
pub open spec fn typedef_supported(def: Token) -> bool {
    def is VarArrayDecl || def is StringDecl || def is Decl
}

/// Writes a type alias for the declaration `def`.
pub fn write_typedef(def: &Token, wr: &mut CodeWriter) -> (r: bool)
    ensures
        r == typedef_supported(*def),
        final(wr).depth() == old(wr).depth(),
        final(wr).text() == old(wr).text() + typedef_text(old(wr).depth(), *def),
{
    let ghost t0 = wr.text();
    match def {
        Token::VarArrayDecl { ty, id, .. } => {
            let n = convert_basic_token(id, true);
            wr.alias(n.as_str());
            let t = convert_basic_token(ty, true);
            wr.var_vec(t.as_str());
            wr.end_alias();
        },
        Token::StringDecl { id, .. } => {
            let n = convert_basic_token(id, true);
            wr.alias(n.as_str());
            wr.write("String");
            wr.end_alias();
        },
        Token::Decl { ty, id } => {
            let n = convert_basic_token(id, true);
            wr.alias(n.as_str());
            let t = convert_basic_token(ty, true);
            wr.write(t.as_str());
            wr.end_alias();
        },
        _ => {
            assert(wr.text() =~= t0 + Seq::<char>::empty());
            return false;
        },
    }
    assert(wr.text() =~= t0 + typedef_text(wr.depth(), *def));
    true
}

/// The field line of a variant's payload: a plain declaration has one, any
/// other form (such as `void`) none.
pub open spec fn payload_text(level: nat, d: Token) -> Seq<char> {
    match d {
        Token::Decl { ty, id } => line(level, converted(*id, false) + ": "@ + converted(*ty, true) + ","@),
        _ => Seq::empty(),
    }
}

/// One variant for each label in `vals`, each carrying the payload `decl`.
pub open spec fn labels_text(level: nat, vals: Seq<Token>, decl: Token) -> Seq<char>
    decreases vals.len(),
{
    if vals.len() == 0 {
        Seq::empty()
    } else {
        labels_text(level, vals.drop_last(), decl) + line(level, converted(vals.last(), true) + " {"@)
            + payload_text(level + 1, decl) + line(level, "},"@)
    }
}

/// The variants of one union arm.
pub open spec fn arm_text(level: nat, arm: Token) -> Seq<char> {
    match arm {
        Token::UnionCase { vals, decl } => labels_text(level, vals@, *decl),
        _ => Seq::empty(),
    }
}

/// The variants of the union arms, in declaration order.
pub open spec fn arms_text(level: nat, cs: Seq<Token>) -> Seq<char>
    decreases cs.len(),
{
    if cs.len() == 0 {
        Seq::empty()
    } else {
        arms_text(level, cs.drop_last()) + arm_text(level, cs.last())
    }
}

/// The variant of the default arm, when there is one.
pub open spec fn default_text(level: nat, d: Option<Token>) -> Seq<char> {
    match d {
        None => Seq::empty(),
        Some(t) => line(level, "// "@ + "Default case for the XDR Union"@) + line(level, "UnionDefault_"@ + " {"@)
            + payload_text(level + 1, t) + line(level, "},"@),
    }
}

/// The text of a union named `name`.
pub open spec fn union_text(level: nat, name: Seq<char>, cs: Seq<Token>, d: Option<Token>) -> Seq<char> {
    item_head(level, "pub enum "@, name) + arms_text(level + 1, cs) + default_text(level + 1, d) + line(level, "}"@)
}

fn write_payload(decl: &Token, wr: &mut CodeWriter)
    ensures
        final(wr).depth() == old(wr).depth(),
        final(wr).text() == old(wr).text() + payload_text(old(wr).depth(), *decl),
{
    match decl {
        Token::Decl { ty, id } => {
            let n = convert_basic_token(id, false);
            let t = convert_basic_token(ty, true);
            wr.field_decl(n.as_str(), t.as_str());
        },
        _ => {
            assert(wr.text() =~= wr.text() + Seq::<char>::empty());
        },
    }
}

fn write_labels(vals: &Vec<Token>, decl: &Token, wr: &mut CodeWriter)
    requires
        old(wr).depth() + 1 < usize::MAX,
    ensures
        final(wr).depth() == old(wr).depth(),
        final(wr).text() == old(wr).text() + labels_text(old(wr).depth(), vals@, *decl),
{
    let ghost t0 = wr.text();
    let ghost l = wr.depth();
    let mut i: usize = 0;
    while i < vals.len()
        invariant
            i <= vals.len(),
            wr.depth() == l,
            l + 1 < usize::MAX,
            wr.text() == t0 + labels_text(l, vals@.take(i as int), *decl),
        decreases vals.len() - i,
    {
        let ghost before = wr.text();
        let n = convert_basic_token(&vals[i], true);
        wr.enum_struct_decl(n.as_str());
        write_payload(decl, wr);
        wr.end_enum_struct();
        proof {
            assert(vals@.take(i + 1).drop_last() =~= vals@.take(i as int));
            assert(wr.text() =~= t0 + labels_text(l, vals@.take(i + 1), *decl));
        }
        i = i + 1;
    }
    assert(vals@.take(vals.len() as int) =~= vals@);
}

/// Writes a union as an enum with one variant per case label, in order,
/// and a reserved variant for the default arm. Nothing is written unless
/// `ident` is a name.
#[verifier::rlimit(90)]
pub fn write_union(ident: &Token, cases: &Vec<Token>, default: &Option<Token>, wr: &mut CodeWriter) -> (r: bool)
    requires
        old(wr).depth() + 2 < usize::MAX,
    ensures
        r == ident is Ident,
        final(wr).depth() == old(wr).depth(),
        final(wr).text() == old(wr).text() + match *ident {
            Token::Ident(s) => union_text(old(wr).depth(), camel(s@), cases@, *default),
            _ => Seq::empty(),
        },
{
    let id = match ident {
        Token::Ident(id) => rustify(id),
        _ => {
            assert(wr.text() =~= wr.text() + Seq::<char>::empty());
            return false;
        },
    };
    let ghost t0 = wr.text();
    let ghost l = wr.depth();
    wr.pub_enum(id.as_str());
    let mut i: usize = 0;
    while i < cases.len()
        invariant
            i <= cases.len(),
            wr.depth() == l + 1,
            l + 2 < usize::MAX,
            wr.text() == t0 + item_head(l, "pub enum "@, id@) + arms_text(l + 1, cases@.take(i as int)),
        decreases cases.len() - i,
    {
        let ghost before = wr.text();
        match &cases[i] {
            Token::UnionCase { vals, decl } => {
                write_labels(vals, decl, wr);
            },
            _ => {},
        }
        proof {
            assert(cases@.take(i + 1).drop_last() =~= cases@.take(i as int));
            assert(wr.text() =~= before + arm_text(l + 1, cases@[i as int]));
        }
        i = i + 1;
    }
    assert(cases@.take(cases.len() as int) =~= cases@);
    let ghost before = wr.text();
    match default {
        Some(token) => {
            proof {
                reveal_strlit("Default case for the XDR Union");
            }
            wr.comment("Default case for the XDR Union");
            wr.enum_struct_decl("UnionDefault_");
            write_payload(token, wr);
            wr.end_enum_struct();
        },
        None => {},
    }
    assert(wr.text() =~= before + default_text(l + 1, *default));
    wr.end_block();
    true
}

/// The type names of a procedure's arguments, `void` left out.
pub open spec fn arg_type_names(args: Seq<Token>) -> Seq<Seq<char>>
    decreases args.len(),
{
    if args.len() == 0 {
        Seq::empty()
    } else if args.last() is VoidDecl {
        arg_type_names(args.drop_last())
    } else {
        arg_type_names(args.drop_last()).push(converted(args.last(), true))
    }
}

fn arg_type_strings(args: &Vec<Token>) -> (r: Vec<String>)
    ensures
        views(r@) == arg_type_names(args@),
{
    let mut out: Vec<String> = Vec::new();
    let mut i: usize = 0;
    while i < args.len()
        invariant
            i <= args.len(),
            views(out@) == arg_type_names(args@.take(i as int)),
        decreases args.len() - i,
    {
        let ghost before = out@;
        match &args[i] {
            Token::VoidDecl => {},
            a => {
                out.push(convert_basic_token(a, true));
            },
        }
        proof {
            assert(args@.take(i + 1).drop_last() =~= args@.take(i as int));
            assert(views(out@) =~= arg_type_names(args@.take(i + 1)));
        }
        i = i + 1;
    }
    assert(args@.take(args.len() as int) =~= args@);
    out
}

/// The request variant of a procedure.
pub open spec fn request_line(level: nat, p: Token) -> Seq<char> {
    match p {
        Token::Proc { name, arg_types, .. } => line(level, request_variant(converted(*name, true), arg_type_names(arg_types@))),
        _ => Seq::empty(),
    }
}

/// The request variants of procedures, in declaration order.
pub open spec fn requests_text(level: nat, ps: Seq<Token>) -> Seq<char>
    decreases ps.len(),
{
    if ps.len() == 0 {
        Seq::empty()
    } else {
        requests_text(level, ps.drop_last()) + request_line(level, ps.last())
    }
}

/// The response variant of a procedure: with its result type, or bare when it returns `void`.
pub open spec fn response_line(level: nat, p: Token) -> Seq<char> {
    match p {
        Token::Proc { return_type, name, .. } => line(
            level,
            match *return_type {
                Token::VoidDecl => converted(*name, true) + ","@,
                _ => converted(*name, true) + "("@ + converted(*return_type, true) + "),"@,
            },
        ),
        _ => Seq::empty(),
    }
}

/// The response variants of procedures, in declaration order.
pub open spec fn responses_text(level: nat, ps: Seq<Token>) -> Seq<char>
    decreases ps.len(),
{
    if ps.len() == 0 {
        Seq::empty()
    } else {
        responses_text(level, ps.drop_last()) + response_line(level, ps.last())
    }
}

/// The request and response enums of one version of a program.
pub open spec fn version_text(level: nat, prog: Seq<char>, ver: i64, ps: Seq<Token>) -> Seq<char> {
    item_head(level, "pub enum "@, prog + "RequestV"@ + dec(ver as int)) + requests_text(level + 1, ps) + line(level, "}"@)
        + item_head(level, "pub enum "@, prog + "ResponseV"@ + dec(ver as int)) + responses_text(level + 1, ps)
        + line(level, "}"@)
}

fn versioned_name(prog_name: &str, middle: &str, ver_num: i64) -> (r: String)
    ensures
        r@ == prog_name@ + middle@ + dec(ver_num as int),
{
    let mut t = String::from_str(prog_name);
    t.append(middle);
    push_decimal(&mut t, ver_num);
    t
}

/// Writes the request and response enums of one version of a program.
#[verifier::rlimit(90)]
pub fn write_version(prog_name: &str, ver_num: i64, procs: &Vec<Token>, wr: &mut CodeWriter) -> (r: bool)
    requires
        old(wr).depth() + 1 < usize::MAX,
    ensures
        r,
        final(wr).depth() == old(wr).depth(),
        final(wr).text() == old(wr).text() + version_text(old(wr).depth(), prog_name@, ver_num, procs@),
{
    let ghost t0 = wr.text();
    let ghost l = wr.depth();
    let req = versioned_name(prog_name, "RequestV", ver_num);
    wr.pub_enum(req.as_str());
    let mut i: usize = 0;
    while i < procs.len()
        invariant
            i <= procs.len(),
            wr.depth() == l + 1,
            l + 1 < usize::MAX,
            wr.text() == t0 + item_head(l, "pub enum "@, req@) + requests_text(l + 1, procs@.take(i as int)),
        decreases procs.len() - i,
    {
        let ghost before = wr.text();
        match &procs[i] {
            Token::Proc { name, arg_types, .. } => {
                let args = arg_type_strings(arg_types);
                let n = convert_basic_token(name, true);
                wr.version_proc_request(n.as_str(), &args);
            },
            _ => {},
        }
        proof {
            assert(procs@.take(i + 1).drop_last() =~= procs@.take(i as int));
            assert(wr.text() =~= before + request_line(l + 1, procs@[i as int]));
        }
        i = i + 1;
    }
    wr.end_block();
    let ghost t1 = wr.text();
    let resp = versioned_name(prog_name, "ResponseV", ver_num);
    wr.pub_enum(resp.as_str());
    let mut i: usize = 0;
    while i < procs.len()
        invariant
            i <= procs.len(),
            wr.depth() == l + 1,
            l + 1 < usize::MAX,
            wr.text() == t1 + item_head(l, "pub enum "@, resp@) + responses_text(l + 1, procs@.take(i as int)),
        decreases procs.len() - i,
    {
        let ghost before = wr.text();
        match &procs[i] {
            Token::Proc { return_type, name, .. } => {
                let ret = match &**return_type {
                    Token::VoidDecl => None,
                    rt => Some(convert_basic_token(rt, true)),
                };
                let n = convert_basic_token(name, true);
                wr.version_proc_response(n.as_str(), ret);
            },
            _ => {},
        }
        proof {
            assert(procs@.take(i + 1).drop_last() =~= procs@.take(i as int));
            assert(wr.text() =~= before + response_line(l + 1, procs@[i as int]));
        }
        i = i + 1;
    }
    wr.end_block();
    assert(procs@.take(procs.len() as int) =~= procs@);
    assert(wr.text() =~= t0 + version_text(l, prog_name@, ver_num, procs@));
    true
}

/// The variant of a version selector for `v`: `V{n}({prog_set}V{n}),`,
/// for a version with a numeric id.
pub open spec fn vset_line(level: nat, prog_set: Seq<char>, v: Token) -> Seq<char> {
    match v {
        Token::Version { id, .. } => match *id {
            Token::Constant(n) => line(level, "V"@ + dec(n as int) + "("@ + (prog_set + "V"@ + dec(n as int)) + "),"@),
            _ => Seq::empty(),
        },
        _ => Seq::empty(),
    }
}

/// The variants of a version selector, in declaration order.
pub open spec fn vset_text(level: nat, prog_set: Seq<char>, vs: Seq<Token>) -> Seq<char>
    decreases vs.len(),
{
    if vs.len() == 0 {
        Seq::empty()
    } else {
        vset_text(level, prog_set, vs.drop_last()) + vset_line(level, prog_set, vs.last())
    }
}

/// The enum that selects a version's request or response enum by version number.
pub open spec fn version_set_text(level: nat, prog: Seq<char>, set_type: Seq<char>, vs: Seq<Token>) -> Seq<char> {
    item_head(level, "pub enum "@, prog + set_type) + vset_text(level + 1, prog + set_type, vs) + line(level, "}"@)
}

/// Writes the enum that tags each version's `set_type` enum by its number.
pub fn write_version_set(prog_name: &str, versions: &Vec<Token>, set_type: &str, wr: &mut CodeWriter) -> (r: bool)
    requires
        old(wr).depth() + 1 < usize::MAX,
    ensures
        r,
        final(wr).depth() == old(wr).depth(),
        final(wr).text() == old(wr).text() + version_set_text(old(wr).depth(), prog_name@, set_type@, versions@),
{
    let ghost t0 = wr.text();
    let ghost l = wr.depth();
    let mut name = String::from_str(prog_name);
    name.append(set_type);
    wr.pub_enum(name.as_str());
    let mut i: usize = 0;
    while i < versions.len()
        invariant
            i <= versions.len(),
            wr.depth() == l + 1,
            l + 1 < usize::MAX,
            name@ == prog_name@ + set_type@,
            wr.text() == t0 + item_head(l, "pub enum "@, name@) + vset_text(l + 1, name@, versions@.take(i as int)),
        decreases versions.len() - i,
    {
        let ghost before = wr.text();
        match &versions[i] {
            Token::Version { id, .. } => {
                match &**id {
                    Token::Constant(n) => {
                        let tag = versioned_name("", "V", *n);
                        let inner = versioned_name(name.as_str(), "V", *n);
                        proof {
                            reveal_strlit("");
                            assert(tag@ =~= "V"@ + dec(*n as int));
                        }
                        wr.enum_tuple_decl(tag.as_str(), inner.as_str());
                    },
                    _ => {},
                }
            },
            _ => {},
        }
        proof {
            assert(versions@.take(i + 1).drop_last() =~= versions@.take(i as int));
            assert(wr.text() =~= before + vset_line(l + 1, name@, versions@[i as int]));
        }
        i = i + 1;
    }
    wr.end_block();
    assert(versions@.take(versions.len() as int) =~= versions@);
    true
}

/// The request and response enums of each version with a numeric id, in order.
pub open spec fn versions_text(level: nat, prog: Seq<char>, vs: Seq<Token>) -> Seq<char>
    decreases vs.len(),
{
    if vs.len() == 0 {
        Seq::empty()
    } else {
        versions_text(level, prog, vs.drop_last()) + match vs.last() {
            Token::Version { id, procs, .. } => match *id {
                Token::Constant(n) => version_text(level, prog, n, procs@),
                _ => Seq::empty(),
            },
            _ => Seq::empty(),
        }
    }
}

/// The text of a program: its two version selectors, then each version's enums.
pub open spec fn program_text(level: nat, name: Seq<char>, vs: Seq<Token>) -> Seq<char> {
    version_set_text(level, camel(name), "Request"@, vs) + version_set_text(level, camel(name), "Response"@, vs)
        + versions_text(level, camel(name), vs)
}

/// Writes the version selectors and the per-version enums of a program.
#[verifier::rlimit(90)]
pub fn write_program(prog_name: &String, versions: &Vec<Token>, wr: &mut CodeWriter) -> (r: bool)
    requires
        old(wr).depth() + 1 < usize::MAX,
    ensures
        r,
        final(wr).depth() == old(wr).depth(),
        final(wr).text() == old(wr).text() + program_text(old(wr).depth(), prog_name@, versions@),
{
    let ghost t0 = wr.text();
    let ghost l = wr.depth();
    let rust_prog_name = rustify(prog_name);
    write_version_set(rust_prog_name.as_str(), versions, "Request", wr);
    write_version_set(rust_prog_name.as_str(), versions, "Response", wr);
    let ghost t1 = wr.text();
    let mut i: usize = 0;
    while i < versions.len()
        invariant
            i <= versions.len(),
            wr.depth() == l,
            l + 1 < usize::MAX,
            wr.text() == t1 + versions_text(l, rust_prog_name@, versions@.take(i as int)),
        decreases versions.len() - i,
    {
        let ghost before = wr.text();
        match &versions[i] {
            Token::Version { id, procs, .. } => {
                match &**id {
                    Token::Constant(n) => {
                        write_version(rust_prog_name.as_str(), *n, procs, wr);
                    },
                    _ => {},
                }
            },
            _ => {},
        }
        proof {
            let vs = versions@.take(i + 1);
            assert(vs.drop_last() =~= versions@.take(i as int));
            assert(vs.last() == versions@[i as int]);
            assert(wr.text() =~= t1 + versions_text(l, rust_prog_name@, vs));
        }
        i = i + 1;
    }
    assert(versions@.take(versions.len() as int) =~= versions@);
    assert(wr.text() =~= t0 + program_text(l, prog_name@, versions@));
    true
}

/// The names bound to a procedure's arguments in a dispatch arm: `arg{x}`
/// for each position `x` below `k` whose argument is not `void`.
pub open spec fn arg_vars(args: Seq<Token>, k: nat) -> Seq<Seq<char>>
    decreases k,
{
    if k == 0 || k > args.len() {
        Seq::empty()
    } else if args[k - 1] is VoidDecl {
        arg_vars(args, (k - 1) as nat)
    } else {
        arg_vars(args, (k - 1) as nat).push("arg"@ + digits((k - 1) as nat))
    }
}

fn arg_var_names(args: &Vec<Token>) -> (r: Vec<String>)
    ensures
        views(r@) == arg_vars(args@, args@.len()),
{
    let mut out: Vec<String> = Vec::new();
    let mut x: usize = 0;
    while x < args.len()
        invariant
            x <= args.len(),
            views(out@) == arg_vars(args@, x as nat),
        decreases args.len() - x,
    {
        match &args[x] {
            Token::VoidDecl => {},
            _ => {
                let mut t = String::from_str("arg");
                push_digits(&mut t, x as u64);
                out.push(t);
            },
        }
        assert(views(out@) =~= arg_vars(args@, (x + 1) as nat));
        x = x + 1;
    }
    out
}

/// The dispatch arm of one procedure: it matches the request variant and
/// calls `{procedure}_v{version}` with the arguments.
pub open spec fn svc_proc_body(level: nat, prog: Seq<char>, ver: i64, name: Token, args: Seq<Token>) -> Seq<char> {
    let vars = arg_vars(args, args.len());
    line(level, arm_head(camel(prog) + "RequestV"@ + dec(ver as int) + "::"@ + converted(name, true), vars))
        + pad(level + 1) + ("self."@ + lower_text(converted(name, false)) + "_v"@ + dec(ver as int) + "("@)
        + join(vars, ", "@) + ")\n"@ + line(level, "},"@)
}

/// The dispatch arm of a procedure token.
pub open spec fn svc_proc(level: nat, prog: Seq<char>, ver: i64, p: Token) -> Seq<char> {
    match p {
        Token::Proc { name, arg_types, .. } => svc_proc_body(level, prog, ver, *name, arg_types@),
        _ => Seq::empty(),
    }
}

/// The dispatch arms of procedures, in declaration order.
pub open spec fn svc_procs(level: nat, prog: Seq<char>, ver: i64, ps: Seq<Token>) -> Seq<char>
    decreases ps.len(),
{
    if ps.len() == 0 {
        Seq::empty()
    } else {
        svc_procs(level, prog, ver, ps.drop_last()) + svc_proc(level, prog, ver, ps.last())
    }
}

/// Writes the dispatch arm of one procedure.
pub fn write_service_proc(prog_name: &String, ver_num: i64, proc_name: &Token, arg_types: &Vec<Token>, wr: &mut CodeWriter)
    requires
        old(wr).depth() + 1 < usize::MAX,
    ensures
        final(wr).depth() == old(wr).depth(),
        final(wr).text() == old(wr).text() + svc_proc_body(old(wr).depth(), prog_name@, ver_num, *proc_name, arg_types@),
{
    let ghost t0 = wr.text();
    let ghost l = wr.depth();
    let arg_names = arg_var_names(arg_types);
    let mut pat = rustify(prog_name);
    pat.append("RequestV");
    push_decimal(&mut pat, ver_num);
    pat.append("::");
    let n = convert_basic_token(proc_name, true);
    pat.append(n.as_str());
    wr.match_option(pat.as_str(), &arg_names);
    let plain = convert_basic_token(proc_name, false);
    let mut call = String::from_str("self.");
    let low = lowercase(plain.as_str());
    call.append(low.as_str());
    call.append("_v");
    push_decimal(&mut call, ver_num);
    call.append("(");
    wr.write(call.as_str());
    wr.comma_fields(&arg_names);
    wr.raw_write(")\n");
    wr.end_match_option();
}

/// The arm of one version in the dispatch match: it matches `V{n}(data)`
/// and dispatches on the procedure.
pub open spec fn svc_version_body(level: nat, prog: Seq<char>, n: i64, procs: Seq<Token>) -> Seq<char> {
    line(level, arm_head("V"@ + dec(n as int), seq!["data"@])) + line(level + 1, "match "@ + "data"@ + " {"@)
        + svc_procs(level + 2, prog, n, procs) + line(level + 1, "}"@) + line(level, "},"@)
}

/// The dispatch arm of a version token with a numeric id.
pub open spec fn svc_version(level: nat, prog: Seq<char>, v: Token) -> Seq<char> {
    match v {
        Token::Version { id, procs, .. } => match *id {
            Token::Constant(n) => svc_version_body(level, prog, n, procs@),
            _ => Seq::empty(),
        },
        _ => Seq::empty(),
    }
}

/// The version arms of the dispatch match, in declaration order.
pub open spec fn svc_versions(level: nat, prog: Seq<char>, vs: Seq<Token>) -> Seq<char>
    decreases vs.len(),
{
    if vs.len() == 0 {
        Seq::empty()
    } else {
        svc_versions(level, prog, vs.drop_last()) + svc_version(level, prog, vs.last())
    }
}

/// Writes the dispatch arm of one version, whose number is `ver_num`.
#[verifier::rlimit(90)]
pub fn write_service_version(prog_name: &String, ver_num: i64, procs: &Vec<Token>, wr: &mut CodeWriter)
    requires
        old(wr).depth() + 3 < usize::MAX,
    ensures
        final(wr).depth() == old(wr).depth(),
        final(wr).text() == old(wr).text() + svc_version_body(old(wr).depth(), prog_name@, ver_num, procs@),
{
    let ghost t0 = wr.text();
    let ghost l = wr.depth();
    let mut version_fields: Vec<String> = Vec::new();
    version_fields.push(String::from_str("data"));
    let tag = versioned_name("", "V", ver_num);
    proof {
        reveal_strlit("");
        assert(tag@ =~= "V"@ + dec(ver_num as int));
        assert(views(version_fields@) =~= seq!["data"@]);
    }
    wr.match_option(tag.as_str(), &version_fields);
    wr.match_block("data");
    let ghost t1 = wr.text();
    let mut i: usize = 0;
    while i < procs.len()
        invariant
            i <= procs.len(),
            wr.depth() == l + 2,
            l + 3 < usize::MAX,
            wr.text() == t1 + svc_procs(l + 2, prog_name@, ver_num, procs@.take(i as int)),
        decreases procs.len() - i,
    {
        let ghost before = wr.text();
        match &procs[i] {
            Token::Proc { name, arg_types, .. } => {
                write_service_proc(prog_name, ver_num, name, arg_types, wr);
            },
            _ => {},
        }
        proof {
            assert(procs@.take(i + 1).drop_last() =~= procs@.take(i as int));
            assert(wr.text() =~= before + svc_proc(l + 2, prog_name@, ver_num, procs@[i as int]));
        }
        i = i + 1;
    }
    let ghost t2 = wr.text();
    wr.end_block();
    wr.end_match_option();
    assert(procs@.take(procs.len() as int) =~= procs@);
    assert(wr.text() =~= t2 + line(l + 1, "}"@) + line(l, "},"@));
}

/// A type alias inside the service trait: `pub type name = ty;`.
pub open spec fn alias_line(level: nat, name: Seq<char>, ty: Seq<char>) -> Seq<char> {
    pad(level) + ("pub type "@ + name + " = "@) + ty + ";\n"@
}

/// The opening of the dispatch trait of a program, up to its match on the version.
pub open spec fn service_head(level: nat, prog: Seq<char>) -> Seq<char> {
    line(level, "pub trait "@ + (prog + "Service"@) + " {"@)
        + alias_line(level + 1, "Request"@, prog + "Request"@)
        + alias_line(level + 1, "Response"@, prog + "Response"@)
        + alias_line(level + 1, "Error"@, "io::Error"@)
        + alias_line(level + 1, "Future"@, "BoxFuture<Self::Response, Self::Error>"@)
        + line(level + 1, dispatch_head()) + line(level + 2, "match "@ + "req"@ + " {"@)
}

/// The dispatch trait of a program, named after the mapped program name:
/// its associated types and a dispatch operation that matches on the
/// version, then on the procedure.
pub open spec fn service_text(level: nat, prog: Seq<char>, vs: Seq<Token>) -> Seq<char> {
    service_head(level, camel(prog)) + svc_versions(level + 3, prog, vs) + line(level + 2, "}"@) + line(level + 1, "}"@)
        + line(level, "}"@)
}

fn write_alias(name: &str, ty: &str, wr: &mut CodeWriter)
    ensures
        final(wr).depth() == old(wr).depth(),
        final(wr).text() == old(wr).text() + alias_line(old(wr).depth(), name@, ty@),
{
    wr.alias(name);
    wr.raw_write(ty);
    wr.end_alias();
}

fn write_service_head(prog_name: &String, wr: &mut CodeWriter)
    requires
        old(wr).depth() + 7 < usize::MAX,
    ensures
        final(wr).depth() == old(wr).depth() + 3,
        final(wr).text() == old(wr).text() + service_head(old(wr).depth(), prog_name@),
{
    let ghost t0 = wr.text();
    let ghost l = wr.depth();
    let mut name = prog_name.clone();
    name.append("Service");
    wr.program_version_service(name.as_str());
    let mut req = prog_name.clone();
    req.append("Request");
    write_alias("Request", req.as_str(), wr);
    let mut resp = prog_name.clone();
    resp.append("Response");
    write_alias("Response", resp.as_str(), wr);
    write_alias("Error", "io::Error", wr);
    write_alias("Future", "BoxFuture<Self::Response, Self::Error>", wr);
    wr.dispatch_function();
    wr.match_block("req");
    assert(wr.text() =~= t0 + service_head(l, prog_name@));
}

/// Writes the dispatch trait of a program.
#[verifier::rlimit(90)]
pub fn write_service(prog_name: &String, versions: &Vec<Token>, wr: &mut CodeWriter) -> (r: bool)
    requires
        old(wr).depth() + 7 < usize::MAX,
    ensures
        r,
        final(wr).depth() == old(wr).depth(),
        final(wr).text() == old(wr).text() + service_text(old(wr).depth(), prog_name@, versions@),
{
    let ghost t0 = wr.text();
    let ghost l = wr.depth();
    let mapped = rustify(prog_name);
    write_service_head(&mapped, wr);
    let ghost t1 = wr.text();
    let mut i: usize = 0;
    while i < versions.len()
        invariant
            i <= versions.len(),
            wr.depth() == l + 3,
            l + 7 < usize::MAX,
            wr.text() == t1 + svc_versions(l + 3, prog_name@, versions@.take(i as int)),
        decreases versions.len() - i,
    {
        let ghost before = wr.text();
        match &versions[i] {
            Token::Version { id, procs, .. } => {
                match &**id {
                    Token::Constant(n) => {
                        write_service_version(prog_name, *n, procs, wr);
                    },
                    _ => {},
                }
            },
            _ => {},
        }
        proof {
            assert(versions@.take(i + 1).drop_last() =~= versions@.take(i as int));
            assert(wr.text() =~= before + svc_version(l + 3, prog_name@, versions@[i as int]));
        }
        i = i + 1;
    }
    let ghost t2 = wr.text();
    wr.end_block();
    wr.end_block();
    wr.end_block();
    assert(versions@.take(versions.len() as int) =~= versions@);
    assert(wr.text() =~= t2 + line(l + 2, "}"@) + line(l + 1, "}"@) + line(l, "}"@));
    assert(wr.text() =~= t0 + service_text(l, prog_name@, versions@));
    true
}

/// The items of one program inside a namespace: its enums and its dispatch trait.
pub open spec fn ns_prog(level: nat, p: Token) -> Seq<char> {
    match p {
        Token::Program { name, versions, .. } => match *name {
            Token::Ident(s) => program_text(level, s@, versions@) + service_text(level, s@, versions@),
            _ => Seq::empty(),
        },
        _ => Seq::empty(),
    }
}

/// The items of the programs of a namespace, in order.
pub open spec fn ns_progs(level: nat, ps: Seq<Token>) -> Seq<char>
    decreases ps.len(),
{
    if ps.len() == 0 {
        Seq::empty()
    } else {
        ns_progs(level, ps.drop_last()) + ns_prog(level, ps.last())
    }
}

/// The module of a namespace, holding the items of its programs.
pub open spec fn namespace_text(level: nat, name: Seq<char>, ps: Seq<Token>) -> Seq<char> {
    line(level, "pub mod "@ + name + " {"@) + ns_progs(level + 1, ps) + line(level, "}"@)
}

#[verifier::rlimit(90)]
fn write_ns_prog(prog: &Token, wr: &mut CodeWriter)
    requires
        old(wr).depth() + 7 < usize::MAX,
    ensures
        final(wr).depth() == old(wr).depth(),
        final(wr).text() == old(wr).text() + ns_prog(old(wr).depth(), *prog),
{
    let ghost t0 = wr.text();
    match prog {
        Token::Program { name: pname, versions, .. } => {
            match &**pname {
                Token::Ident(name_str) => {
                    write_program(name_str, versions, wr);
                    write_service(name_str, versions, wr);
                },
                _ => {},
            }
        },
        _ => {},
    }
    assert(wr.text() =~= t0 + ns_prog(wr.depth(), *prog));
}

/// Writes a namespace as a module that holds its programs' items.
#[verifier::rlimit(90)]
pub fn write_namespace(name: &String, progs: &Vec<Token>, wr: &mut CodeWriter) -> (r: bool)
    requires
        old(wr).depth() + 8 < usize::MAX,
    ensures
        r,
        final(wr).depth() == old(wr).depth(),
        final(wr).text() == old(wr).text() + namespace_text(old(wr).depth(), name@, progs@),
{
    let ghost t0 = wr.text();
    let ghost l = wr.depth();
    wr.namespace(name.as_str());
    let mut i: usize = 0;
    while i < progs.len()
        invariant
            i <= progs.len(),
            wr.depth() == l + 1,
            l + 8 < usize::MAX,
            wr.text() == t0 + line(l, "pub mod "@ + name@ + " {"@) + ns_progs(l + 1, progs@.take(i as int)),
        decreases progs.len() - i,
    {
        let ghost before = wr.text();
        write_ns_prog(&progs[i], wr);
        proof {
            assert(progs@.take(i + 1).drop_last() =~= progs@.take(i as int));
            assert(wr.text() =~= before + ns_prog(l + 1, progs@[i as int]));
        }
        i = i + 1;
    }
    wr.end_block();
    assert(progs@.take(progs.len() as int) =~= progs@);
    true
}

/// The text generated for one top-level token; tokens that generate
/// nothing, well-formed or not, give the empty text.
pub open spec fn token_text(level: nat, t: Token) -> Seq<char> {
    match t {
        Token::UnionDef { id, decl } => match *id {
            Token::Ident(s) => match *decl {
                Token::Union { cases, default, .. } => union_text(level, camel(s@), cases@, *default),
                _ => Seq::empty(),
            },
            _ => Seq::empty(),
        },
        Token::StructDef { id, decl } => match *id {
            Token::Ident(s) => match *decl {
                Token::Struct(fields) => struct_text(level, camel(s@), fields@),
                _ => Seq::empty(),
            },
            _ => Seq::empty(),
        },
        Token::EnumDef { id, decl } => match *id {
            Token::Ident(s) => match *decl {
                Token::Enum(fields) => enum_text(level, camel(s@), fields@),
                _ => Seq::empty(),
            },
            _ => Seq::empty(),
        },
        Token::TypeDef(def) => typedef_text(level, *def),
        Token::Program { name, versions, .. } => match *name {
            Token::Ident(s) => program_text(level, s@, versions@),
            _ => Seq::empty(),
        },
        Token::Namespace { name, progs } => match *name {
            Token::Ident(s) => namespace_text(level, s@, progs@),
            _ => Seq::empty(),
        },
        _ => Seq::empty(),
    }
}

/// Whether generation skips the top-level token `t` as unsupported or
/// malformed. Blank lines, comments and passthrough lines are dropped by
/// design and are not skipped.
pub open spec fn skipped(t: Token) -> bool {
    match t {
        Token::Blank | Token::Comment(_) | Token::CodeSnippet(_) => false,
        Token::UnionDef { id, decl } => !((*id) is Ident && (*decl) is Union),
        Token::StructDef { id, decl } => !((*id) is Ident && (*decl) is Struct),
        Token::EnumDef { id, decl } => !((*id) is Ident && (*decl) is Enum),
        Token::TypeDef(def) => !typedef_supported(*def),
        Token::Program { name, .. } => !((*name) is Ident),
        Token::Namespace { name, .. } => !((*name) is Ident),
        _ => true,
    }
}

/// The text generated for top-level tokens, in source order.
pub open spec fn tokens_text(level: nat, ts: Seq<Token>) -> Seq<char>
    decreases ts.len(),
{
    if ts.len() == 0 {
        Seq::empty()
    } else {
        tokens_text(level, ts.drop_last()) + token_text(level, ts.last())
    }
}

/// The positions of the skipped tokens among the first `k` of `ts`, in order.
pub open spec fn skipped_indices(ts: Seq<Token>, k: nat) -> Seq<usize>
    decreases k,
{
    if k == 0 || k > ts.len() {
        Seq::empty()
    } else if skipped(ts[k - 1]) {
        skipped_indices(ts, (k - 1) as nat).push((k - 1) as usize)
    } else {
        skipped_indices(ts, (k - 1) as nat)
    }
}

#[verifier::rlimit(90)]
fn write_token(token: &Token, wr: &mut CodeWriter) -> (skip: bool)
    requires
        old(wr).depth() + 8 < usize::MAX,
    ensures
        skip == skipped(*token),
        final(wr).depth() == old(wr).depth(),
        final(wr).text() == old(wr).text() + token_text(old(wr).depth(), *token),
{
    let ghost t0 = wr.text();
    let skip = match token {
        Token::Blank | Token::Comment(_) | Token::CodeSnippet(_) => false,
        Token::UnionDef { id, decl } => match &**decl {
            Token::Union { cases, default, .. } => !write_union(id, cases, default, wr),
            _ => true,
        },
        Token::StructDef { id, decl } => match &**decl {
            Token::Struct(fields) => !write_struct(id, fields, wr),
            _ => true,
        },
        Token::EnumDef { id, decl } => match &**decl {
            Token::Enum(fields) => !write_enum(id, fields, wr),
            _ => true,
        },
        Token::TypeDef(def) => !write_typedef(def, wr),
        Token::Program { name, versions, .. } => match &**name {
            Token::Ident(name_str) => !write_program(name_str, versions, wr),
            _ => true,
        },
        Token::Namespace { name, progs } => match &**name {
            Token::Ident(s) => !write_namespace(s, progs, wr),
            _ => true,
        },
        _ => true,
    };
    assert(wr.text() =~= t0 + token_text(wr.depth(), *token));
    skip
}

/// Generates code for top-level tokens in order. A token of an unsupported
/// or malformed shape generates nothing and does not stop the others; the
/// result lists the positions of those tokens.
#[verifier::rlimit(90)]
pub fn compile_tokens(wr: &mut CodeWriter, tokens: &Vec<Token>) -> (skipped: Vec<usize>)
    requires
        old(wr).depth() + 8 < usize::MAX,
    ensures
        final(wr).depth() == old(wr).depth(),
        final(wr).text() == old(wr).text() + tokens_text(old(wr).depth(), tokens@),
        skipped@ == skipped_indices(tokens@, tokens@.len()),
{
    let ghost t0 = wr.text();
    let ghost l = wr.depth();
    let mut out: Vec<usize> = Vec::new();
    let mut i: usize = 0;
    while i < tokens.len()
        invariant
            i <= tokens.len(),
            wr.depth() == l,
            l + 8 < usize::MAX,
            wr.text() == t0 + tokens_text(l, tokens@.take(i as int)),
            out@ == skipped_indices(tokens@, i as nat),
        decreases tokens.len() - i,
    {
        let ghost before = wr.text();
        let skip = write_token(&tokens[i], wr);
        if skip {
            out.push(i);
        }
        proof {
            let ts = tokens@.take(i + 1);
            assert(ts.drop_last() =~= tokens@.take(i as int));
            assert(ts.last() == tokens@[i as int]);
            assert(tokens_text(l, ts) == tokens_text(l, ts.drop_last()) + token_text(l, ts.last()));
            assert(wr.text() =~= t0 + tokens_text(l, ts));
        }
        i = i + 1;
    }
    assert(tokens@.take(tokens.len() as int) =~= tokens@);
    out
}

/// The header that opens every generated file.
pub open spec fn header_text(level: nat) -> Seq<char> {
    line(level, "// autogenerated by xdrust"@) + line(level, "#[allow(dead_code)]"@) + line(level, ""@)
}

/// Parses `source` and generates code for it. When the grammar does not
/// read the source whole, nothing is written and the result is an error. Otherwise the
/// header and the code of each supported definition are written in source
/// order, and the result lists the positions of the skipped definitions.
#[verifier::rlimit(90)]
pub fn compile(wr: &mut CodeWriter, source: String) -> (r: Result<Vec<usize>, ()>)
    requires
        old(wr).depth() + 8 < usize::MAX,
    ensures
        final(wr).depth() == old(wr).depth(),
        r is Ok <==> accepts(encode_utf8(source@)),
        r is Err ==> final(wr).text() == old(wr).text(),
        r matches Ok(sk) ==> exists|ts: Seq<Token>| {
            &&& split_whole(encode_utf8(source@), ts)
            &&& tokens_tree(encode_utf8(source@), 0, ts)
            &&& final(wr).text() == old(wr).text() + header_text(old(wr).depth()) + tokens_text(old(wr).depth(), ts)
            &&& sk@ == skipped_indices(ts, ts.len())
            &&& forall|i: int| 0 <= i < ts.len() ==> tokens_text(old(wr).depth(), ts) == tokens_text(old(wr).depth(), ts.take(i))
                + token_text(old(wr).depth(), #[trigger] ts[i]) + tokens_text(old(wr).depth(), ts.skip(i + 1))
        },
{
    let bytes = source.as_str().as_bytes();
    let tokens = match parse(bytes, false) {
        Some(ts) => ts,
        None => return Err(()),
    };
    wr.write_header();
    let sk = compile_tokens(wr, &tokens);
    proof {
        lemma_partial_failure_all(old(wr).depth(), tokens@);
    }
    assert(wr.text() =~= old(wr).text() + header_text(old(wr).depth()) + tokens_text(old(wr).depth(), tokens@));
    Ok(sk)
}

proof fn lemma_fields_text_concat(level: nat, a: Seq<Token>, b: Seq<Token>)
    ensures
        fields_text(level, a + b) == fields_text(level, a) + fields_text(level, b),
    decreases b.len(),
{
    if b.len() == 0 {
        assert(a + b =~= a);
        assert(fields_text(level, b) =~= Seq::<char>::empty());
        assert(fields_text(level, a) + Seq::<char>::empty() =~= fields_text(level, a));
    } else {
        lemma_fields_text_concat(level, a, b.drop_last());
        assert((a + b).drop_last() =~= a + b.drop_last());
        assert((a + b).last() == b.last());
        assert(fields_text(level, a + b) =~= fields_text(level, a) + fields_text(level, b));
    }
}

/// The fields of a generated struct come in declaration order: the text of
/// the fields is the text of those before field `i`, then the line of field
/// `i`, then the text of those after it.
pub proof fn lemma_struct_field_order(level: nat, fs: Seq<Token>, i: int)
    requires
        0 <= i < fs.len(),
    ensures
        fields_text(level, fs) == fields_text(level, fs.take(i)) + field_text(level, fs[i]) + fields_text(level, fs.skip(i + 1)),
{
    let pre = fs.take(i);
    let mid = seq![fs[i]];
    let post = fs.skip(i + 1);
    assert(fs =~= (pre + mid) + post);
    lemma_fields_text_concat(level, pre + mid, post);
    lemma_fields_text_concat(level, pre, mid);
    assert(mid.drop_last() =~= Seq::<Token>::empty());
    assert(fields_text(level, mid.drop_last()) == Seq::<char>::empty());
    assert(mid.last() == fs[i]);
    assert(fields_text(level, mid) =~= field_text(level, fs[i]));
}

#[verifier::rlimit(80)]
proof fn lemma_tokens_text_concat(level: nat, a: Seq<Token>, b: Seq<Token>)
    ensures
        tokens_text(level, a + b) == tokens_text(level, a) + tokens_text(level, b),
    decreases b.len(),
{
    if b.len() == 0 {
        assert(a + b =~= a);
        assert(tokens_text(level, a) + Seq::<char>::empty() =~= tokens_text(level, a));
    } else {
        lemma_tokens_text_concat(level, a, b.drop_last());
        assert((a + b).drop_last() =~= a + b.drop_last());
        assert((a + b).last() == b.last());
        assert(tokens_text(level, a + b) =~= tokens_text(level, a) + tokens_text(level, b));
    }
}

/// A skipped definition does not stop the others: the generated text is
/// the text of the tokens before token `i`, then that of token `i` (empty
/// when it is skipped), then that of the tokens after it.
pub proof fn lemma_partial_failure(level: nat, ts: Seq<Token>, i: int)
    requires
        0 <= i < ts.len(),
    ensures
        tokens_text(level, ts) == tokens_text(level, ts.take(i)) + token_text(level, ts[i]) + tokens_text(level, ts.skip(i + 1)),
        skipped(ts[i]) ==> token_text(level, ts[i]) == Seq::<char>::empty(),
{
    let pre = ts.take(i);
    let mid = seq![ts[i]];
    let post = ts.skip(i + 1);
    assert(ts =~= (pre + mid) + post);
    lemma_tokens_text_concat(level, pre + mid, post);
    lemma_tokens_text_concat(level, pre, mid);
    assert(mid.drop_last() =~= Seq::<Token>::empty());
    assert(tokens_text(level, mid.drop_last()) == Seq::<char>::empty());
    assert(mid.last() == ts[i]);
    assert(tokens_text(level, mid) =~= token_text(level, ts[i]));
    lemma_skipped_is_empty(level, ts[i]);
}

/// The split of `lemma_partial_failure`, at every position of `ts`.
pub proof fn lemma_partial_failure_all(level: nat, ts: Seq<Token>)
    ensures
        forall|i: int| 0 <= i < ts.len() ==> tokens_text(level, ts) == tokens_text(level, ts.take(i))
            + token_text(level, #[trigger] ts[i]) + tokens_text(level, ts.skip(i + 1)),
{
    assert forall|i: int| 0 <= i < ts.len() implies tokens_text(level, ts) == tokens_text(level, ts.take(i))
        + token_text(level, #[trigger] ts[i]) + tokens_text(level, ts.skip(i + 1)) by {
        lemma_partial_failure(level, ts, i);
    }
}

/// A skipped token generates no text.
#[verifier::rlimit(90)]
pub proof fn lemma_skipped_is_empty(level: nat, t: Token)
    ensures
        skipped(t) ==> token_text(level, t) == Seq::<char>::empty(),
{
}

} // verus!

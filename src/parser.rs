//! The grammar of XDR interface descriptions (RFC 4506 with ONC RPC program
//! definitions), parsed from bytes into a tree of tokens.
use vstd::prelude::*;
use vstd::string::StringSliceAdditionalSpecFns;
use vstd::utf8::{decode_utf8, valid_utf8};
use crate::code_writer::push_char;

verus! {

/// The primitive types of the language.
#[derive(Debug, Clone, Copy, PartialEq, Eq, Structural)]
pub enum Type {
    Bool,
    Int,
    Uint,
    Hyper,
    Uhyper,
    Float,
    Double,
    Quadruple,
}

/// A node of the syntax tree. Each node owns its children.
#[allow(inconsistent_fields)]
#[derive(Debug, PartialEq, Eq)]
pub enum Token {
    Constant(i64),
    Type(Type),
    Enum(Vec<(Token, Token)>),
    Struct(Vec<Token>),
    Ident(String),
    Blank,
    VoidDecl,
    Decl { ty: Box<Token>, id: Box<Token> },
    PointerDecl { ty: Box<Token>, id: Box<Token> },
    OpaqueDecl { id: Box<Token>, size: Box<Token> },
    StringDecl { id: Box<Token>, size: Box<Option<Token>> },
    VarOpaqueDecl { id: Box<Token>, size: Box<Option<Token>> },
    ArrayDecl { ty: Box<Token>, id: Box<Token>, size: Box<Token> },
    VarArrayDecl { ty: Box<Token>, id: Box<Token>, size: Box<Option<Token>> },
    ConstantDef(Box<Token>),
    TypeDef(Box<Token>),
    EnumDef { id: Box<Token>, decl: Box<Token> },
    StructDef { id: Box<Token>, decl: Box<Token> },
    UnionDef { id: Box<Token>, decl: Box<Token> },
    UnionCase { vals: Vec<Token>, decl: Box<Token> },
    Union { decl: Box<Token>, cases: Vec<Token>, default: Box<Option<Token>> },
    Comment(String),
    CodeSnippet(String),
    Program { name: Box<Token>, id: Box<Token>, versions: Vec<Token> },
    Version { name: Box<Token>, id: Box<Token>, procs: Vec<Token> },
    Proc { return_type: Box<Token>, name: Box<Token>, arg_types: Vec<Token>, id: Box<Token> },
    Namespace { name: Box<Token>, progs: Vec<Token> },
}

/// Bytes that may stand in an identifier: `[A-Za-z0-9_]`.
pub open spec fn ident_byte(c: u8) -> bool {
    (0x41 <= c <= 0x5A) || (0x61 <= c <= 0x7A) || (0x30 <= c <= 0x39) || c == 0x5f
}

/// Whitespace between tokens: space, tab, carriage return, newline.
pub open spec fn space_byte(c: u8) -> bool {
    c == 0x20 || c == 0x09 || c == 0x0d || c == 0x0a
}

/// The characters that ASCII bytes stand for.
pub open spec fn ascii_text(s: Seq<u8>) -> Seq<char> {
    s.map_values(|c: u8| c as char)
}

/// Whether `b` holds the bytes `t` at `p`.
pub open spec fn has_at(b: Seq<u8>, p: int, t: Seq<u8>) -> bool {
    0 <= p && p + t.len() <= b.len() && b.subrange(p, p + t.len()) == t
}

/// Whether `c` is an identifier byte.
pub fn is_ident(chr: u8) -> (r: bool)
    ensures
        r == ident_byte(chr),
{
    (chr >= 0x41 && chr <= 0x5A) || (chr >= 0x61 && chr <= 0x7A) || (chr >= 0x30 && chr <= 0x39) || chr == 0x5f
}

fn is_space(c: u8) -> (r: bool)
    ensures
        r == space_byte(c),
{
    c == 0x20 || c == 0x09 || c == 0x0d || c == 0x0a
}

/// Where a parse that returned `r` ended, as a spec position.
pub open spec fn end_is<T>(r: Option<(T, usize)>, s: Option<int>) -> bool {
    match r {
        Some((_, e)) => s == Some(e as int),
        None => s is None,
    }
}

/// Whether the position `r` is the spec position `s`.
pub open spec fn pos_is(r: Option<usize>, s: Option<int>) -> bool {
    match r {
        Some(e) => s == Some(e as int),
        None => s is None,
    }
}

/// The end of at least one whitespace byte at `q`.
pub open spec fn ms_end(b: Seq<u8>, q: int) -> Option<int> {
    if space_run_end(b, q) > q { Some(space_run_end(b, q)) } else { None }
}

/// The end of the non-empty `t` at `q`.
pub open spec fn tag_end(b: Seq<u8>, q: int, t: Seq<u8>) -> Option<int> {
    if has_at(b, q, t) && t.len() > 0 { Some(q + t.len()) } else { None }
}

/// The first position at or after `q` that does not hold an identifier byte.
pub open spec fn ident_run_end(b: Seq<u8>, q: int) -> int
    decreases b.len() - q,
{
    if 0 <= q < b.len() && ident_byte(b[q]) {
        ident_run_end(b, q + 1)
    } else {
        q
    }
}

/// The end of an identifier at `q`: the longest non-empty run of identifier bytes.
pub open spec fn ident_end(b: Seq<u8>, q: int) -> Option<int> {
    if ident_run_end(b, q) > q { Some(ident_run_end(b, q)) } else { None }
}

/// The first position at or after `q` that does not hold a digit of `base`.
pub open spec fn digit_run_end(b: Seq<u8>, q: int, base: int) -> int
    decreases b.len() - q,
{
    if 0 <= q < b.len() && radix_digit(b[q], base) {
        digit_run_end(b, q + 1, base)
    } else {
        q
    }
}

/// The end of a number in `base` at `q`: the longest non-empty run of
/// digits, when its value fits an `i64`.
pub open spec fn num_end(b: Seq<u8>, q: int, base: int) -> Option<int> {
    let e = digit_run_end(b, q, base);
    if e > q && radix_value(b.subrange(q, e), base) <= 0x7fff_ffff_ffff_ffff { Some(e) } else { None }
}

/// The end of a numeric literal at `p`: `0x` and hex digits, else `0` and
/// octal digits, else decimal digits.
pub open spec fn constant_end(b: Seq<u8>, p: int) -> Option<int> {
    let hex = match tag_end(b, p, "0x".spec_bytes()) {
        Some(q) => num_end(b, q, 16),
        None => None,
    };
    let oct = match tag_end(b, p, "0".spec_bytes()) {
        Some(q) => num_end(b, q, 8),
        None => None,
    };
    if hex is Some { hex } else if oct is Some { oct } else { num_end(b, p, 10) }
}

/// The end of a constant or, failing that, an identifier at `p`.
pub open spec fn value_end(b: Seq<u8>, p: int) -> Option<int> {
    if constant_end(b, p) is Some { constant_end(b, p) } else { ident_end(b, p) }
}

/// The first position at or after `q` that holds a newline.
pub open spec fn newline_from(b: Seq<u8>, q: int) -> Option<int>
    decreases b.len() - q,
{
    if q < 0 || q >= b.len() {
        None
    } else if b[q] == 0x0a {
        Some(q)
    } else {
        newline_from(b, q + 1)
    }
}

/// The end of a `//` comment at `p`, before its newline.
pub open spec fn inline_comment_end(b: Seq<u8>, p: int) -> Option<int> {
    match tag_end(b, p, "//".spec_bytes()) {
        Some(q) => newline_from(b, q),
        None => None,
    }
}

/// Past an optional `//` comment at `p`.
pub open spec fn opt_comment_end(b: Seq<u8>, p: int) -> int {
    match inline_comment_end(b, p) {
        Some(e) => e,
        None => p,
    }
}

/// Past whitespace, an optional `//` comment, and whitespace.
pub open spec fn trailer_end(b: Seq<u8>, p: int) -> int {
    space_run_end(b, opt_comment_end(b, space_run_end(b, p)))
}

/// The end of a line that opens with `start`, whose text is valid UTF-8.
pub open spec fn line_end(b: Seq<u8>, p: int, start: Seq<u8>) -> Option<int> {
    match tag_end(b, p, start) {
        Some(q) => match newline_from(b, q) {
            Some(e) => if valid_utf8(b.subrange(q, e)) { Some(e + 1) } else { None },
            None => None,
        },
        None => None,
    }
}

/// The end of an optional bound between `<` and `>` at `p`.
pub open spec fn var_bound_end(b: Seq<u8>, p: int) -> Option<int> {
    match tag_end(b, p, "<".spec_bytes()) {
        Some(q) => {
            let q2 = match value_end(b, q) {
                Some(e) => e,
                None => q,
            };
            tag_end(b, q2, ">".spec_bytes())
        },
        None => None,
    }
}

/// The end of a size between `[` and `]` at `p`.
pub open spec fn fixed_bound_end(b: Seq<u8>, p: int) -> Option<int> {
    match tag_end(b, p, "[".spec_bytes()) {
        Some(q) => match value_end(b, q) {
            Some(q2) => tag_end(b, q2, "]".spec_bytes()),
            None => None,
        },
        None => None,
    }
}

/// The first position at or after `q` that does not hold whitespace.
pub open spec fn space_run_end(b: Seq<u8>, q: int) -> int
    decreases b.len() - q,
{
    if 0 <= q < b.len() && space_byte(b[q]) {
        space_run_end(b, q + 1)
    } else {
        q
    }
}

/// Skips any whitespace at `p`; the result is the first position after it.
fn opt_space(b: &[u8], p: usize) -> (e: usize)
    requires
        p <= b.len(),
    ensures
        p <= e <= b.len(),
        forall|i: int| p <= i < e ==> space_byte(#[trigger] b@[i]),
        e == b.len() || !space_byte(b@[e as int]),
        e == space_run_end(b@, p as int),
{
    let mut e = p;
    while e < b.len() && is_space(b[e])
        invariant
            p <= e <= b.len(),
            forall|i: int| p <= i < e ==> space_byte(#[trigger] b@[i]),
            space_run_end(b@, p as int) == space_run_end(b@, e as int),
        decreases b.len() - e,
    {
        e = e + 1;
    }
    e
}

/// At least one whitespace byte at `p`; the result is the first position after the run.
fn multispace(b: &[u8], p: usize) -> (r: Option<usize>)
    requires
        p <= b.len(),
    ensures
        r matches Some(e) ==> p < e <= b.len() && forall|i: int| p <= i < e ==> space_byte(#[trigger] b@[i]),
        r is None <==> (p == b.len() || !space_byte(b@[p as int])),
        r matches Some(e) ==> e == space_run_end(b@, p as int),
        pos_is(r, ms_end(b@, p as int)),
{
    let e = opt_space(b, p);
    if e > p {
        Some(e)
    } else {
        None
    }
}

/// Whether the non-empty `t` stands at `p`; the result is the position after it.
fn tag(b: &[u8], p: usize, t: &str) -> (r: Option<usize>)
    requires
        p <= b.len(),
    ensures
        r is Some <==> has_at(b@, p as int, t.spec_bytes()) && t.spec_bytes().len() > 0,
        r matches Some(e) ==> e == p + t.spec_bytes().len() && p < e <= b.len(),
        pos_is(r, tag_end(b@, p as int, t.spec_bytes())),
{
    let tb = t.as_bytes();
    if tb.len() == 0 || tb.len() > b.len() - p {
        return None;
    }
    let mut i: usize = 0;
    while i < tb.len()
        invariant
            i <= tb.len(),
            p + tb.len() <= b.len(),
            tb@ == t.spec_bytes(),
            forall|k: int| 0 <= k < i ==> b@[p + k] == tb@[k],
        decreases tb.len() - i,
    {
        if b[p + i] != tb[i] {
            assert(b@.subrange(p as int, p + tb.len())[i as int] != tb@[i as int]);
            return None;
        }
        i = i + 1;
    }
    assert(b@.subrange(p as int, p + tb.len()) =~= tb@);
    Some(p + tb.len())
}

/// An identifier: the longest non-empty run of identifier bytes at `p`.
pub fn identifier(b: &[u8], p: usize) -> (r: Option<(Token, usize)>)
    requires
        p <= b.len(),
    ensures
        r matches Some((t, e)) ==> {
            &&& p < e <= b.len()
            &&& forall|i: int| p <= i < e ==> ident_byte(#[trigger] b@[i])
            &&& (e == b.len() || !ident_byte(b@[e as int]))
            &&& t matches Token::Ident(s) && s@ == ascii_text(b@.subrange(p as int, e as int))
        },
        r is None <==> (p == b.len() || !ident_byte(b@[p as int])),
        end_is(r, ident_end(b@, p as int)),
        r matches Some((t, _)) ==> ident_tree(b@, p as int, t),
{
    let mut s = String::new();
    let mut e = p;
    while e < b.len() && is_ident(b[e])
        invariant
            p <= e <= b.len(),
            ident_run_end(b@, p as int) == ident_run_end(b@, e as int),
            forall|i: int| p <= i < e ==> ident_byte(#[trigger] b@[i]),
            s@ == ascii_text(b@.subrange(p as int, e as int)),
        decreases b.len() - e,
    {
        push_char(&mut s, b[e] as char);
        assert(ascii_text(b@.subrange(p as int, e + 1)) =~= ascii_text(b@.subrange(p as int, e as int)).push(b@[e as int] as char));
        e = e + 1;
    }
    if e > p {
        Some((Token::Ident(s), e))
    } else {
        None
    }
}

/// The value of a decimal, octal or hexadecimal digit.
pub open spec fn digit_value(c: u8) -> int {
    if 0x30 <= c <= 0x39 {
        c - 0x30
    } else if 0x61 <= c <= 0x66 {
        c - 0x61 + 10
    } else if 0x41 <= c <= 0x46 {
        c - 0x41 + 10
    } else {
        0
    }
}

/// Whether `c` is a digit in `base` (8, 10 or 16).
pub open spec fn radix_digit(c: u8, base: int) -> bool {
    if base == 16 {
        (0x30 <= c <= 0x39) || (0x61 <= c <= 0x66) || (0x41 <= c <= 0x46)
    } else if base == 8 {
        0x30 <= c <= 0x37
    } else {
        0x30 <= c <= 0x39
    }
}

/// The number that the digits `s` denote in `base`.
pub open spec fn radix_value(s: Seq<u8>, base: int) -> int
    decreases s.len(),
{
    if s.len() == 0 {
        0
    } else {
        radix_value(s.drop_last(), base) * base + digit_value(s.last())
    }
}

proof fn lemma_radix_step(acc: int, base: int, d: int)
    requires
        0 <= acc,
        2 <= base <= 16,
        0 <= d < base,
        acc <= (0x7fff_ffff_ffff_ffff - d) / base,
    ensures
        acc * base + d <= 0x7fff_ffff_ffff_ffff,
        0 <= acc * base + d,
{
    assert(acc * base <= ((0x7fff_ffff_ffff_ffff - d) / base) * base) by (nonlinear_arith)
        requires
            acc <= (0x7fff_ffff_ffff_ffff - d) / base,
            base > 0,
    ;
    assert(((0x7fff_ffff_ffff_ffff - d) / base) * base <= 0x7fff_ffff_ffff_ffff - d) by (nonlinear_arith)
        requires
            base > 0,
            0x7fff_ffff_ffff_ffff - d >= 0,
    ;
    assert(0 <= acc * base) by (nonlinear_arith)
        requires
            acc >= 0,
            base > 0,
    ;
}

proof fn lemma_radix_over(acc: int, base: int, d: int)
    requires
        2 <= base <= 16,
        0 <= d < base,
        acc > (0x7fff_ffff_ffff_ffff - d) / base,
    ensures
        acc * base + d > 0x7fff_ffff_ffff_ffff,
{
    let m = 0x7fff_ffff_ffff_ffff - d;
    assert(acc * base >= ((m / base) + 1) * base) by (nonlinear_arith)
        requires
            acc >= m / base + 1,
            base > 0,
    ;
    assert(((m / base) + 1) * base > m) by (nonlinear_arith)
        requires
            base > 0,
            m >= 0,
    ;
}

proof fn lemma_run_end_bound(b: Seq<u8>, q: int, base: int)
    requires
        0 <= q <= b.len(),
    ensures
        q <= digit_run_end(b, q, base) <= b.len(),
        forall|i: int| q <= i < digit_run_end(b, q, base) ==> radix_digit(#[trigger] b[i], base),
    decreases b.len() - q,
{
    if q < b.len() && radix_digit(b[q], base) {
        lemma_run_end_bound(b, q + 1, base);
    }
}

/// The value of a run of digits grows as the run grows.
proof fn lemma_radix_mono(b: Seq<u8>, p: int, e1: int, e2: int, base: int)
    requires
        0 <= p <= e1 <= e2 <= b.len(),
        2 <= base,
        forall|i: int| p <= i < e2 ==> radix_digit(#[trigger] b[i], base),
    ensures
        radix_value(b.subrange(p, e1), base) <= radix_value(b.subrange(p, e2), base),
    decreases e2 - e1,
{
    if e2 > e1 {
        lemma_radix_mono(b, p, e1, e2 - 1, base);
        lemma_radix_nonneg(b.subrange(p, e2 - 1), base);
        assert(b.subrange(p, e2).drop_last() =~= b.subrange(p, e2 - 1));
        let v = radix_value(b.subrange(p, e2 - 1), base);
        assert(v <= v * base) by (nonlinear_arith)
            requires
                v >= 0,
                base >= 2,
        ;
    }
}

proof fn lemma_radix_nonneg(s: Seq<u8>, base: int)
    requires
        2 <= base,
    ensures
        radix_value(s, base) >= 0,
    decreases s.len(),
{
    if s.len() > 0 {
        lemma_radix_nonneg(s.drop_last(), base);
        let v = radix_value(s.drop_last(), base);
        assert(v * base >= 0) by (nonlinear_arith)
            requires
                v >= 0,
                base >= 2,
        ;
    }
}

fn digit_of(c: u8, base: u64) -> (r: Option<u64>)
    requires
        base == 8 || base == 10 || base == 16,
    ensures
        r is Some <==> radix_digit(c, base as int),
        r matches Some(d) ==> d as int == digit_value(c) && d < base,
{
    if c >= 0x30 && c <= 0x39 && (base != 8 || c <= 0x37) {
        Some((c - 0x30) as u64)
    } else if base == 16 && c >= 0x61 && c <= 0x66 {
        Some((c - 0x61 + 10) as u64)
    } else if base == 16 && c >= 0x41 && c <= 0x46 {
        Some((c - 0x41 + 10) as u64)
    } else {
        None
    }
}

/// The longest non-empty run of digits of `base` at `p`, and its value; no
/// result when there is no digit or the value does not fit an `i64`.
fn parse_num(b: &[u8], p: usize, base: u64) -> (r: Option<(i64, usize)>)
    requires
        p <= b.len(),
        base == 8 || base == 10 || base == 16,
    ensures
        r matches Some((v, e)) ==> {
            &&& p < e <= b.len()
            &&& forall|i: int| p <= i < e ==> radix_digit(#[trigger] b@[i], base as int)
            &&& (e == b.len() || !radix_digit(b@[e as int], base as int))
            &&& v as int == radix_value(b@.subrange(p as int, e as int), base as int)
        },
        (p == b.len() || !radix_digit(b@[p as int], base as int)) ==> r is None,
        end_is(r, num_end(b@, p as int, base as int)),
{
    let mut acc: u64 = 0;
    let mut e = p;
    while e < b.len()
        invariant
            p <= e <= b.len(),
            base == 8 || base == 10 || base == 16,
            forall|i: int| p <= i < e ==> radix_digit(#[trigger] b@[i], base as int),
            acc as int == radix_value(b@.subrange(p as int, e as int), base as int),
            acc <= 0x7fff_ffff_ffff_ffff,
            digit_run_end(b@, p as int, base as int) == digit_run_end(b@, e as int, base as int),
        ensures
            digit_run_end(b@, p as int, base as int) == digit_run_end(b@, e as int, base as int),
            p <= e <= b.len(),
            forall|i: int| p <= i < e ==> radix_digit(#[trigger] b@[i], base as int),
            acc as int == radix_value(b@.subrange(p as int, e as int), base as int),
            acc <= 0x7fff_ffff_ffff_ffff,
            e == b.len() || !radix_digit(b@[e as int], base as int),
        decreases b.len() - e,
    {
        match digit_of(b[e], base) {
            None => {
                break;
            },
            Some(d) => {
                if acc > (0x7fff_ffff_ffff_ffffu64 - d) / base {
                    proof {
                        lemma_radix_over(acc as int, base as int, d as int);
                        assert(b@.subrange(p as int, e + 1).drop_last() =~= b@.subrange(p as int, e as int));
                        lemma_run_end_bound(b@, e + 1, base as int);
                        lemma_radix_mono(b@, p as int, e + 1, digit_run_end(b@, p as int, base as int), base as int);
                    }
                    return None;
                }
                proof {
                    lemma_radix_step(acc as int, base as int, d as int);
                    assert(b@.subrange(p as int, e + 1).drop_last() =~= b@.subrange(p as int, e as int));
                }
                acc = acc * base + d;
                e = e + 1;
            },
        }
    }
    if e == p {
        None
    } else {
        Some((acc as i64, e))
    }
}

/// Whether `v` is the value of the literal in `b` from `p` up to `e`, read
/// in one of the three forms: `0x` and hex digits, `0` and octal digits, or
/// decimal digits, each a longest run.
pub open spec fn literal_form(b: Seq<u8>, p: int, e: int, v: int) -> bool {
    let digits_to = |q: int, base: int|
        q < e && (forall|i: int| q <= i < e ==> radix_digit(#[trigger] b[i], base))
            && (e == b.len() || !radix_digit(b[e], base)) && v == radix_value(b.subrange(q, e), base);
    ||| has_at(b, p, "0x".spec_bytes()) && digits_to(p + "0x".spec_bytes().len(), 16)
    ||| has_at(b, p, "0".spec_bytes()) && digits_to(p + "0".spec_bytes().len(), 8)
    ||| digits_to(p, 10)
}

/// A numeric literal: `0x` and hex digits, `0` and octal digits, or decimal
/// digits, tried in that order. A literal whose value does not fit an `i64`
/// is refused.
pub fn constant(b: &[u8], p: usize) -> (r: Option<(Token, usize)>)
    requires
        p <= b.len(),
    ensures
        r matches Some((t, e)) ==> {
            &&& p < e <= b.len()
            &&& t matches Token::Constant(v)
            &&& literal_form(b@, p as int, e as int, t->Constant_0 as int)
        },
        end_is(r, constant_end(b@, p as int)),
        r matches Some((t, _)) ==> constant_tree(b@, p as int, t),
{
    if let Some(q) = tag(b, p, "0x") {
        if let Some((v, e)) = parse_num(b, q, 16) {
            return Some((Token::Constant(v), e));
        }
    }
    if let Some(q) = tag(b, p, "0") {
        if let Some((v, e)) = parse_num(b, q, 8) {
            return Some((Token::Constant(v), e));
        }
    }
    match parse_num(b, p, 10) {
        Some((v, e)) => Some((Token::Constant(v), e)),
        None => None,
    }
}

/// A constant or, when none stands at `p`, an identifier.
pub fn value(b: &[u8], p: usize) -> (r: Option<(Token, usize)>)
    requires
        p <= b.len(),
    ensures
        r matches Some((t, e)) ==> {
            &&& p < e <= b.len()
            &&& match t {
                Token::Constant(v) => literal_form(b@, p as int, e as int, v as int),
                Token::Ident(s) => s@ == ascii_text(b@.subrange(p as int, e as int))
                    && forall|i: int| p <= i < e ==> ident_byte(#[trigger] b@[i]),
                _ => false,
            }
        },
        end_is(r, value_end(b@, p as int)),
        r matches Some((t, _)) ==> value_tree(b@, p as int, t),
{
    match constant(b, p) {
        Some(r) => Some(r),
        None => identifier(b, p),
    }
}

/// Relies on `String::from_utf8`: it accepts exactly the valid UTF-8 byte
/// strings and returns the text they encode.
#[verifier::external_body]
fn utf8_text(b: &[u8]) -> (r: Option<String>)
    ensures
        r is Some <==> valid_utf8(b@),
        r matches Some(s) ==> s@ == decode_utf8(b@),
{
    String::from_utf8(b.to_vec()).ok()
}

/// The first position at or after `p` that holds a newline.
fn find_newline(b: &[u8], p: usize) -> (r: Option<usize>)
    requires
        p <= b.len(),
    ensures
        r matches Some(e) ==> p <= e < b.len() && b@[e as int] == 0x0a,
        r matches Some(e) ==> forall|i: int| p <= i < e ==> b@[i] != 0x0a,
        pos_is(r, newline_from(b@, p as int)),
{
    let mut e = p;
    while e < b.len()
        invariant
            p <= e <= b.len(),
            newline_from(b@, p as int) == newline_from(b@, e as int),
            forall|i: int| p <= i < e ==> b@[i] != 0x0a,
        decreases b.len() - e,
    {
        if b[e] == 0x0a {
            return Some(e);
        }
        e = e + 1;
    }
    None
}

/// A `//` comment up to, not including, the end of its line.
fn inline_comment(b: &[u8], p: usize) -> (r: Option<usize>)
    requires
        p <= b.len(),
    ensures
        r matches Some(e) ==> p < e <= b.len(),
        pos_is(r, inline_comment_end(b@, p as int)),
{
    match tag(b, p, "//") {
        Some(q) => find_newline(b, q),
        None => None,
    }
}

/// Skips an optional `//` comment.
fn opt_inline_comment(b: &[u8], p: usize) -> (e: usize)
    requires
        p <= b.len(),
    ensures
        p <= e <= b.len(),
        e == opt_comment_end(b@, p as int),
{
    match inline_comment(b, p) {
        Some(e) => e,
        None => p,
    }
}

/// Skips whitespace, an optional `//` comment, and whitespace.
fn trailer(b: &[u8], p: usize) -> (e: usize)
    requires
        p <= b.len(),
    ensures
        p <= e <= b.len(),
        e == trailer_end(b@, p as int),
{
    let q = opt_space(b, p);
    let q = opt_inline_comment(b, q);
    opt_space(b, q)
}

/// A line that starts with `start` and whose text, without the newline, becomes the token.
fn line_token(b: &[u8], p: usize, start: &str, snippet: bool) -> (r: Option<(Token, usize)>)
    requires
        p <= b.len(),
    ensures
        r matches Some((t, e)) ==> {
            &&& p < e <= b.len()
            &&& has_at(b@, p as int, start.spec_bytes())
            &&& b@[e - 1] == 0x0a
            &&& (forall|i: int| p + start.spec_bytes().len() <= i < e - 1 ==> b@[i] != 0x0a)
            &&& match t {
                Token::Comment(c) => !snippet && c@ == decode_utf8(b@.subrange(p + start.spec_bytes().len(), e - 1)),
                Token::CodeSnippet(c) => snippet && c@ == decode_utf8(b@.subrange(p + start.spec_bytes().len(), e - 1)),
                _ => false,
            }
        },
        end_is(r, line_end(b@, p as int, start.spec_bytes())),
{
    let q = match tag(b, p, start) {
        Some(q) => q,
        None => return None,
    };
    let e = match find_newline(b, q) {
        Some(e) => e,
        None => return None,
    };
    let text = match utf8_text(slice_range(b, q, e)) {
        Some(t) => t,
        None => return None,
    };
    if snippet {
        Some((Token::CodeSnippet(text), e + 1))
    } else {
        Some((Token::Comment(text), e + 1))
    }
}

/// The bytes of `b` from `from` up to `to`.
fn slice_range(b: &[u8], from: usize, to: usize) -> (r: &[u8])
    requires
        from <= to <= b.len(),
    ensures
        r@ == b@.subrange(from as int, to as int),
{
    vstd::slice::slice_subrange(b, from, to)
}

/// Whether `r` is a token that ends after `p` and within `len`.
pub open spec fn advances(r: Option<(Token, usize)>, p: usize, len: usize) -> bool {
    r matches Some((_, e)) ==> p < e <= len
}

/// Whether the non-empty `t` stands at `p`.
pub open spec fn tag_at(b: Seq<u8>, p: int, t: Seq<u8>) -> bool {
    has_at(b, p, t) && t.len() > 0
}

/// The primitive type named by the keywords at `p`, tried in order as
/// prefixes, and the position after them. `unsigned int` and `unsigned hyper`
/// take whitespace between their words.
pub open spec fn keyword_type(b: Seq<u8>, p: int) -> Option<(Type, int)> {
    let u = "unsigned".spec_bytes();
    let w = space_run_end(b, p + u.len());
    let spaced = tag_at(b, p, u) && w > p + u.len();
    if spaced && tag_at(b, w, "int".spec_bytes()) {
        Some((Type::Uint, w + "int".spec_bytes().len()))
    } else if tag_at(b, p, "int".spec_bytes()) {
        Some((Type::Int, p + "int".spec_bytes().len()))
    } else if spaced && tag_at(b, w, "hyper".spec_bytes()) {
        Some((Type::Uhyper, w + "hyper".spec_bytes().len()))
    } else if tag_at(b, p, "hyper".spec_bytes()) {
        Some((Type::Hyper, p + "hyper".spec_bytes().len()))
    } else if tag_at(b, p, "float".spec_bytes()) {
        Some((Type::Float, p + "float".spec_bytes().len()))
    } else if tag_at(b, p, "double".spec_bytes()) {
        Some((Type::Double, p + "double".spec_bytes().len()))
    } else if tag_at(b, p, "quadruple".spec_bytes()) {
        Some((Type::Quadruple, p + "quadruple".spec_bytes().len()))
    } else if tag_at(b, p, "bool".spec_bytes()) {
        Some((Type::Bool, p + "bool".spec_bytes().len()))
    } else if tag_at(b, p, "u_int32_t".spec_bytes()) {
        Some((Type::Uint, p + "u_int32_t".spec_bytes().len()))
    } else if tag_at(b, p, "int32_t".spec_bytes()) {
        Some((Type::Int, p + "int32_t".spec_bytes().len()))
    } else if tag_at(b, p, "u_int64_t".spec_bytes()) {
        Some((Type::Uhyper, p + "u_int64_t".spec_bytes().len()))
    } else {
        None
    }
}


// The grammar as spec functions: each gives where its rule, read at `p`,
// ends, trying the alternatives in the order the parser does.

/// The end of a type specifier at `p`: a primitive keyword, an inline enum,
/// struct or union, or a type name, in that order.
pub open spec fn type_spec_end(b: Seq<u8>, p: int) -> Option<int>
    decreases b.len() - p, 5nat,
{
    match keyword_type(b, p) {
        Some((_, e)) => Some(e),
        None => if enum_ts_end(b, p) is Some {
            enum_ts_end(b, p)
        } else if struct_ts_end(b, p) is Some {
            struct_ts_end(b, p)
        } else if union_ts_end(b, p) is Some {
            union_ts_end(b, p)
        } else {
            ident_end(b, p)
        },
    }
}

/// The end of `enum` and an enum body at `p`.
pub open spec fn enum_ts_end(b: Seq<u8>, p: int) -> Option<int> {
    match tag_end(b, p, "enum".spec_bytes()) {
        Some(q) => match ms_end(b, q) {
            Some(q1) => enum_body_end(b, q1),
            None => None,
        },
        None => None,
    }
}

/// The end of an enum body at `p`.
pub open spec fn enum_body_end(b: Seq<u8>, p: int) -> Option<int> {
    match tag_end(b, space_run_end(b, p), "{".spec_bytes()) {
        Some(q) => tag_end(b, space_run_end(b, kv_loop(b, space_run_end(b, q))), "}".spec_bytes()),
        None => None,
    }
}

/// Past as many enum members as can be read from `q`.
pub open spec fn kv_loop(b: Seq<u8>, q: int) -> int
    decreases b.len() - q,
{
    match enum_kv_end(b, q) {
        Some(e) => if q < e <= b.len() { kv_loop(b, e) } else { q },
        None => q,
    }
}

/// The end of one enum member at `p`.
pub open spec fn enum_kv_end(b: Seq<u8>, p: int) -> Option<int> {
    match ident_end(b, space_run_end(b, p)) {
        Some(q1) => match tag_end(b, space_run_end(b, q1), "=".spec_bytes()) {
            Some(q3) => match value_end(b, space_run_end(b, q3)) {
                Some(q5) => {
                    let q6 = space_run_end(b, q5);
                    let q7 = match tag_end(b, q6, ",".spec_bytes()) {
                        Some(e) => e,
                        None => q6,
                    };
                    Some(trailer_end(b, q7))
                },
                None => None,
            },
            None => None,
        },
        None => None,
    }
}

/// The end of `struct` and a struct body at `p`.
pub open spec fn struct_ts_end(b: Seq<u8>, p: int) -> Option<int>
    decreases b.len() - p, 4nat,
{
    match tag_end(b, p, "struct".spec_bytes()) {
        Some(q) => match ms_end(b, q) {
            Some(q1) => if p < q1 <= b.len() { struct_body_end(b, q1) } else { None },
            None => None,
        },
        None => None,
    }
}

/// The end of a struct body at `p`.
pub open spec fn struct_body_end(b: Seq<u8>, p: int) -> Option<int>
    decreases b.len() - p, 9nat,
{
    match tag_end(b, p, "{".spec_bytes()) {
        Some(q) => {
            let q1 = space_run_end(b, q);
            if p < q1 <= b.len() {
                tag_end(b, space_run_end(b, decls_loop(b, q1)), "}".spec_bytes())
            } else {
                None
            }
        },
        None => None,
    }
}

/// Past as many struct declarations as can be read from `q`.
pub open spec fn decls_loop(b: Seq<u8>, q: int) -> int
    decreases b.len() - q, 8nat,
{
    match struct_decls_end(b, q) {
        Some(e) => if q < e <= b.len() { decls_loop(b, e) } else { q },
        None => q,
    }
}

/// The end of one struct declaration and its `;` at `p`.
pub open spec fn struct_decls_end(b: Seq<u8>, p: int) -> Option<int>
    decreases b.len() - p, 7nat,
{
    let q = space_run_end(b, p);
    if p <= q <= b.len() {
        match declaration_end(b, q) {
            Some(q1) => match tag_end(b, space_run_end(b, q1), ";".spec_bytes()) {
                Some(q3) => Some(trailer_end(b, q3)),
                None => None,
            },
            None => None,
        }
    } else {
        None
    }
}

/// The end of `union` and a union body at `p`.
pub open spec fn union_ts_end(b: Seq<u8>, p: int) -> Option<int>
    decreases b.len() - p, 4nat,
{
    match tag_end(b, p, "union".spec_bytes()) {
        Some(q) => match ms_end(b, q) {
            Some(q1) => if p < q1 <= b.len() { union_body_end(b, q1) } else { None },
            None => None,
        },
        None => None,
    }
}

/// The end of a union body at `p`: at least one case arm is required.
pub open spec fn union_body_end(b: Seq<u8>, p: int) -> Option<int>
    decreases b.len() - p, 9nat,
{
    match tag_end(b, p, "switch".spec_bytes()) {
        Some(q) => match tag_end(b, space_run_end(b, q), "(".spec_bytes()) {
            Some(q2) => {
                let q3 = space_run_end(b, q2);
                if p < q3 <= b.len() {
                    match declaration_end(b, q3) {
                        Some(q4) => match tag_end(b, space_run_end(b, q4), ")".spec_bytes()) {
                            Some(q6) => match tag_end(b, space_run_end(b, q6), "{".spec_bytes()) {
                                Some(q8) => {
                                    let c = if p < q8 <= b.len() { cases_loop(b, q8) } else { q8 };
                                    if c == q8 {
                                        None
                                    } else {
                                        let q9 = space_run_end(b, c);
                                        let q10 = if p < q9 <= b.len() {
                                            match default_end(b, q9) {
                                                Some(e) => e,
                                                None => q9,
                                            }
                                        } else {
                                            q9
                                        };
                                        tag_end(b, space_run_end(b, q10), "}".spec_bytes())
                                    }
                                },
                                None => None,
                            },
                            None => None,
                        },
                        None => None,
                    }
                } else {
                    None
                }
            },
            None => None,
        },
        None => None,
    }
}

/// Past as many union arms as can be read from `q`.
pub open spec fn cases_loop(b: Seq<u8>, q: int) -> int
    decreases b.len() - q, 8nat,
{
    match union_case_end(b, q) {
        Some(e) => if q < e <= b.len() { cases_loop(b, e) } else { q },
        None => q,
    }
}

/// The end of one union arm at `p`: one or more labels, a declaration, `;`.
pub open spec fn union_case_end(b: Seq<u8>, p: int) -> Option<int>
    decreases b.len() - p, 7nat,
{
    let q = space_run_end(b, p);
    let c = labels_loop(b, q);
    if c == q {
        None
    } else {
        let q1 = space_run_end(b, c);
        if p <= q1 <= b.len() {
            match declaration_end(b, q1) {
                Some(q2) => match tag_end(b, space_run_end(b, q2), ";".spec_bytes()) {
                    Some(q3) => Some(trailer_end(b, q3)),
                    None => None,
                },
                None => None,
            }
        } else {
            None
        }
    }
}

/// Past as many `case value:` labels as can be read from `q`.
pub open spec fn labels_loop(b: Seq<u8>, q: int) -> int
    decreases b.len() - q,
{
    match case_def_end(b, q) {
        Some(e) => if q < e <= b.len() { labels_loop(b, e) } else { q },
        None => q,
    }
}

/// The end of one `case value:` label at `p`.
pub open spec fn case_def_end(b: Seq<u8>, p: int) -> Option<int> {
    match tag_end(b, p, "case".spec_bytes()) {
        Some(q) => match value_end(b, space_run_end(b, q)) {
            Some(q1) => match tag_end(b, space_run_end(b, q1), ":".spec_bytes()) {
                Some(q2) => Some(trailer_end(b, q2)),
                None => None,
            },
            None => None,
        },
        None => None,
    }
}

/// The end of a `default:` arm at `p`.
pub open spec fn default_end(b: Seq<u8>, p: int) -> Option<int>
    decreases b.len() - p, 7nat,
{
    match tag_end(b, space_run_end(b, p), "default:".spec_bytes()) {
        Some(q1) => {
            let q2 = space_run_end(b, q1);
            if p <= q2 <= b.len() {
                match declaration_end(b, q2) {
                    Some(q3) => match tag_end(b, space_run_end(b, q3), ";".spec_bytes()) {
                        Some(q4) => Some(trailer_end(b, q4)),
                        None => None,
                    },
                    None => None,
                }
            } else {
                None
            }
        },
        None => None,
    }
}

/// The end of a name after a keyword and whitespace, then a bound.
pub open spec fn named_end(b: Seq<u8>, p: int, kw: Seq<u8>, fixed: bool) -> Option<int> {
    match tag_end(b, p, kw) {
        Some(q) => match ms_end(b, q) {
            Some(q1) => match ident_end(b, q1) {
                Some(q2) => if fixed && fixed_bound_end(b, q2) is Some {
                    fixed_bound_end(b, q2)
                } else {
                    var_bound_end(b, q2)
                },
                None => None,
            },
            None => None,
        },
        None => None,
    }
}

/// The end of a declaration at `p`: fixed or variable opaque, string,
/// fixed or variable array, plain, pointer, `void`, in that order.
pub open spec fn declaration_end(b: Seq<u8>, p: int) -> Option<int>
    decreases b.len() - p, 6nat,
{
    let opaque = named_end(b, p, "opaque".spec_bytes(), true);
    let string = named_end(b, p, "string".spec_bytes(), false);
    let typed = match type_spec_end(b, p) {
        Some(q) => {
            let plain = match ms_end(b, q) {
                Some(q1) => match ident_end(b, q1) {
                    Some(q2) => if fixed_bound_end(b, q2) is Some {
                        fixed_bound_end(b, q2)
                    } else if var_bound_end(b, q2) is Some {
                        var_bound_end(b, q2)
                    } else {
                        Some(q2)
                    },
                    None => None,
                },
                None => None,
            };
            if plain is Some {
                plain
            } else {
                match tag_end(b, space_run_end(b, q), "*".spec_bytes()) {
                    Some(q1) => match ms_end(b, q1) {
                        Some(q2) => ident_end(b, q2),
                        None => None,
                    },
                    None => None,
                }
            }
        },
        None => None,
    };
    let void = match tag_end(b, p, "void".spec_bytes()) {
        Some(q) => Some(space_run_end(b, q)),
        None => None,
    };
    if opaque is Some {
        opaque
    } else if string is Some {
        string
    } else if typed is Some {
        typed
    } else {
        void
    }
}

/// A primitive type, an inline enum, struct or union, or a type name. The
/// keywords are tried first, in order, as prefixes.
pub fn type_specifier(b: &[u8], p: usize) -> (r: Option<(Token, usize)>)
    requires
        p <= b.len(),
    ensures
        advances(r, p, b.len()),
        keyword_type(b@, p as int) matches Some((ty, e)) ==> r == Some((Token::Type(ty), e as usize)),
        keyword_type(b@, p as int) is None ==> !(r matches Some((Token::Type(_), _))),
        end_is(r, type_spec_end(b@, p as int)),
        r matches Some((t, _)) ==> type_tree(b@, p as int, t),
    decreases b.len() - p, 5nat,
{
    if let Some(q) = tag(b, p, "unsigned") {
        if let Some(q) = multispace(b, q) {
            if let Some(e) = tag(b, q, "int") {
                return Some((Token::Type(Type::Uint), e));
            }
        }
    }
    if let Some(e) = tag(b, p, "int") {
        return Some((Token::Type(Type::Int), e));
    }
    if let Some(q) = tag(b, p, "unsigned") {
        if let Some(q) = multispace(b, q) {
            if let Some(e) = tag(b, q, "hyper") {
                return Some((Token::Type(Type::Uhyper), e));
            }
        }
    }
    if let Some(e) = tag(b, p, "hyper") {
        return Some((Token::Type(Type::Hyper), e));
    }
    if let Some(e) = tag(b, p, "float") {
        return Some((Token::Type(Type::Float), e));
    }
    if let Some(e) = tag(b, p, "double") {
        return Some((Token::Type(Type::Double), e));
    }
    if let Some(e) = tag(b, p, "quadruple") {
        return Some((Token::Type(Type::Quadruple), e));
    }
    if let Some(e) = tag(b, p, "bool") {
        return Some((Token::Type(Type::Bool), e));
    }
    // Aliases outside standard XDR, in common use.
    if let Some(e) = tag(b, p, "u_int32_t") {
        return Some((Token::Type(Type::Uint), e));
    }
    if let Some(e) = tag(b, p, "int32_t") {
        return Some((Token::Type(Type::Int), e));
    }
    // `u_int64_t` is the unsigned 64-bit alias; no signed reading of it is offered.
    if let Some(e) = tag(b, p, "u_int64_t") {
        return Some((Token::Type(Type::Uhyper), e));
    }
    if let Some(r) = enum_type_specifier(b, p) {
        return Some(r);
    }
    if let Some(r) = struct_type_specifier(b, p) {
        return Some(r);
    }
    if let Some(r) = union_type_specifier(b, p) {
        return Some(r);
    }
    identifier(b, p)
}

/// `enum` and an enum body.
fn enum_type_specifier(b: &[u8], p: usize) -> (r: Option<(Token, usize)>)
    requires
        p <= b.len(),
    ensures
        advances(r, p, b.len()),
        r matches Some((t, _)) ==> t is Enum,
        end_is(r, enum_ts_end(b@, p as int)),
        r matches Some((t, _)) ==> (t matches Token::Enum(kv) && enum_body_tree(b@, at(ms_end(b@, p + "enum".spec_bytes().len()), p as int), kv@)),
{
    let q = tag(b, p, "enum")?;
    let q = multispace(b, q)?;
    let (kv, e) = enum_body(b, q)?;
    Some((Token::Enum(kv), e))
}

/// `{`, then `name = value` members, each with an optional comma, then `}`.
#[verifier::rlimit(80)]
fn enum_body(b: &[u8], p: usize) -> (r: Option<(Vec<(Token, Token)>, usize)>)
    requires
        p <= b.len(),
    ensures
        r matches Some((_, e)) ==> p < e <= b.len(),
        end_is(r, enum_body_end(b@, p as int)),
        r matches Some((kv, _)) ==> enum_body_tree(b@, p as int, kv@),
{
    let q = opt_space(b, p);
    let q = tag(b, q, "{")?;
    let mut q = opt_space(b, q);
    let mut kv: Vec<(Token, Token)> = Vec::new();
    let ghost start = q as int;
    loop
        invariant
            forall|rest: Seq<(Token, Token)>| #[trigger] kv_tree(b@, q as int, rest) ==> kv_tree(b@, start, kv@ + rest),
            kv_loop(b@, start) == kv_loop(b@, q as int),
            p < q <= b.len(),
        ensures
            kv_tree(b@, start, kv@),
            kv_loop(b@, start) == q as int,
            p < q <= b.len(),
        decreases b.len() - q,
    {
        match enum_kv(b, q) {
            Some((pair, e)) => {
                let ghost q_old = q as int;
                let ghost out_old = kv@;
                let ghost x = pair;
                kv.push(pair);
                proof {
                    assert forall|rest: Seq<(Token, Token)>| #[trigger] kv_tree(b@, e as int, rest) implies kv_tree(b@, start, kv@ + rest) by {
                        let r2 = seq![x] + rest;
                        assert(r2[0] == x);
                        assert(r2.skip(1) =~= rest);
                        assert(kv_tree(b@, q_old, r2));
                        assert(out_old + r2 =~= kv@ + rest);
                    }
                }
                q = e;
            },
            None => {
                proof {
                    assert(kv_tree(b@, q as int, Seq::empty()));
                    assert(kv@ + Seq::<(Token, Token)>::empty() =~= kv@);
                }
                break;
            },
        }
    }
    let q = opt_space(b, q);
    let e = tag(b, q, "}")?;
    Some((kv, e))
}

/// One member of an enum: `name = value`, an optional comma, an optional comment.
fn enum_kv(b: &[u8], p: usize) -> (r: Option<((Token, Token), usize)>)
    requires
        p <= b.len(),
    ensures
        r matches Some((_, e)) ==> p < e <= b.len(),
        end_is(r, enum_kv_end(b@, p as int)),
        r matches Some((kv, _)) ==> enum_kv_tree(b@, p as int, kv),
{
    let q = opt_space(b, p);
    let (key, q) = identifier(b, q)?;
    let q = opt_space(b, q);
    let q = tag(b, q, "=")?;
    let q = opt_space(b, q);
    let (val, q) = value(b, q)?;
    let q = opt_space(b, q);
    let q = match tag(b, q, ",") {
        Some(e) => e,
        None => q,
    };
    let e = trailer(b, q);
    Some(((key, val), e))
}

/// `struct` and a struct body.
fn struct_type_specifier(b: &[u8], p: usize) -> (r: Option<(Token, usize)>)
    requires
        p <= b.len(),
    ensures
        advances(r, p, b.len()),
        r matches Some((t, _)) ==> t is Struct,
        end_is(r, struct_ts_end(b@, p as int)),
        r matches Some((t, _)) ==> (t matches Token::Struct(ds) && struct_body_tree(b@, at(ms_end(b@, p + "struct".spec_bytes().len()), p as int), ds@)),
    decreases b.len() - p, 4nat,
{
    let q = tag(b, p, "struct")?;
    let q = multispace(b, q)?;
    let (decls, e) = struct_body(b, q)?;
    Some((Token::Struct(decls), e))
}

/// `{`, then declarations each ended by `;`, then `}`.
#[verifier::rlimit(80)]
fn struct_body(b: &[u8], p: usize) -> (r: Option<(Vec<Token>, usize)>)
    requires
        p <= b.len(),
    ensures
        r matches Some((_, e)) ==> p < e <= b.len(),
        end_is(r, struct_body_end(b@, p as int)),
        r matches Some((ds, _)) ==> struct_body_tree(b@, p as int, ds@),
    decreases b.len() - p, 9nat,
{
    let q = tag(b, p, "{")?;
    let mut q = opt_space(b, q);
    let mut decls: Vec<Token> = Vec::new();
    let ghost start = q as int;
    loop
        invariant
            forall|rest: Seq<Token>| #[trigger] decls_tree(b@, q as int, rest) ==> decls_tree(b@, start, decls@ + rest),
            decls_loop(b@, start) == decls_loop(b@, q as int),
            p < q <= b.len(),
        ensures
            decls_tree(b@, start, decls@),
            decls_loop(b@, start) == q as int,
            p < q <= b.len(),
        decreases b.len() - q,
    {
        match struct_decls(b, q) {
            Some((d, e)) => {
                let ghost q_old = q as int;
                let ghost out_old = decls@;
                let ghost x = d;
                decls.push(d);
                proof {
                    assert forall|rest: Seq<Token>| #[trigger] decls_tree(b@, e as int, rest) implies decls_tree(b@, start, decls@ + rest) by {
                        let r2 = seq![x] + rest;
                        assert(r2[0] == x);
                        assert(r2.skip(1) =~= rest);
                        assert(decls_tree(b@, q_old, r2));
                        assert(out_old + r2 =~= decls@ + rest);
                    }
                }
                q = e;
            },
            None => {
                proof {
                    assert(decls_tree(b@, q as int, Seq::empty()));
                    assert(decls@ + Seq::<Token>::empty() =~= decls@);
                }
                break;
            },
        }
    }
    let q = opt_space(b, q);
    let e = tag(b, q, "}")?;
    Some((decls, e))
}

/// One declaration of a struct, ended by `;`.
fn struct_decls(b: &[u8], p: usize) -> (r: Option<(Token, usize)>)
    requires
        p <= b.len(),
    ensures
        advances(r, p, b.len()),
        end_is(r, struct_decls_end(b@, p as int)),
        r matches Some((d, _)) ==> struct_decls_tree(b@, p as int, d),
    decreases b.len() - p, 7nat,
{
    let q = opt_space(b, p);
    let (d, q) = declaration(b, q)?;
    let q = opt_space(b, q);
    let q = tag(b, q, ";")?;
    let e = trailer(b, q);
    Some((d, e))
}

/// `union` and a union body.
fn union_type_specifier(b: &[u8], p: usize) -> (r: Option<(Token, usize)>)
    requires
        p <= b.len(),
    ensures
        advances(r, p, b.len()),
        r matches Some((t, _)) ==> t is Union,
        end_is(r, union_ts_end(b@, p as int)),
        r matches Some((t, _)) ==> union_body_tree(b@, at(ms_end(b@, p + "union".spec_bytes().len()), p as int), t),
    decreases b.len() - p, 4nat,
{
    let q = tag(b, p, "union")?;
    let q = multispace(b, q)?;
    union_body(b, q)
}

/// `switch (decl) {`, one or more case arms, an optional default arm, `}`.
#[verifier::rlimit(80)]
fn union_body(b: &[u8], p: usize) -> (r: Option<(Token, usize)>)
    requires
        p <= b.len(),
    ensures
        advances(r, p, b.len()),
        r matches Some((t, _)) ==> t is Union,
        end_is(r, union_body_end(b@, p as int)),
        r matches Some((t, _)) ==> union_body_tree(b@, p as int, t),
    decreases b.len() - p, 9nat,
{
    let q = tag(b, p, "switch")?;
    let q = opt_space(b, q);
    let q = tag(b, q, "(")?;
    let q = opt_space(b, q);
    let (decl, q) = declaration(b, q)?;
    let q = opt_space(b, q);
    let q = tag(b, q, ")")?;
    let q = opt_space(b, q);
    let mut q = tag(b, q, "{")?;
    let mut cases: Vec<Token> = Vec::new();
    let q0 = q;
    let ghost start = q as int;
    loop
        invariant
            forall|rest: Seq<Token>| #[trigger] cases_tree(b@, q as int, rest) ==> cases_tree(b@, start, cases@ + rest),
            cases_loop(b@, start) == cases_loop(b@, q as int),
            p < q <= b.len(),
        ensures
            cases_tree(b@, start, cases@),
            cases_loop(b@, start) == q as int,
            p < q <= b.len(),
        decreases b.len() - q,
    {
        match union_case(b, q) {
            Some((c, e)) => {
                let ghost q_old = q as int;
                let ghost out_old = cases@;
                let ghost x = c;
                cases.push(c);
                proof {
                    assert forall|rest: Seq<Token>| #[trigger] cases_tree(b@, e as int, rest) implies cases_tree(b@, start, cases@ + rest) by {
                        let r2 = seq![x] + rest;
                        assert(r2[0] == x);
                        assert(r2.skip(1) =~= rest);
                        assert(cases_tree(b@, q_old, r2));
                        assert(out_old + r2 =~= cases@ + rest);
                    }
                }
                q = e;
            },
            None => {
                proof {
                    assert(cases_tree(b@, q as int, Seq::empty()));
                    assert(cases@ + Seq::<Token>::empty() =~= cases@);
                }
                break;
            },
        }
    }
    if q == q0 {
        return None;
    }
    let q = opt_space(b, q);
    let (default, q) = match default_case(b, q) {
        Some((d, e)) => (Some(d), e),
        None => (None, q),
    };
    let q = opt_space(b, q);
    let e = tag(b, q, "}")?;
    Some((Token::Union { decl: Box::new(decl), cases, default: Box::new(default) }, e))
}

/// One arm of a union: one or more `case value:` labels, then a declaration ended by `;`.
#[verifier::rlimit(80)]
fn union_case(b: &[u8], p: usize) -> (r: Option<(Token, usize)>)
    requires
        p <= b.len(),
    ensures
        advances(r, p, b.len()),
        r matches Some((t, _)) ==> t is UnionCase,
        end_is(r, union_case_end(b@, p as int)),
        r matches Some((t, _)) ==> union_case_tree(b@, p as int, t),
    decreases b.len() - p, 7nat,
{
    let mut q = opt_space(b, p);
    let mut vals: Vec<Token> = Vec::new();
    let q0 = q;
    let ghost start = q as int;
    loop
        invariant
            forall|rest: Seq<Token>| #[trigger] labels_tree(b@, q as int, rest) ==> labels_tree(b@, start, vals@ + rest),
            labels_loop(b@, start) == labels_loop(b@, q as int),
            p <= q <= b.len(),
            vals.len() > 0 ==> p < q,
        ensures
            labels_tree(b@, start, vals@),
            labels_loop(b@, start) == q as int,
            p <= q <= b.len(),
            vals.len() > 0 ==> p < q,
        decreases b.len() - q,
    {
        match case_def(b, q) {
            Some((v, e)) => {
                let ghost q_old = q as int;
                let ghost out_old = vals@;
                let ghost x = v;
                vals.push(v);
                proof {
                    assert forall|rest: Seq<Token>| #[trigger] labels_tree(b@, e as int, rest) implies labels_tree(b@, start, vals@ + rest) by {
                        let r2 = seq![x] + rest;
                        assert(r2[0] == x);
                        assert(r2.skip(1) =~= rest);
                        assert(labels_tree(b@, q_old, r2));
                        assert(out_old + r2 =~= vals@ + rest);
                    }
                }
                q = e;
            },
            None => {
                proof {
                    assert(labels_tree(b@, q as int, Seq::empty()));
                    assert(vals@ + Seq::<Token>::empty() =~= vals@);
                }
                break;
            },
        }
    }
    if q == q0 {
        return None;
    }
    let q = opt_space(b, q);
    let (decl, q) = declaration(b, q)?;
    let q = opt_space(b, q);
    let q = tag(b, q, ";")?;
    let e = trailer(b, q);
    Some((Token::UnionCase { vals, decl: Box::new(decl) }, e))
}

/// One label of a union arm: `case value:`.
fn case_def(b: &[u8], p: usize) -> (r: Option<(Token, usize)>)
    requires
        p <= b.len(),
    ensures
        advances(r, p, b.len()),
        end_is(r, case_def_end(b@, p as int)),
        r matches Some((v, _)) ==> value_tree(b@, space_run_end(b@, p + "case".spec_bytes().len()), v),
{
    let q = tag(b, p, "case")?;
    let q = opt_space(b, q);
    let (v, q) = value(b, q)?;
    let q = opt_space(b, q);
    let q = tag(b, q, ":")?;
    let e = trailer(b, q);
    Some((v, e))
}

/// The default arm of a union: `default:` and a declaration ended by `;`.
fn default_case(b: &[u8], p: usize) -> (r: Option<(Token, usize)>)
    requires
        p <= b.len(),
    ensures
        advances(r, p, b.len()),
        end_is(r, default_end(b@, p as int)),
        r matches Some((d, _)) ==> default_tree(b@, p as int, Some(d)),
    decreases b.len() - p, 7nat,
{
    let q = opt_space(b, p);
    let q = tag(b, q, "default:")?;
    let q = opt_space(b, q);
    let (d, q) = declaration(b, q)?;
    let q = opt_space(b, q);
    let q = tag(b, q, ";")?;
    let e = trailer(b, q);
    Some((d, e))
}

/// An optional bound between `<` and `>`.
fn var_bound(b: &[u8], p: usize) -> (r: Option<(Option<Token>, usize)>)
    requires
        p <= b.len(),
    ensures
        r matches Some((_, e)) ==> p < e <= b.len(),
        end_is(r, var_bound_end(b@, p as int)),
        r matches Some((o, _)) ==> var_bound_tree(b@, p as int, o),
{
    let q = tag(b, p, "<")?;
    let (size, q) = match value(b, q) {
        Some((v, e)) => (Some(v), e),
        None => (None, q),
    };
    let e = tag(b, q, ">")?;
    Some((size, e))
}

/// A size between `[` and `]`.
fn fixed_bound(b: &[u8], p: usize) -> (r: Option<(Token, usize)>)
    requires
        p <= b.len(),
    ensures
        advances(r, p, b.len()),
        end_is(r, fixed_bound_end(b@, p as int)),
        r matches Some((t, _)) ==> fixed_bound_tree(b@, p as int, t),
{
    let q = tag(b, p, "[")?;
    let (size, q) = value(b, q)?;
    let e = tag(b, q, "]")?;
    Some((size, e))
}

/// What a declaration read at `p` can be: an opaque or string declaration
/// opens with its keyword, `void` with `void`, and the other forms with a
/// type, which is the primitive type that keywords at `p` name when they do;
/// each declared name is an identifier.
pub open spec fn decl_shape(b: Seq<u8>, p: int, t: Token) -> bool {
    match t {
        Token::OpaqueDecl { id, .. } | Token::VarOpaqueDecl { id, .. } => tag_at(b, p, "opaque".spec_bytes()) && (*id) is Ident,
        Token::StringDecl { id, .. } => tag_at(b, p, "string".spec_bytes()) && (*id) is Ident,
        Token::ArrayDecl { ty, id, .. } | Token::VarArrayDecl { ty, id, .. } | Token::PointerDecl { ty, id }
        | Token::Decl { ty, id } => (*id) is Ident && (keyword_type(b, p) matches Some((k, _)) ==> *ty == Token::Type(k)),
        Token::VoidDecl => tag_at(b, p, "void".spec_bytes()),
        _ => false,
    }
}

/// A declaration. The forms are tried in order: fixed opaque, variable
/// opaque, string, fixed array, variable array, pointer, plain, `void`.
#[verifier::rlimit(100)]
pub fn declaration(b: &[u8], p: usize) -> (r: Option<(Token, usize)>)
    requires
        p <= b.len(),
    ensures
        advances(r, p, b.len()),
        r matches Some((t, _)) ==> decl_shape(b@, p as int, t),
        end_is(r, declaration_end(b@, p as int)),
        r matches Some((t, _)) ==> decl_tree(b@, p as int, t),
    decreases b.len() - p, 6nat,
{
    if let Some(q) = tag(b, p, "opaque") {
        if let Some(q) = multispace(b, q) {
            if let Some((id, q)) = identifier(b, q) {
                if let Some((size, e)) = fixed_bound(b, q) {
                    return Some((Token::OpaqueDecl { id: Box::new(id), size: Box::new(size) }, e));
                }
                if let Some((size, e)) = var_bound(b, q) {
                    return Some((Token::VarOpaqueDecl { id: Box::new(id), size: Box::new(size) }, e));
                }
            }
        }
    }
    if let Some(q) = tag(b, p, "string") {
        if let Some(q) = multispace(b, q) {
            if let Some((id, q)) = identifier(b, q) {
                if let Some((size, e)) = var_bound(b, q) {
                    return Some((Token::StringDecl { id: Box::new(id), size: Box::new(size) }, e));
                }
            }
        }
    }
    if let Some((ty, q)) = type_specifier(b, p) {
        // The fixed array, variable array and plain forms share `type name`;
        // a pointer cannot follow it, as a name does not start with `*`.
        if let Some(q1) = multispace(b, q) {
            if let Some((id, q2)) = identifier(b, q1) {
                if let Some((size, e)) = fixed_bound(b, q2) {
                    return Some((Token::ArrayDecl { ty: Box::new(ty), id: Box::new(id), size: Box::new(size) }, e));
                }
                if let Some((size, e)) = var_bound(b, q2) {
                    return Some((Token::VarArrayDecl { ty: Box::new(ty), id: Box::new(id), size: Box::new(size) }, e));
                }
                return Some((Token::Decl { ty: Box::new(ty), id: Box::new(id) }, q2));
            }
        }
        let q1 = opt_space(b, q);
        if let Some(q1) = tag(b, q1, "*") {
            if let Some(q1) = multispace(b, q1) {
                if let Some((id, e)) = identifier(b, q1) {
                    return Some((Token::PointerDecl { ty: Box::new(ty), id: Box::new(id) }, e));
                }
            }
        }
    }
    let q = tag(b, p, "void")?;
    let e = opt_space(b, q);
    Some((Token::VoidDecl, e))
}

/// Past the `;` that follows a body ending at `body`.
pub open spec fn semi_after(b: Seq<u8>, body: Option<int>) -> Option<int> {
    match body {
        Some(q) => tag_end(b, space_run_end(b, q), ";".spec_bytes()),
        None => None,
    }
}

/// Where the name and whitespace after `kw` at `p` end.
pub open spec fn def_head_end(b: Seq<u8>, p: int, kw: Seq<u8>) -> Option<int> {
    match tag_end(b, p, kw) {
        Some(q) => match ms_end(b, q) {
            Some(q1) => match ident_end(b, q1) {
                Some(q2) => ms_end(b, q2),
                None => None,
            },
            None => None,
        },
        None => None,
    }
}

/// The end of `typedef` and a declaration at `p`.
pub open spec fn typedef_alt_end(b: Seq<u8>, p: int) -> Option<int> {
    match tag_end(b, p, "typedef".spec_bytes()) {
        Some(q) => match ms_end(b, q) {
            Some(q1) => match declaration_end(b, q1) {
                Some(q2) => tag_end(b, space_run_end(b, q2), ";".spec_bytes()),
                None => None,
            },
            None => None,
        },
        None => None,
    }
}

/// The end of an enum definition at `p`.
pub open spec fn enum_alt_end(b: Seq<u8>, p: int) -> Option<int> {
    match def_head_end(b, p, "enum".spec_bytes()) {
        Some(q) => semi_after(b, enum_body_end(b, q)),
        None => None,
    }
}

/// The end of a union definition at `p`.
pub open spec fn union_alt_end(b: Seq<u8>, p: int) -> Option<int> {
    match def_head_end(b, p, "union".spec_bytes()) {
        Some(q) => semi_after(b, union_body_end(b, q)),
        None => None,
    }
}

/// The end of a struct definition at `p`, with the whitespace after it.
pub open spec fn struct_alt_end(b: Seq<u8>, p: int) -> Option<int> {
    match def_head_end(b, p, "struct".spec_bytes()) {
        Some(q) => match semi_after(b, struct_body_end(b, q)) {
            Some(e) => Some(space_run_end(b, e)),
            None => None,
        },
        None => None,
    }
}

/// The end of a type definition at `p`: `typedef`, `enum`, `union` or
/// `struct`, in that order.
pub open spec fn type_def_end(b: Seq<u8>, p: int) -> Option<int> {
    if typedef_alt_end(b, p) is Some {
        typedef_alt_end(b, p)
    } else if enum_alt_end(b, p) is Some {
        enum_alt_end(b, p)
    } else if union_alt_end(b, p) is Some {
        union_alt_end(b, p)
    } else {
        struct_alt_end(b, p)
    }
}

/// The end of a constant definition at `p`.
pub open spec fn constant_def_end(b: Seq<u8>, p: int) -> Option<int> {
    match tag_end(b, p, "const".spec_bytes()) {
        Some(q) => match ms_end(b, q) {
            Some(q1) => match ident_end(b, q1) {
                Some(q2) => match tag_end(b, space_run_end(b, q2), "=".spec_bytes()) {
                    Some(q3) => match constant_end(b, space_run_end(b, q3)) {
                        Some(q4) => match tag_end(b, space_run_end(b, q4), ";".spec_bytes()) {
                            Some(q5) => Some(opt_comment_end(b, q5)),
                            None => None,
                        },
                        None => None,
                    },
                    None => None,
                },
                None => None,
            },
            None => None,
        },
        None => None,
    }
}

/// The end of a procedure's result or argument type at `p`.
pub open spec fn proc_type_end(b: Seq<u8>, p: int) -> Option<int> {
    match tag_end(b, p, "void".spec_bytes()) {
        Some(e) => Some(e),
        None => type_spec_end(b, p),
    }
}

/// The end of a procedure argument at `p`: a type, and a name if one follows.
pub open spec fn proc_arg_end(b: Seq<u8>, p: int) -> Option<int> {
    match proc_type_end(b, p) {
        Some(q) => match ms_end(b, q) {
            Some(q1) => match ident_end(b, q1) {
                Some(e) => Some(e),
                None => Some(q),
            },
            None => Some(q),
        },
        None => None,
    }
}

/// Past as many `, argument` as can be read from `q`.
pub open spec fn args_loop(b: Seq<u8>, q: int) -> int
    decreases b.len() - q,
{
    match tag_end(b, space_run_end(b, q), ",".spec_bytes()) {
        Some(q1) => match proc_arg_end(b, space_run_end(b, q1)) {
            Some(e) => if q < e <= b.len() { args_loop(b, e) } else { q },
            None => q,
        },
        None => q,
    }
}

/// Past `= number ;` and what may trail it, from `q`.
pub open spec fn numbered_end(b: Seq<u8>, q: int) -> Option<int> {
    match tag_end(b, space_run_end(b, q), "=".spec_bytes()) {
        Some(q1) => match constant_end(b, space_run_end(b, q1)) {
            Some(q2) => tag_end(b, space_run_end(b, q2), ";".spec_bytes()),
            None => None,
        },
        None => None,
    }
}

/// The end of a procedure at `p`.
pub open spec fn proc_def_end(b: Seq<u8>, p: int) -> Option<int> {
    match proc_type_end(b, space_run_end(b, p)) {
        Some(q1) => match ms_end(b, q1) {
            Some(q2) => match ident_end(b, q2) {
                Some(q3) => match tag_end(b, space_run_end(b, q3), "(".spec_bytes()) {
                    Some(q4) => match proc_arg_end(b, space_run_end(b, q4)) {
                        Some(q5) => match tag_end(b, space_run_end(b, args_loop(b, q5)), ")".spec_bytes()) {
                            Some(q6) => match numbered_end(b, q6) {
                                Some(q7) => Some(trailer_end(b, q7)),
                                None => None,
                            },
                            None => None,
                        },
                        None => None,
                    },
                    None => None,
                },
                None => None,
            },
            None => None,
        },
        None => None,
    }
}

/// Past as many procedures as can be read from `q`.
pub open spec fn procs_loop(b: Seq<u8>, q: int) -> int
    decreases b.len() - q,
{
    match proc_def_end(b, q) {
        Some(e) => if q < e <= b.len() { procs_loop(b, e) } else { q },
        None => q,
    }
}

/// The end of a version at `p`: at least one procedure is required.
pub open spec fn version_def_end(b: Seq<u8>, p: int) -> Option<int> {
    match tag_end(b, space_run_end(b, p), "version".spec_bytes()) {
        Some(q) => match ms_end(b, q) {
            Some(q1) => match ident_end(b, q1) {
                Some(q2) => match tag_end(b, space_run_end(b, q2), "{".spec_bytes()) {
                    Some(q3) => {
                        let c = procs_loop(b, q3);
                        if c == q3 {
                            None
                        } else {
                            match tag_end(b, space_run_end(b, c), "}".spec_bytes()) {
                                Some(q4) => match numbered_end(b, q4) {
                                    Some(q5) => Some(trailer_end(b, q5)),
                                    None => None,
                                },
                                None => None,
                            }
                        }
                    },
                    None => None,
                },
                None => None,
            },
            None => None,
        },
        None => None,
    }
}

/// Past as many versions as can be read from `q`.
pub open spec fn versions_loop(b: Seq<u8>, q: int) -> int
    decreases b.len() - q,
{
    match version_def_end(b, q) {
        Some(e) => if q < e <= b.len() { versions_loop(b, e) } else { q },
        None => q,
    }
}

/// The end of a program at `p`: at least one version is required.
pub open spec fn program_def_end(b: Seq<u8>, p: int) -> Option<int> {
    match tag_end(b, p, "program".spec_bytes()) {
        Some(q) => match ms_end(b, q) {
            Some(q1) => match ident_end(b, q1) {
                Some(q2) => match tag_end(b, space_run_end(b, q2), "{".spec_bytes()) {
                    Some(q3) => {
                        let c = versions_loop(b, q3);
                        if c == q3 {
                            None
                        } else {
                            match tag_end(b, space_run_end(b, c), "}".spec_bytes()) {
                                Some(q4) => numbered_end(b, q4),
                                None => None,
                            }
                        }
                    },
                    None => None,
                },
                None => None,
            },
            None => None,
        },
        None => None,
    }
}

/// The end of one top-level item at `p`: a type definition, a constant
/// definition, a program, a comment line, a passthrough line or whitespace,
/// in that order.
pub open spec fn expression_end(b: Seq<u8>, p: int) -> Option<int> {
    if type_def_end(b, p) is Some {
        type_def_end(b, p)
    } else if constant_def_end(b, p) is Some {
        constant_def_end(b, p)
    } else if program_def_end(b, p) is Some {
        program_def_end(b, p)
    } else if line_end(b, p, "//".spec_bytes()) is Some {
        line_end(b, p, "//".spec_bytes())
    } else if line_end(b, p, "%".spec_bytes()) is Some {
        line_end(b, p, "%".spec_bytes())
    } else {
        ms_end(b, p)
    }
}

/// Past as many top-level items as can be read from `q`.
pub open spec fn tokenize_end(b: Seq<u8>, q: int) -> int
    decreases b.len() - q,
{
    match expression_end(b, q) {
        Some(e) => if q < e <= b.len() { tokenize_end(b, e) } else { q },
        None => q,
    }
}

/// Whether the grammar reads `b` whole as a sequence of top-level items.
pub open spec fn accepts(b: Seq<u8>) -> bool {
    tokenize_end(b, 0) == b.len()
}


// The trees the grammar reads: each `*_tree(b, p, t)` holds when `t` is the
// tree that its rule reads at `p`, where that rule succeeds. Positions come
// from the `*_end` functions above.

/// `o`'s position, or `d` when there is none.
pub open spec fn at(o: Option<int>, d: int) -> int {
    match o {
        Some(x) => x,
        None => d,
    }
}

/// The identifier read at `p`.
pub open spec fn ident_tree(b: Seq<u8>, p: int, t: Token) -> bool {
    t matches Token::Ident(s) && s@ == ascii_text(b.subrange(p, at(ident_end(b, p), p)))
}

/// The value of the numeric literal read at `p`.
pub open spec fn constant_val(b: Seq<u8>, p: int) -> int {
    let h = at(tag_end(b, p, "0x".spec_bytes()), p);
    let o = at(tag_end(b, p, "0".spec_bytes()), p);
    if tag_end(b, p, "0x".spec_bytes()) is Some && num_end(b, h, 16) is Some {
        radix_value(b.subrange(h, at(num_end(b, h, 16), h)), 16)
    } else if tag_end(b, p, "0".spec_bytes()) is Some && num_end(b, o, 8) is Some {
        radix_value(b.subrange(o, at(num_end(b, o, 8), o)), 8)
    } else {
        radix_value(b.subrange(p, at(num_end(b, p, 10), p)), 10)
    }
}

/// The constant read at `p`.
pub open spec fn constant_tree(b: Seq<u8>, p: int, t: Token) -> bool {
    t matches Token::Constant(v) && v as int == constant_val(b, p)
}

/// The constant or identifier read at `p`.
pub open spec fn value_tree(b: Seq<u8>, p: int, t: Token) -> bool {
    if constant_end(b, p) is Some { constant_tree(b, p, t) } else { ident_tree(b, p, t) }
}

/// The optional value read at `q`.
pub open spec fn opt_value_tree(b: Seq<u8>, q: int, o: Option<Token>) -> bool {
    match o {
        Some(v) => value_end(b, q) is Some && value_tree(b, q, v),
        None => value_end(b, q) is None,
    }
}

/// The bound read between `<` and `>` at `p`.
pub open spec fn var_bound_tree(b: Seq<u8>, p: int, o: Option<Token>) -> bool {
    opt_value_tree(b, p + "<".spec_bytes().len(), o)
}

/// The size read between `[` and `]` at `p`.
pub open spec fn fixed_bound_tree(b: Seq<u8>, p: int, t: Token) -> bool {
    value_tree(b, p + "[".spec_bytes().len(), t)
}

/// The enum member read at `p`.
pub open spec fn enum_kv_tree(b: Seq<u8>, p: int, kv: (Token, Token)) -> bool {
    let q = space_run_end(b, p);
    let q1 = at(ident_end(b, q), q);
    let q3 = at(tag_end(b, space_run_end(b, q1), "=".spec_bytes()), q1);
    ident_tree(b, q, kv.0) && value_tree(b, space_run_end(b, q3), kv.1)
}

/// The enum members read from `q`, in order.
pub open spec fn kv_tree(b: Seq<u8>, q: int, kvs: Seq<(Token, Token)>) -> bool
    decreases b.len() - q,
{
    match enum_kv_end(b, q) {
        Some(e) => if q < e <= b.len() {
            kvs.len() > 0 && enum_kv_tree(b, q, kvs[0]) && kv_tree(b, e, kvs.skip(1))
        } else {
            kvs.len() == 0
        },
        None => kvs.len() == 0,
    }
}

/// The members of the enum body read at `p`.
pub open spec fn enum_body_tree(b: Seq<u8>, p: int, kvs: Seq<(Token, Token)>) -> bool {
    let q = at(tag_end(b, space_run_end(b, p), "{".spec_bytes()), p);
    kv_tree(b, space_run_end(b, q), kvs)
}

/// The type specifier read at `p`.
pub open spec fn type_tree(b: Seq<u8>, p: int, t: Token) -> bool
    decreases b.len() - p, 5nat,
{
    match keyword_type(b, p) {
        Some((ty, _)) => t == Token::Type(ty),
        None => if enum_ts_end(b, p) is Some {
            t matches Token::Enum(kv) && enum_body_tree(b, at(ms_end(b, p + "enum".spec_bytes().len()), p), kv@)
        } else if struct_ts_end(b, p) is Some {
            let q1 = at(ms_end(b, p + "struct".spec_bytes().len()), p);
            t matches Token::Struct(ds) && p < q1 <= b.len() && struct_body_tree(b, q1, ds@)
        } else if union_ts_end(b, p) is Some {
            let q1 = at(ms_end(b, p + "union".spec_bytes().len()), p);
            p < q1 <= b.len() && union_body_tree(b, q1, t)
        } else {
            ident_tree(b, p, t)
        },
    }
}

/// The declarations of the struct body read at `p`.
pub open spec fn struct_body_tree(b: Seq<u8>, p: int, ds: Seq<Token>) -> bool
    decreases b.len() - p, 9nat,
{
    let q1 = space_run_end(b, at(tag_end(b, p, "{".spec_bytes()), p));
    p < q1 <= b.len() && decls_tree(b, q1, ds)
}

/// The struct declarations read from `q`, in order.
pub open spec fn decls_tree(b: Seq<u8>, q: int, ds: Seq<Token>) -> bool
    decreases b.len() - q, 8nat,
{
    match struct_decls_end(b, q) {
        Some(e) => if q < e <= b.len() {
            ds.len() > 0 && struct_decls_tree(b, q, ds[0]) && decls_tree(b, e, ds.skip(1))
        } else {
            ds.len() == 0
        },
        None => ds.len() == 0,
    }
}

/// The declaration of the struct member read at `p`.
pub open spec fn struct_decls_tree(b: Seq<u8>, p: int, d: Token) -> bool
    decreases b.len() - p, 7nat,
{
    let q = space_run_end(b, p);
    p <= q <= b.len() && decl_tree(b, q, d)
}

/// The union body read at `p`.
pub open spec fn union_body_tree(b: Seq<u8>, p: int, t: Token) -> bool
    decreases b.len() - p, 9nat,
{
    let q = at(tag_end(b, p, "switch".spec_bytes()), p);
    let q2 = at(tag_end(b, space_run_end(b, q), "(".spec_bytes()), q);
    let q3 = space_run_end(b, q2);
    let q4 = at(declaration_end(b, q3), q3);
    let q6 = at(tag_end(b, space_run_end(b, q4), ")".spec_bytes()), q4);
    let q8 = at(tag_end(b, space_run_end(b, q6), "{".spec_bytes()), q6);
    let q9 = space_run_end(b, cases_loop(b, q8));
    match t {
        Token::Union { decl, cases, default } => {
            &&& p < q3 <= b.len() && decl_tree(b, q3, *decl)
            &&& p < q8 <= b.len() && cases_tree(b, q8, cases@)
            &&& p < q9 <= b.len() && default_tree(b, q9, *default)
        },
        _ => false,
    }
}

/// The union arms read from `q`, in order.
pub open spec fn cases_tree(b: Seq<u8>, q: int, cs: Seq<Token>) -> bool
    decreases b.len() - q, 8nat,
{
    match union_case_end(b, q) {
        Some(e) => if q < e <= b.len() {
            cs.len() > 0 && union_case_tree(b, q, cs[0]) && cases_tree(b, e, cs.skip(1))
        } else {
            cs.len() == 0
        },
        None => cs.len() == 0,
    }
}

/// The union arm read at `p`.
pub open spec fn union_case_tree(b: Seq<u8>, p: int, t: Token) -> bool
    decreases b.len() - p, 7nat,
{
    let q = space_run_end(b, p);
    let q1 = space_run_end(b, labels_loop(b, q));
    match t {
        Token::UnionCase { vals, decl } => labels_tree(b, q, vals@) && p <= q1 <= b.len() && decl_tree(b, q1, *decl),
        _ => false,
    }
}

/// The `case` labels read from `q`, in order.
pub open spec fn labels_tree(b: Seq<u8>, q: int, vs: Seq<Token>) -> bool
    decreases b.len() - q,
{
    match case_def_end(b, q) {
        Some(e) => if q < e <= b.len() {
            vs.len() > 0 && value_tree(b, space_run_end(b, q + "case".spec_bytes().len()), vs[0]) && labels_tree(b, e, vs.skip(1))
        } else {
            vs.len() == 0
        },
        None => vs.len() == 0,
    }
}

/// The default arm read at `p`, if there is one.
pub open spec fn default_tree(b: Seq<u8>, p: int, o: Option<Token>) -> bool
    decreases b.len() - p, 7nat,
{
    match default_end(b, p) {
        Some(_) => {
            let q2 = space_run_end(b, at(tag_end(b, space_run_end(b, p), "default:".spec_bytes()), p));
            o matches Some(d) && p <= q2 <= b.len() && decl_tree(b, q2, d)
        },
        None => o is None,
    }
}

/// The end of `name` and a bound after a type that ends at `q`.
pub open spec fn plain_end(b: Seq<u8>, q: int) -> Option<int> {
    match ms_end(b, q) {
        Some(q1) => match ident_end(b, q1) {
            Some(q2) => Some(q2),
            None => None,
        },
        None => None,
    }
}

/// The end of `* name` after a type that ends at `q`.
pub open spec fn pointer_end(b: Seq<u8>, q: int) -> Option<int> {
    match tag_end(b, space_run_end(b, q), "*".spec_bytes()) {
        Some(q1) => match ms_end(b, q1) {
            Some(q2) => ident_end(b, q2),
            None => None,
        },
        None => None,
    }
}

/// The declaration read at `p`.
pub open spec fn decl_tree(b: Seq<u8>, p: int, t: Token) -> bool
    decreases b.len() - p, 6nat,
{
    if named_end(b, p, "opaque".spec_bytes(), true) is Some {
        let q1 = at(ms_end(b, p + "opaque".spec_bytes().len()), p);
        let q2 = at(ident_end(b, q1), q1);
        if fixed_bound_end(b, q2) is Some {
            t matches Token::OpaqueDecl { id, size } && ident_tree(b, q1, *id) && fixed_bound_tree(b, q2, *size)
        } else {
            t matches Token::VarOpaqueDecl { id, size } && ident_tree(b, q1, *id) && var_bound_tree(b, q2, *size)
        }
    } else if named_end(b, p, "string".spec_bytes(), false) is Some {
        let q1 = at(ms_end(b, p + "string".spec_bytes().len()), p);
        let q2 = at(ident_end(b, q1), q1);
        t matches Token::StringDecl { id, size } && ident_tree(b, q1, *id) && var_bound_tree(b, q2, *size)
    } else if type_spec_end(b, p) is Some && (plain_end(b, at(type_spec_end(b, p), p)) is Some
        || pointer_end(b, at(type_spec_end(b, p), p)) is Some) {
        let q = at(type_spec_end(b, p), p);
        if plain_end(b, q) is Some {
            let q1 = at(ms_end(b, q), q);
            let q2 = at(ident_end(b, q1), q1);
            if fixed_bound_end(b, q2) is Some {
                t matches Token::ArrayDecl { ty, id, size } && type_tree(b, p, *ty) && ident_tree(b, q1, *id)
                    && fixed_bound_tree(b, q2, *size)
            } else if var_bound_end(b, q2) is Some {
                t matches Token::VarArrayDecl { ty, id, size } && type_tree(b, p, *ty) && ident_tree(b, q1, *id)
                    && var_bound_tree(b, q2, *size)
            } else {
                t matches Token::Decl { ty, id } && type_tree(b, p, *ty) && ident_tree(b, q1, *id)
            }
        } else {
            let q2 = at(ms_end(b, at(tag_end(b, space_run_end(b, q), "*".spec_bytes()), q)), q);
            t matches Token::PointerDecl { ty, id } && type_tree(b, p, *ty) && ident_tree(b, q2, *id)
        }
    } else {
        t == Token::VoidDecl
    }
}

/// The typedef read at `p`.
pub open spec fn typedef_alt_tree(b: Seq<u8>, p: int, t: Token) -> bool {
    t matches Token::TypeDef(d) && decl_tree(b, at(ms_end(b, p + "typedef".spec_bytes().len()), p), *d)
}

/// The enum definition read at `p`.
pub open spec fn enum_alt_tree(b: Seq<u8>, p: int, t: Token) -> bool {
    let q1 = at(ms_end(b, p + "enum".spec_bytes().len()), p);
    let q = at(def_head_end(b, p, "enum".spec_bytes()), p);
    t matches Token::EnumDef { id, decl } && ident_tree(b, q1, *id) && (*decl matches Token::Enum(kv) && enum_body_tree(b, q, kv@))
}

/// The union definition read at `p`.
pub open spec fn union_alt_tree(b: Seq<u8>, p: int, t: Token) -> bool {
    let q1 = at(ms_end(b, p + "union".spec_bytes().len()), p);
    let q = at(def_head_end(b, p, "union".spec_bytes()), p);
    t matches Token::UnionDef { id, decl } && ident_tree(b, q1, *id) && p < q <= b.len() && union_body_tree(b, q, *decl)
}

/// The struct definition read at `p`.
pub open spec fn struct_alt_tree(b: Seq<u8>, p: int, t: Token) -> bool {
    let q1 = at(ms_end(b, p + "struct".spec_bytes().len()), p);
    let q = at(def_head_end(b, p, "struct".spec_bytes()), p);
    t matches Token::StructDef { id, decl } && ident_tree(b, q1, *id) && p < q <= b.len()
        && (*decl matches Token::Struct(ds) && struct_body_tree(b, q, ds@))
}

/// The type definition read at `p`.
pub open spec fn type_def_tree(b: Seq<u8>, p: int, t: Token) -> bool {
    if typedef_alt_end(b, p) is Some {
        typedef_alt_tree(b, p, t)
    } else if enum_alt_end(b, p) is Some {
        enum_alt_tree(b, p, t)
    } else if union_alt_end(b, p) is Some {
        union_alt_tree(b, p, t)
    } else {
        struct_alt_tree(b, p, t)
    }
}

/// The constant definition read at `p`: the literal it defines.
pub open spec fn constant_def_tree(b: Seq<u8>, p: int, t: Token) -> bool {
    let q1 = at(ms_end(b, p + "const".spec_bytes().len()), p);
    let q2 = at(ident_end(b, q1), q1);
    let q3 = at(tag_end(b, space_run_end(b, q2), "=".spec_bytes()), q2);
    t matches Token::ConstantDef(c) && constant_tree(b, space_run_end(b, q3), *c)
}

/// The program read at `p`: its name and number, and its versions.
pub open spec fn program_def_tree(b: Seq<u8>, p: int, t: Token) -> bool {
    let q1 = at(ms_end(b, p + "program".spec_bytes().len()), p);
    t matches Token::Program { name, id, versions } && ident_tree(b, q1, *name) && (*id) is Constant
        && versions@.len() > 0 && forall|k: int| 0 <= k < versions@.len() ==> (#[trigger] versions@[k]) is Version
}

/// The top-level item read at `p`.
pub open spec fn expression_tree(b: Seq<u8>, p: int, t: Token) -> bool {
    if type_def_end(b, p) is Some {
        type_def_tree(b, p, t)
    } else if constant_def_end(b, p) is Some {
        constant_def_tree(b, p, t)
    } else if program_def_end(b, p) is Some {
        program_def_tree(b, p, t)
    } else if line_end(b, p, "//".spec_bytes()) is Some {
        t matches Token::Comment(c) && c@ == decode_utf8(b.subrange(p + "//".spec_bytes().len(), at(line_end(b, p, "//".spec_bytes()), p) - 1))
    } else if line_end(b, p, "%".spec_bytes()) is Some {
        t matches Token::CodeSnippet(c) && c@ == decode_utf8(b.subrange(p + "%".spec_bytes().len(), at(line_end(b, p, "%".spec_bytes()), p) - 1))
    } else {
        t == Token::Blank
    }
}

/// The top-level items read from `q`, in order.
pub open spec fn tokens_tree(b: Seq<u8>, q: int, ts: Seq<Token>) -> bool
    decreases b.len() - q,
{
    match expression_end(b, q) {
        Some(e) => if q < e <= b.len() {
            ts.len() > 0 && expression_tree(b, q, ts[0]) && tokens_tree(b, e, ts.skip(1))
        } else {
            ts.len() == 0
        },
        None => ts.len() == 0,
    }
}

/// The keyword that opens the source text of a top-level definition.
pub open spec fn def_keyword(t: Token) -> Seq<u8> {
    match t {
        Token::TypeDef(_) => "typedef".spec_bytes(),
        Token::EnumDef { .. } => "enum".spec_bytes(),
        Token::UnionDef { .. } => "union".spec_bytes(),
        Token::StructDef { .. } => "struct".spec_bytes(),
        Token::ConstantDef(_) => "const".spec_bytes(),
        _ => "program".spec_bytes(),
    }
}

/// Whether the bytes of `b` from `p` up to `e` are source text of the
/// top-level item `t`: whitespace for a blank, a whole line for a comment or
/// a passthrough line, and text that opens with the definition's keyword for
/// a definition.
pub open spec fn item_form(b: Seq<u8>, p: int, e: int, t: Token) -> bool {
    &&& 0 <= p < e <= b.len()
    &&& match t {
        Token::Blank => forall|i: int| p <= i < e ==> space_byte(#[trigger] b[i]),
        Token::Comment(c) => has_at(b, p, "//".spec_bytes()) && b[e - 1] == 0x0a
            && c@ == decode_utf8(b.subrange(p + "//".spec_bytes().len(), e - 1)),
        Token::CodeSnippet(c) => has_at(b, p, "%".spec_bytes()) && b[e - 1] == 0x0a
            && c@ == decode_utf8(b.subrange(p + "%".spec_bytes().len(), e - 1)),
        Token::TypeDef(_) | Token::EnumDef { .. } | Token::UnionDef { .. } | Token::StructDef { .. }
        | Token::ConstantDef(_) | Token::Program { .. } => has_at(b, p, def_keyword(t)),
        _ => false,
    }
}

/// Whether `ts` split `b` whole: the cuts start at 0, end at the length of
/// `b`, and the bytes between two cuts are the text of the token between them.
pub open spec fn covers(b: Seq<u8>, cuts: Seq<int>, ts: Seq<Token>) -> bool {
    &&& cuts.len() == ts.len() + 1
    &&& cuts[0] == 0
    &&& cuts.last() == b.len()
    &&& forall|k: int| 0 <= k < ts.len() ==> item_form(b, cuts[k], #[trigger] cuts[k + 1], ts[k])
}

/// Whether the top-level items `ts` are the whole of `b`, split at some cuts.
pub open spec fn split_whole(b: Seq<u8>, ts: Seq<Token>) -> bool {
    exists|cuts: Seq<int>| covers(b, cuts, ts)
}

/// `typedef` and a declaration.
#[verifier::rlimit(100)]
fn typedef_def(b: &[u8], p: usize) -> (r: Option<(Token, usize)>)
    requires
        p <= b.len(),
    ensures
        r matches Some((t, e)) ==> item_form(b@, p as int, e as int, t),
        end_is(r, typedef_alt_end(b@, p as int)),
        r matches Some((t, _)) ==> typedef_alt_tree(b@, p as int, t),
{
    if let Some(q) = tag(b, p, "typedef") {
        if let Some(q) = multispace(b, q) {
            if let Some((decl, q)) = declaration(b, q) {
                let q = opt_space(b, q);
                if let Some(e) = tag(b, q, ";") {
                    return Some((Token::TypeDef(Box::new(decl)), e));
                }
            }
        }
    }
    None
}

/// `enum`, a name and an enum body.
#[verifier::rlimit(100)]
fn enum_def(b: &[u8], p: usize) -> (r: Option<(Token, usize)>)
    requires
        p <= b.len(),
    ensures
        r matches Some((t, e)) ==> item_form(b@, p as int, e as int, t),
        end_is(r, enum_alt_end(b@, p as int)),
        r matches Some((t, _)) ==> enum_alt_tree(b@, p as int, t),
{
    if let Some(q) = tag(b, p, "enum") {
        if let Some(q) = multispace(b, q) {
            if let Some((id, q)) = identifier(b, q) {
                if let Some(q) = multispace(b, q) {
                    if let Some((kv, q)) = enum_body(b, q) {
                        let q = opt_space(b, q);
                        if let Some(e) = tag(b, q, ";") {
                            return Some((Token::EnumDef { id: Box::new(id), decl: Box::new(Token::Enum(kv)) }, e));
                        }
                    }
                }
            }
        }
    }
    None
}

/// `union`, a name and a union body.
#[verifier::rlimit(100)]
fn union_def(b: &[u8], p: usize) -> (r: Option<(Token, usize)>)
    requires
        p <= b.len(),
    ensures
        r matches Some((t, e)) ==> item_form(b@, p as int, e as int, t),
        end_is(r, union_alt_end(b@, p as int)),
        r matches Some((t, _)) ==> union_alt_tree(b@, p as int, t),
{
    if let Some(q) = tag(b, p, "union") {
        if let Some(q) = multispace(b, q) {
            if let Some((id, q)) = identifier(b, q) {
                if let Some(q) = multispace(b, q) {
                    if let Some((u, q)) = union_body(b, q) {
                        let q = opt_space(b, q);
                        if let Some(e) = tag(b, q, ";") {
                            return Some((Token::UnionDef { id: Box::new(id), decl: Box::new(u) }, e));
                        }
                    }
                }
            }
        }
    }
    None
}

/// `struct`, a name and a struct body.
#[verifier::rlimit(100)]
fn struct_def(b: &[u8], p: usize) -> (r: Option<(Token, usize)>)
    requires
        p <= b.len(),
    ensures
        r matches Some((t, e)) ==> item_form(b@, p as int, e as int, t),
        end_is(r, struct_alt_end(b@, p as int)),
        r matches Some((t, _)) ==> struct_alt_tree(b@, p as int, t),
{
    let q = tag(b, p, "struct")?;
    let q = multispace(b, q)?;
    let (id, q) = identifier(b, q)?;
    let q = multispace(b, q)?;
    let (decls, q) = struct_body(b, q)?;
    let q = opt_space(b, q);
    let q = tag(b, q, ";")?;
    let e = opt_space(b, q);
    Some((Token::StructDef { id: Box::new(id), decl: Box::new(Token::Struct(decls)) }, e))
}

/// A top-level type definition: `typedef`, `enum`, `union` or `struct`.
fn type_def(b: &[u8], p: usize) -> (r: Option<(Token, usize)>)
    requires
        p <= b.len(),
    ensures
        r matches Some((t, e)) ==> item_form(b@, p as int, e as int, t),
        end_is(r, type_def_end(b@, p as int)),
        r matches Some((t, _)) ==> type_def_tree(b@, p as int, t),
{
    if let Some(r) = typedef_def(b, p) {
        return Some(r);
    }
    if let Some(r) = enum_def(b, p) {
        return Some(r);
    }
    if let Some(r) = union_def(b, p) {
        return Some(r);
    }
    struct_def(b, p)
}

/// A constant definition: `const name = literal;`, with an optional comment after it.
fn constant_def(b: &[u8], p: usize) -> (r: Option<(Token, usize)>)
    requires
        p <= b.len(),
    ensures
        r matches Some((t, e)) ==> item_form(b@, p as int, e as int, t) && t is ConstantDef,
        end_is(r, constant_def_end(b@, p as int)),
        r matches Some((t, _)) ==> constant_def_tree(b@, p as int, t),
{
    let q = tag(b, p, "const")?;
    let q = multispace(b, q)?;
    let (_name, q) = identifier(b, q)?;
    let q = opt_space(b, q);
    let q = tag(b, q, "=")?;
    let q = opt_space(b, q);
    let (c, q) = constant(b, q)?;
    let q = opt_space(b, q);
    let q = tag(b, q, ";")?;
    let e = opt_inline_comment(b, q);
    Some((Token::ConstantDef(Box::new(c)), e))
}

/// The result type or an argument type of a procedure: `void` or a type.
fn proc_type(b: &[u8], p: usize) -> (r: Option<(Token, usize)>)
    requires
        p <= b.len(),
    ensures
        advances(r, p, b.len()),
        end_is(r, proc_type_end(b@, p as int)),
{
    match tag(b, p, "void") {
        Some(e) => Some((Token::VoidDecl, e)),
        None => type_specifier(b, p),
    }
}

/// One argument of a procedure: a type, optionally followed by a name.
fn proc_arg(b: &[u8], p: usize) -> (r: Option<(Token, usize)>)
    requires
        p <= b.len(),
    ensures
        advances(r, p, b.len()),
        end_is(r, proc_arg_end(b@, p as int)),
{
    let (ty, q) = proc_type(b, p)?;
    if let Some(q1) = multispace(b, q) {
        if let Some((_name, e)) = identifier(b, q1) {
            return Some((ty, e));
        }
    }
    Some((ty, q))
}

/// A procedure: `type name(arg, ...) = number;`.
#[verifier::rlimit(80)]
fn proc_def(b: &[u8], p: usize) -> (r: Option<(Token, usize)>)
    requires
        p <= b.len(),
    ensures
        advances(r, p, b.len()),
        r matches Some((t, _)) ==> t is Proc,
        end_is(r, proc_def_end(b@, p as int)),
{
    let q = opt_space(b, p);
    let (ret, q) = proc_type(b, q)?;
    let q = multispace(b, q)?;
    let (name, q) = identifier(b, q)?;
    let q = opt_space(b, q);
    let q = tag(b, q, "(")?;
    let q = opt_space(b, q);
    let (first, q) = proc_arg(b, q)?;
    let mut args: Vec<Token> = Vec::new();
    args.push(first);
    let mut q = q;
    let ghost start = q as int;
    loop
        invariant
            args_loop(b@, start) == args_loop(b@, q as int),
            p < q <= b.len(),
        ensures
            args_loop(b@, start) == q as int,
            p < q <= b.len(),
        decreases b.len() - q,
    {
        let q1 = opt_space(b, q);
        let q1 = match tag(b, q1, ",") {
            Some(q1) => q1,
            None => break,
        };
        let q1 = opt_space(b, q1);
        match proc_arg(b, q1) {
            Some((a, e)) => {
                args.push(a);
                q = e;
            },
            None => break,
        }
    }
    let q = opt_space(b, q);
    let q = tag(b, q, ")")?;
    let q = opt_space(b, q);
    let q = tag(b, q, "=")?;
    let q = opt_space(b, q);
    let (id, q) = constant(b, q)?;
    let q = opt_space(b, q);
    let q = tag(b, q, ";")?;
    let e = trailer(b, q);
    Some((Token::Proc { return_type: Box::new(ret), name: Box::new(name), arg_types: args, id: Box::new(id) }, e))
}

/// A version of a program: `version NAME { procedures } = number;`.
#[verifier::rlimit(80)]
fn version_def(b: &[u8], p: usize) -> (r: Option<(Token, usize)>)
    requires
        p <= b.len(),
    ensures
        advances(r, p, b.len()),
        r matches Some((t, _)) ==> t is Version,
        end_is(r, version_def_end(b@, p as int)),
{
    let q = opt_space(b, p);
    let q = tag(b, q, "version")?;
    let q = multispace(b, q)?;
    let (name, q) = identifier(b, q)?;
    let q = opt_space(b, q);
    let mut q = tag(b, q, "{")?;
    let mut procs: Vec<Token> = Vec::new();
    let q0 = q;
    let ghost start = q as int;
    loop
        invariant
            procs_loop(b@, start) == procs_loop(b@, q as int),
            p < q <= b.len(),
        ensures
            procs_loop(b@, start) == q as int,
            p < q <= b.len(),
        decreases b.len() - q,
    {
        match proc_def(b, q) {
            Some((t, e)) => {
                procs.push(t);
                q = e;
            },
            None => break,
        }
    }
    if q == q0 {
        return None;
    }
    let q = opt_space(b, q);
    let q = tag(b, q, "}")?;
    let q = opt_space(b, q);
    let q = tag(b, q, "=")?;
    let q = opt_space(b, q);
    let (id, q) = constant(b, q)?;
    let q = opt_space(b, q);
    let q = tag(b, q, ";")?;
    let e = trailer(b, q);
    Some((Token::Version { name: Box::new(name), id: Box::new(id), procs }, e))
}

/// A program: `program NAME { versions } = number;`.
#[verifier::rlimit(80)]
fn program_def(b: &[u8], p: usize) -> (r: Option<(Token, usize)>)
    requires
        p <= b.len(),
    ensures
        r matches Some((t, e)) ==> item_form(b@, p as int, e as int, t) && t is Program,
        end_is(r, program_def_end(b@, p as int)),
        r matches Some((t, _)) ==> program_def_tree(b@, p as int, t),
{
    let q = tag(b, p, "program")?;
    let q = multispace(b, q)?;
    let (name, q) = identifier(b, q)?;
    let q = opt_space(b, q);
    let mut q = tag(b, q, "{")?;
    let mut versions: Vec<Token> = Vec::new();
    let q0 = q;
    let ghost start = q as int;
    loop
        invariant
            forall|k: int| 0 <= k < versions@.len() ==> (#[trigger] versions@[k]) is Version,
            versions@.len() == 0 ==> q == q0,
            versions_loop(b@, start) == versions_loop(b@, q as int),
            p < q <= b.len(),
        ensures
            forall|k: int| 0 <= k < versions@.len() ==> (#[trigger] versions@[k]) is Version,
            versions@.len() == 0 ==> q == q0,
            versions_loop(b@, start) == q as int,
            p < q <= b.len(),
        decreases b.len() - q,
    {
        match version_def(b, q) {
            Some((t, e)) => {
                versions.push(t);
                q = e;
            },
            None => break,
        }
    }
    if q == q0 {
        return None;
    }
    let q = opt_space(b, q);
    let q = tag(b, q, "}")?;
    let q = opt_space(b, q);
    let q = tag(b, q, "=")?;
    let q = opt_space(b, q);
    let (id, q) = constant(b, q)?;
    let q = opt_space(b, q);
    let e = tag(b, q, ";")?;
    Some((Token::Program { name: Box::new(name), id: Box::new(id), versions }, e))
}

/// One top-level item: a definition, a program, a comment line, a
/// passthrough line or a run of whitespace, tried in that order.
pub fn expression(b: &[u8], p: usize) -> (r: Option<(Token, usize)>)
    requires
        p <= b.len(),
    ensures
        r matches Some((t, e)) ==> item_form(b@, p as int, e as int, t),
        end_is(r, expression_end(b@, p as int)),
        r matches Some((t, _)) ==> expression_tree(b@, p as int, t),
{
    if let Some(r) = type_def(b, p) {
        return Some(r);
    }
    if let Some(r) = constant_def(b, p) {
        return Some(r);
    }
    if let Some(r) = program_def(b, p) {
        return Some(r);
    }
    if let Some(r) = line_token(b, p, "//", false) {
        return Some(r);
    }
    if let Some(r) = line_token(b, p, "%", true) {
        return Some(r);
    }
    let e = multispace(b, p)?;
    Some((Token::Blank, e))
}

/// Reads top-level items from the start for as long as one can be read.
/// The result holds the items and the position where reading stopped.
pub fn tokenize(b: &[u8]) -> (r: (Vec<Token>, usize))
    ensures
        r.1 <= b.len(),
        r.1 == tokenize_end(b@, 0),
        r.1 == b.len() ==> split_whole(b@, r.0@),
        tokens_tree(b@, 0, r.0@),
{
    let mut ts: Vec<Token> = Vec::new();
    let mut q: usize = 0;
    let ghost mut cuts: Seq<int> = seq![0int];
    proof {
        assert forall|rest: Seq<Token>| #[trigger] tokens_tree(b@, 0, rest) implies tokens_tree(b@, 0, ts@ + rest) by {
            assert(ts@ + rest =~= rest);
        }
    }
    loop
        invariant
            q <= b.len(),
            cuts.len() == ts.len() + 1,
            cuts[0] == 0,
            cuts.last() == q,
            forall|k: int| 0 <= k < ts.len() ==> item_form(b@, cuts[k], #[trigger] cuts[k + 1], ts@[k]),
            tokenize_end(b@, 0) == tokenize_end(b@, q as int),
            forall|rest: Seq<Token>| #[trigger] tokens_tree(b@, q as int, rest) ==> tokens_tree(b@, 0, ts@ + rest),
        ensures
            tokens_tree(b@, 0, ts@),
            q <= b.len(),
            cuts.len() == ts.len() + 1,
            cuts[0] == 0,
            cuts.last() == q,
            forall|k: int| 0 <= k < ts.len() ==> item_form(b@, cuts[k], #[trigger] cuts[k + 1], ts@[k]),
            tokenize_end(b@, 0) == q as int,
        decreases b.len() - q,
    {
        match expression(b, q) {
            Some((t, e)) => {
                proof {
                    let old_cuts = cuts;
                    cuts = cuts.push(e as int);
                    assert forall|k: int| 0 <= k < ts.len() + 1 implies item_form(b@, cuts[k], #[trigger] cuts[k + 1], ts@.push(t)[k]) by {
                        if k < ts.len() {
                            assert(cuts[k] == old_cuts[k]);
                            assert(cuts[k + 1] == old_cuts[k + 1]);
                        }
                    }
                }
                let ghost q_old = q as int;
                let ghost out_old = ts@;
                let ghost x = t;
                ts.push(t);
                proof {
                    assert forall|rest: Seq<Token>| #[trigger] tokens_tree(b@, e as int, rest) implies tokens_tree(b@, 0, ts@ + rest) by {
                        let r2 = seq![x] + rest;
                        assert(r2[0] == x);
                        assert(r2.skip(1) =~= rest);
                        assert(tokens_tree(b@, q_old, r2));
                        assert(out_old + r2 =~= ts@ + rest);
                    }
                }
                q = e;
            },
            None => {
                proof {
                    assert(tokens_tree(b@, q as int, Seq::empty()));
                    assert(ts@ + Seq::<Token>::empty() =~= ts@);
                }
                break;
            },
        }
    }
    proof {
        if q == b.len() {
            assert(covers(b@, cuts, ts@));
            assert(split_whole(b@, ts@));
        }
    }
    (ts, q)
}

/// Parses a whole source. There is a result exactly when the grammar reads
/// the input to its last byte; no partial tree is returned. `debug` asks the
/// caller to show the tree; the library itself prints nothing.
pub fn parse(i: &[u8], debug: bool) -> (r: Option<Vec<Token>>)
    ensures
        r is Some <==> accepts(i@),
        r matches Some(ts) ==> tokens_tree(i@, 0, ts@),
        r matches Some(ts) ==> split_whole(i@, ts@),
{
    let (ts, end) = tokenize(i);
    if end == i.len() {
        Some(ts)
    } else {
        None
    }
}

} // verus!

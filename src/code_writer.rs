//! A sink for generated Rust source: it writes lines, opens and closes
//! indented blocks, and declares fields and variants. The text stays in memory.
use vstd::prelude::*;

verus! {

/// Two spaces for each level of `level`.
pub open spec fn pad(level: nat) -> Seq<char> {
    Seq::new(2 * level, |i: int| ' ')
}

/// A line at `level`: indentation, the text and a newline. An empty line has
/// no indentation.
pub open spec fn line(level: nat, s: Seq<char>) -> Seq<char> {
    if s.len() == 0 {
        seq!['\n']
    } else {
        pad(level) + s + seq!['\n']
    }
}

/// `items` separated by `sep`.
pub open spec fn join(items: Seq<Seq<char>>, sep: Seq<char>) -> Seq<char>
    decreases items.len(),
{
    if items.len() == 0 {
        Seq::empty()
    } else if items.len() == 1 {
        items[0]
    } else {
        join(items.drop_last(), sep) + sep + items.last()
    }
}

/// The lines that open a generated item: a blank line, the derive line and
/// `keyword name {`.
pub open spec fn item_head(level: nat, keyword: Seq<char>, name: Seq<char>) -> Seq<char> {
    line(level, ""@) + line(level, "#[derive(Serialize, Deserialize, PartialEq, Debug)]"@) + line(
        level,
        keyword + name + " {"@,
    )
}

/// The decimal digit for `d < 10`.
pub open spec fn digit_char(d: nat) -> char {
    if d == 0 { '0' } else if d == 1 { '1' } else if d == 2 { '2' } else if d == 3 { '3' }
    else if d == 4 { '4' } else if d == 5 { '5' } else if d == 6 { '6' } else if d == 7 { '7' }
    else if d == 8 { '8' } else { '9' }
}

/// The decimal digits of `n`, most significant first.
pub open spec fn digits(n: nat) -> Seq<char>
    decreases n,
{
    if n < 10 {
        seq![digit_char(n)]
    } else {
        digits(n / 10).push(digit_char(n % 10))
    }
}

/// The decimal notation of `n`, with a leading `-` when it is negative.
pub open spec fn dec(n: int) -> Seq<char> {
    if n < 0 {
        seq!['-'] + digits((-n) as nat)
    } else {
        digits(n as nat)
    }
}

fn digit(d: u64) -> (c: char)
    requires
        d < 10,
    ensures
        c == digit_char(d as nat),
{
    match d {
        0 => '0',
        1 => '1',
        2 => '2',
        3 => '3',
        4 => '4',
        5 => '5',
        6 => '6',
        7 => '7',
        8 => '8',
        _ => '9',
    }
}

pub(crate) fn push_digits(s: &mut String, m: u64)
    ensures
        final(s)@ == old(s)@ + digits(m as nat),
    decreases m,
{
    if m >= 10 {
        push_digits(s, m / 10);
    }
    push_char(s, digit(m % 10));
    assert(final(s)@ =~= old(s)@ + digits(m as nat));
}

/// Appends the decimal notation of `n` to `s`.
pub fn push_decimal(s: &mut String, n: i64)
    ensures
        final(s)@ == old(s)@ + dec(n as int),
{
    if n < 0 {
        push_char(s, '-');
        let m: u64 = (0 - (n as i128)) as u64;
        push_digits(s, m);
        assert(final(s)@ =~= old(s)@ + dec(n as int));
    } else {
        push_digits(s, n as u64);
    }
}

/// Appends `items` separated by `sep` to `t`.
pub fn push_joined(t: &mut String, items: &Vec<String>, sep: &str)
    ensures
        final(t)@ == old(t)@ + join(views(items@), sep@),
{
    let ghost t0 = t@;
    let mut i: usize = 0;
    while i < items.len()
        invariant
            i <= items.len(),
            t@ == t0 + join(views(items@.take(i as int)), sep@),
            t0 == old(t)@,
        decreases items.len() - i,
    {
        let ghost before = t@;
        if i > 0 {
            t.append(sep);
        }
        t.append(items[i].as_str());
        proof {
            let a = views(items@.take(i as int));
            let b = views(items@.take(i + 1));
            assert(b.drop_last() =~= a);
            assert(b.last() == items@[i as int]@);
            if i == 0 {
                assert(t@ =~= t0 + join(b, sep@));
            } else {
                assert(t@ =~= t0 + join(b, sep@));
            }
        }
        i = i + 1;
    }
    assert(items@.take(items.len() as int) =~= items@);
}

/// The request variant of a procedure: its name, then its argument types
/// in parentheses when it has any, then a comma.
pub open spec fn request_variant(name: Seq<char>, args: Seq<Seq<char>>) -> Seq<char> {
    if args.len() != 0 {
        name + "("@ + join(args, ", "@) + "),"@
    } else {
        name + ","@
    }
}

/// The head of a match arm that binds `fields`.
pub open spec fn arm_head(pattern: Seq<char>, fields: Seq<Seq<char>>) -> Seq<char> {
    if fields.len() > 0 {
        pattern + "("@ + join(fields, ", "@) + ") => {"@
    } else {
        pattern + " => {"@
    }
}

/// The first line of the dispatch operation of a service trait.
pub open spec fn dispatch_head() -> Seq<char> {
    "fn call(&self, req: Self::Request) -> Self::Future"@ + " {"@
}

/// The views of a list of strings.
pub open spec fn views(v: Seq<String>) -> Seq<Seq<char>> {
    v.map_values(|s: String| s@)
}

/// Relies on `String::push`: the character is appended.
#[verifier::external_body]
pub(crate) fn push_char(s: &mut String, c: char)
    ensures
        final(s)@ == old(s)@.push(c),
{
    s.push(c)
}

/// A writer of generated source. Its text grows only at the end; `depth` is
/// the number of open indentation levels.
pub struct CodeWriter {
    out: String,
    level: usize,
}

impl CodeWriter {
    /// The text written so far.
    pub closed spec fn text(&self) -> Seq<char> {
        self.out@
    }

    /// The current indentation level.
    pub closed spec fn depth(&self) -> nat {
        self.level as nat
    }

    /// An empty writer at level zero.
    pub fn new() -> (r: CodeWriter)
        ensures
            r.text() == Seq::<char>::empty(),
            r.depth() == 0,
    {
        CodeWriter { out: String::new(), level: 0 }
    }

    /// The text written so far.
    pub fn output(&self) -> (r: &String)
        ensures
            r@ == self.text(),
    {
        &self.out
    }

    /// Opens one more level of indentation.
    pub fn indented(&mut self)
        requires
            old(self).depth() < usize::MAX,
        ensures
            final(self).text() == old(self).text(),
            final(self).depth() == old(self).depth() + 1,
    {
        self.level = self.level + 1;
    }

    /// Closes the innermost level of indentation.
    pub fn outdented(&mut self)
        requires
            old(self).depth() > 0,
        ensures
            final(self).text() == old(self).text(),
            final(self).depth() == old(self).depth() - 1,
    {
        self.level = self.level - 1;
    }

    fn write_pad(&mut self)
        ensures
            final(self).text() == old(self).text() + pad(old(self).depth()),
            final(self).depth() == old(self).depth(),
    {
        let ghost start = self.out@;
        let mut i: usize = 0;
        while i < self.level
            invariant
                i <= self.level,
                self.level == old(self).level,
                self.out@ == start + pad(i as nat),
                start == old(self).out@,
            decreases self.level - i,
        {
            proof {
                reveal_strlit("  ");
            }
            self.out.append("  ");
            assert(pad((i + 1) as nat) =~= pad(i as nat) + "  "@);
            i = i + 1;
        }
    }

    /// Writes `line` at the current indentation, with no newline.
    pub fn write(&mut self, line: &str)
        ensures
            final(self).text() == old(self).text() + pad(old(self).depth()) + line@,
            final(self).depth() == old(self).depth(),
    {
        self.write_pad();
        self.out.append(line);
    }

    /// Writes `text` as it is.
    pub fn raw_write(&mut self, text: &str)
        ensures
            final(self).text() == old(self).text() + text@,
            final(self).depth() == old(self).depth(),
    {
        self.out.append(text);
    }

    /// Writes `s` as a line at the current indentation; an empty `s` gives a
    /// bare newline.
    pub fn write_line(&mut self, s: &str)
        ensures
            final(self).text() == old(self).text() + line(old(self).depth(), s@),
            final(self).depth() == old(self).depth(),
    {
        proof {
            reveal_strlit("\n");
        }
        if s.is_empty() {
            self.out.append("\n");
            assert("\n"@ =~= seq!['\n']);
        } else {
            let ghost t0 = self.out@;
            self.write_pad();
            self.out.append(s);
            self.out.append("\n");
            assert(self.out@ =~= t0 + (pad(self.depth()) + s@ + seq!['\n']));
        }
    }

    /// Writes a comment line: `//`, then a space and `comment` unless it is empty.
    pub fn comment(&mut self, comment: &str)
        ensures
            final(self).text() == old(self).text() + line(
                old(self).depth(),
                if comment@.len() == 0 { "//"@ } else { "// "@ + comment@ },
            ),
            final(self).depth() == old(self).depth(),
    {
        if comment.is_empty() {
            self.write_line("//");
        } else {
            let mut t = String::from_str("// ");
            t.append(comment);
            self.write_line(t.as_str());
        }
    }

    /// Writes the header that opens every generated file.
    pub fn write_header(&mut self)
        ensures
            final(self).text() == old(self).text() + line(old(self).depth(), "// autogenerated by xdrust"@)
                + line(old(self).depth(), "#[allow(dead_code)]"@) + line(old(self).depth(), ""@),
            final(self).depth() == old(self).depth(),
    {
        proof {
            reveal_strlit("autogenerated by xdrust");
            reveal_strlit("// ");
            reveal_strlit("// autogenerated by xdrust");
        }
        self.comment("autogenerated by xdrust");
        assert("// "@ + "autogenerated by xdrust"@ =~= "// autogenerated by xdrust"@);
        self.write_line("#[allow(dead_code)]");
        self.write_line("");
    }

    /// Writes `first_line` and opens a level of indentation.
    pub fn block(&mut self, first_line: &str)
        requires
            old(self).depth() < usize::MAX,
        ensures
            final(self).text() == old(self).text() + line(old(self).depth(), first_line@),
            final(self).depth() == old(self).depth() + 1,
    {
        self.write_line(first_line);
        self.indented();
    }

    /// Closes a level of indentation and writes `last_line`.
    pub fn close_block(&mut self, last_line: &str)
        requires
            old(self).depth() > 0,
        ensures
            final(self).text() == old(self).text() + line((old(self).depth() - 1) as nat, last_line@),
            final(self).depth() == old(self).depth() - 1,
    {
        self.outdented();
        self.write_line(last_line);
    }

    /// Opens a braced block: `prefix {`.
    pub fn expr_block(&mut self, prefix: &str)
        requires
            old(self).depth() < usize::MAX,
        ensures
            final(self).text() == old(self).text() + line(old(self).depth(), prefix@ + " {"@),
            final(self).depth() == old(self).depth() + 1,
    {
        let mut t = String::from_str(prefix);
        t.append(" {");
        self.block(t.as_str());
    }

    /// Closes a braced block with `}`.
    pub fn end_block(&mut self)
        requires
            old(self).depth() > 0,
        ensures
            final(self).text() == old(self).text() + line((old(self).depth() - 1) as nat, "}"@),
            final(self).depth() == old(self).depth() - 1,
    {
        self.close_block("}");
    }

    /// Opens a type alias: `pub type name = `, to be followed by the aliased type.
    pub fn alias(&mut self, name: &str)
        ensures
            final(self).text() == old(self).text() + pad(old(self).depth()) + ("pub type "@ + name@ + " = "@),
            final(self).depth() == old(self).depth(),
    {
        let mut t = String::from_str("pub type ");
        t.append(name);
        t.append(" = ");
        self.write(t.as_str());
    }

    /// Ends a type alias with `;` and a newline.
    pub fn end_alias(&mut self)
        ensures
            final(self).text() == old(self).text() + ";\n"@,
            final(self).depth() == old(self).depth(),
    {
        self.raw_write(";\n");
    }

    fn open_item(&mut self, keyword: &str, name: &str)
        requires
            old(self).depth() < usize::MAX,
        ensures
            final(self).text() == old(self).text() + item_head(old(self).depth(), keyword@, name@),
            final(self).depth() == old(self).depth() + 1,
    {
        self.write_line("");
        self.write_line("#[derive(Serialize, Deserialize, PartialEq, Debug)]");
        let mut t = String::from_str(keyword);
        t.append(name);
        self.expr_block(t.as_str());
    }

    /// Opens the declaration of a public enum.
    pub fn pub_enum(&mut self, name: &str)
        requires
            old(self).depth() < usize::MAX,
        ensures
            final(self).text() == old(self).text() + item_head(old(self).depth(), "pub enum "@, name@),
            final(self).depth() == old(self).depth() + 1,
    {
        self.open_item("pub enum ", name);
    }

    /// Opens the declaration of a public struct.
    pub fn pub_struct(&mut self, name: &str)
        requires
            old(self).depth() < usize::MAX,
        ensures
            final(self).text() == old(self).text() + item_head(old(self).depth(), "pub struct "@, name@),
            final(self).depth() == old(self).depth() + 1,
    {
        self.open_item("pub struct ", name);
    }

    /// Opens a module: `pub mod name {`.
    pub fn namespace(&mut self, name: &str)
        requires
            old(self).depth() < usize::MAX,
        ensures
            final(self).text() == old(self).text() + line(old(self).depth(), "pub mod "@ + name@ + " {"@),
            final(self).depth() == old(self).depth() + 1,
    {
        let mut t = String::from_str("pub mod ");
        t.append(name);
        self.expr_block(t.as_str());
    }

    /// Writes `Vec<type_>` at the current indentation.
    pub fn var_vec(&mut self, type_: &str)
        ensures
            final(self).text() == old(self).text() + pad(old(self).depth()) + ("Vec<"@ + type_@ + ">"@),
            final(self).depth() == old(self).depth(),
    {
        let mut t = String::from_str("Vec<");
        t.append(type_);
        t.append(">");
        self.write(t.as_str());
    }

    /// Opens a struct-like variant: `name {`.
    pub fn enum_struct_decl(&mut self, name: &str)
        requires
            old(self).depth() < usize::MAX,
        ensures
            final(self).text() == old(self).text() + line(old(self).depth(), name@ + " {"@),
            final(self).depth() == old(self).depth() + 1,
    {
        self.expr_block(name);
    }

    /// Closes a struct-like variant with `},`.
    pub fn end_enum_struct(&mut self)
        requires
            old(self).depth() > 0,
        ensures
            final(self).text() == old(self).text() + line((old(self).depth() - 1) as nat, "},"@),
            final(self).depth() == old(self).depth() - 1,
    {
        self.close_block("},");
    }

    /// Writes a unit variant, `name,`, or one with an explicit value, `name = val,`.
    pub fn enum_decl(&mut self, name: &str, val: &str)
        ensures
            final(self).text() == old(self).text() + line(
                old(self).depth(),
                if val@.len() == 0 { name@ + ","@ } else { name@ + " = "@ + val@ + ","@ },
            ),
            final(self).depth() == old(self).depth(),
    {
        let mut t = String::from_str(name);
        if val.is_empty() {
            t.append(",");
        } else {
            t.append(" = ");
            t.append(val);
            t.append(",");
        }
        self.write_line(t.as_str());
    }

    /// Writes a public field: `pub name: field_type,`.
    pub fn pub_field_decl(&mut self, name: &str, field_type: &str)
        ensures
            final(self).text() == old(self).text() + line(old(self).depth(), "pub "@ + name@ + ": "@ + field_type@ + ","@),
            final(self).depth() == old(self).depth(),
    {
        let mut t = String::from_str("pub ");
        t.append(name);
        t.append(": ");
        t.append(field_type);
        t.append(",");
        self.write_line(t.as_str());
    }

    /// Writes a field of a variant: `name: field_type,`.
    pub fn field_decl(&mut self, name: &str, field_type: &str)
        ensures
            final(self).text() == old(self).text() + line(old(self).depth(), name@ + ": "@ + field_type@ + ","@),
            final(self).depth() == old(self).depth(),
    {
        let mut t = String::from_str(name);
        t.append(": ");
        t.append(field_type);
        t.append(",");
        self.write_line(t.as_str());
    }

    /// Opens the request enum of one version of a program: `pub enum {prog}RequestV{ver} {`.
    pub fn program_version_request(&mut self, prog_name: &str, ver_num: i64)
        requires
            old(self).depth() < usize::MAX,
        ensures
            final(self).text() == old(self).text() + line(
                old(self).depth(),
                "pub enum "@ + prog_name@ + "RequestV"@ + dec(ver_num as int) + " {"@,
            ),
            final(self).depth() == old(self).depth() + 1,
    {
        let mut t = String::from_str("pub enum ");
        t.append(prog_name);
        t.append("RequestV");
        push_decimal(&mut t, ver_num);
        self.expr_block(t.as_str());
    }

    /// Opens the response enum of one version of a program: `pub enum {prog}ResponseV{ver} {`.
    pub fn program_version_response(&mut self, prog_name: &str, ver_num: i64)
        requires
            old(self).depth() < usize::MAX,
        ensures
            final(self).text() == old(self).text() + line(
                old(self).depth(),
                "pub enum "@ + prog_name@ + "ResponseV"@ + dec(ver_num as int) + " {"@,
            ),
            final(self).depth() == old(self).depth() + 1,
    {
        let mut t = String::from_str("pub enum ");
        t.append(prog_name);
        t.append("ResponseV");
        push_decimal(&mut t, ver_num);
        self.expr_block(t.as_str());
    }

    /// Writes the request variant of a procedure: `name,` or `name(arg, ...),`.
    pub fn version_proc_request(&mut self, name: &str, args: &Vec<String>)
        ensures
            final(self).text() == old(self).text() + line(old(self).depth(), request_variant(name@, views(args@))),
            final(self).depth() == old(self).depth(),
    {
        let mut t = String::from_str(name);
        assert(views(args@).len() == args@.len());
        if args.len() > 0 {
            t.append("(");
            push_joined(&mut t, args, ", ");
            t.append("),");
            assert(t@ =~= name@ + "("@ + join(views(args@), ", "@) + "),"@);
        } else {
            t.append(",");
        }
        self.write_line(t.as_str());
    }

    /// Writes the response variant of a procedure: `name,` or `name(ret),`.
    pub fn version_proc_response(&mut self, name: &str, ret: Option<String>)
        ensures
            final(self).text() == old(self).text() + line(
                old(self).depth(),
                match ret {
                    Some(r) => name@ + "("@ + r@ + "),"@,
                    None => name@ + ","@,
                },
            ),
            final(self).depth() == old(self).depth(),
    {
        let mut t = String::from_str(name);
        match ret {
            Some(r) => {
                t.append("(");
                t.append(r.as_str());
                t.append("),");
            },
            None => {
                t.append(",");
            },
        }
        self.write_line(t.as_str());
    }

    /// Writes a tuple variant of one field: `name(inner),`.
    pub fn enum_tuple_decl(&mut self, name: &str, inner: &str)
        ensures
            final(self).text() == old(self).text() + line(old(self).depth(), name@ + "("@ + inner@ + "),"@),
            final(self).depth() == old(self).depth(),
    {
        let mut t = String::from_str(name);
        t.append("(");
        t.append(inner);
        t.append("),");
        self.write_line(t.as_str());
    }

    /// Opens a match arm: `pattern => {` or `pattern(field, ...) => {`.
    pub fn match_option(&mut self, pattern: &str, fields: &Vec<String>)
        requires
            old(self).depth() < usize::MAX,
        ensures
            final(self).text() == old(self).text() + line(old(self).depth(), arm_head(pattern@, views(fields@))),
            final(self).depth() == old(self).depth() + 1,
    {
        let mut t = String::from_str(pattern);
        assert(views(fields@).len() == fields@.len());
        if fields.len() > 0 {
            t.append("(");
            push_joined(&mut t, fields, ", ");
            t.append(") => {");
            assert(t@ =~= pattern@ + "("@ + join(views(fields@), ", "@) + ") => {"@);
        } else {
            t.append(" => {");
        }
        self.block(t.as_str());
    }

    /// Closes a match arm with `},`.
    pub fn end_match_option(&mut self)
        requires
            old(self).depth() > 0,
        ensures
            final(self).text() == old(self).text() + line((old(self).depth() - 1) as nat, "},"@),
            final(self).depth() == old(self).depth() - 1,
    {
        self.close_block("},");
    }

    /// Opens a match: `match expr {`.
    pub fn match_block(&mut self, expr: &str)
        requires
            old(self).depth() < usize::MAX,
        ensures
            final(self).text() == old(self).text() + line(old(self).depth(), "match "@ + expr@ + " {"@),
            final(self).depth() == old(self).depth() + 1,
    {
        let mut t = String::from_str("match ");
        t.append(expr);
        self.expr_block(t.as_str());
    }

    /// Writes `fields` separated by commas, as they are.
    pub fn comma_fields(&mut self, fields: &Vec<String>)
        ensures
            final(self).text() == old(self).text() + join(views(fields@), ", "@),
            final(self).depth() == old(self).depth(),
    {
        let mut t = String::new();
        push_joined(&mut t, fields, ", ");
        self.raw_write(t.as_str());
        assert(t@ =~= Seq::<char>::empty() + join(views(fields@), ", "@));
    }

    /// Opens the dispatch trait of a program: `pub trait name {`.
    pub fn program_version_service(&mut self, name: &str)
        requires
            old(self).depth() < usize::MAX,
        ensures
            final(self).text() == old(self).text() + line(old(self).depth(), "pub trait "@ + name@ + " {"@),
            final(self).depth() == old(self).depth() + 1,
    {
        let mut t = String::from_str("pub trait ");
        t.append(name);
        self.expr_block(t.as_str());
    }

    /// Opens the dispatch operation of a service trait.
    pub fn dispatch_function(&mut self)
        requires
            old(self).depth() < usize::MAX,
        ensures
            final(self).text() == old(self).text() + line(old(self).depth(), dispatch_head()),
            final(self).depth() == old(self).depth() + 1,
    {
        self.expr_block("fn call(&self, req: Self::Request) -> Self::Future");
    }

} // impl CodeWriter

} // verus!

//! Code generation: record declarations in Rust from the schema's module tree.
use heck::CamelCase;
use vstd::prelude::*;
use vstd::string::StringExecFns;

use crate::ast;
use crate::schema::{decimal, usize_to_decimal};

verus! {

/// Options of code generation.
pub struct Config {
    /// A dotted package put in front of each file's own package.
    pub package_prefix: Option<String>,
    /// Where the generated code is written.
    pub output_file: Option<String>,
    /// Traits derived on each record besides `Clone`, `Debug` and `Message`.
    pub additional_traits: Vec<String>,
}

impl Config {
    /// No prefix, the default output place, no extra traits.
    pub fn new() -> (r: Config)
        ensures
            r.package_prefix is None,
            r.output_file is None,
            r.additional_traits@.len() == 0,
    {
        Config { package_prefix: None, output_file: None, additional_traits: Vec::new() }
    }
}

/// Appends the text `s`.
pub(crate) fn append(buf: &mut String, s: &str)
    ensures
        final(buf)@ == old(buf)@ + s@,
{
    buf.append(s);
}

/// What heck's upper camel case makes of `s`.
pub uninterp spec fn camel_case_of(s: Seq<char>) -> Seq<char>;

/// Relies on `heck::CamelCase::to_camel_case`, which depends on the text alone.
#[verifier::external_body]
fn to_camel_case(s: &str) -> (r: String)
    ensures
        r@ == camel_case_of(s@),
{
    s.to_camel_case()
}

/// The strings `v` in ascending order, as `sort` leaves them.
pub uninterp spec fn sorted_of(v: Seq<Seq<char>>) -> Seq<Seq<char>>;

/// The texts of a list of strings.
pub open spec fn texts(v: Seq<String>) -> Seq<Seq<char>> {
    v.map_values(|s: String| s@)
}

/// Relies on `slice::sort` on strings, which orders them by their bytes.
#[verifier::external_body]
fn sort_strings(v: &mut Vec<String>)
    ensures
        texts(final(v)@) == sorted_of(texts(old(v)@)),
{
    v.sort()
}

/// `name` without a trailing `_t`.
pub open spec fn strip_t(name: Seq<char>) -> Seq<char> {
    if name.len() >= 2 && name[name.len() - 2] == '_' && name[name.len() - 1] == 't' {
        name.subrange(0, name.len() - 2)
    } else {
        name
    }
}

/// The Rust name of a record: camel case, without a trailing `_t`.
pub open spec fn struct_name_of(name: Seq<char>) -> Seq<char> {
    camel_case_of(strip_t(name))
}

/// Converts a record name to Rust conventions: camel case, without the
/// trailing `_t` of C and LCM names.
pub fn make_struct_name(name: &str) -> (r: String)
    ensures
        r@ == struct_name_of(name@),
{
    let n = name.unicode_len();
    if n >= 2 && name.get_char(n - 2) == '_' && name.get_char(n - 1) == 't' {
        to_camel_case(name.substring_char(0, n - 2))
    } else {
        to_camel_case(name)
    }
}

/// The namespace path `ns` written as `a::b::`.
pub open spec fn path_text(ns: Seq<ast::Namespace>) -> Seq<char>
    decreases ns.len(),
{
    if ns.len() == 0 {
        Seq::empty()
    } else {
        path_text(ns.drop_last()) + ns.last().0@ + "::"@
    }
}

/// The Rust type of an LCM type.
pub open spec fn type_text(t: ast::Type) -> Seq<char> {
    match t {
        ast::Type::Int8 => "i8"@,
        ast::Type::Int16 => "i16"@,
        ast::Type::Int32 => "i32"@,
        ast::Type::Int64 => "i64"@,
        ast::Type::Float => "f32"@,
        ast::Type::Double => "f64"@,
        ast::Type::String => "String"@,
        ast::Type::Boolean => "bool"@,
        ast::Type::Byte => "u8"@,
        ast::Type::Struct(ns, name) => path_text(ns@) + struct_name_of(name@),
    }
}

/// Writes the Rust type of `t`.
pub fn type_string(t: &ast::Type) -> (r: String)
    ensures
        r@ == type_text(*t),
{
    match t {
        ast::Type::Int8 => "i8".to_owned(),
        ast::Type::Int16 => "i16".to_owned(),
        ast::Type::Int32 => "i32".to_owned(),
        ast::Type::Int64 => "i64".to_owned(),
        ast::Type::Float => "f32".to_owned(),
        ast::Type::Double => "f64".to_owned(),
        ast::Type::String => "String".to_owned(),
        ast::Type::Boolean => "bool".to_owned(),
        ast::Type::Byte => "u8".to_owned(),
        ast::Type::Struct(ns, name) => {
            let mut out = String::new();
            let mut k: usize = 0;
            while k < ns.len()
                invariant
                    k <= ns@.len(),
                    out@ == path_text(ns@.subrange(0, k as int)),
                decreases ns@.len() - k,
            {
                assert(ns@.subrange(0, k + 1).drop_last() =~= ns@.subrange(0, k as int));
                append(&mut out, ns[k].0.as_str());
                append(&mut out, "::");
                k = k + 1;
            }
            assert(ns@.subrange(0, k as int) =~= ns@);
            let rust_name = make_struct_name(name.as_str());
            append(&mut out, rust_name.as_str());
            out
        },
    }
}

/// `n` levels of indentation.
pub open spec fn indentation(n: nat) -> Seq<char>
    decreases n,
{
    if n == 0 {
        Seq::empty()
    } else {
        indentation((n - 1) as nat) + seq![' ', ' ', ' ', ' ']
    }
}

/// A text buffer that indents each line it starts.
pub struct CodeGenerator {
    pub buffer: String,
    pub indent: usize,
    pub start: bool,
}

/// What the generator writes before `s`: the indentation, at a line start.
pub open spec fn lead(g: CodeGenerator) -> Seq<char> {
    if g.start {
        indentation(g.indent as nat)
    } else {
        Seq::empty()
    }
}

/// The documentation attribute of a comment.
pub open spec fn comment_text(c: ast::Comment) -> Seq<char> {
    "#[doc = r#\""@ + c.0@ + "\"#]"@
}

/// The `length = "n"` items of the variable dimensions of `ms`, joined by `, `.
pub open spec fn lengths_text(ms: Seq<ast::Multiplicity>) -> Seq<char>
    decreases ms.len(),
{
    if ms.len() == 0 {
        Seq::empty()
    } else {
        let rest = lengths_text(ms.drop_last());
        match ms.last() {
            ast::Multiplicity::Variable(len) => {
                let item = "length = \""@ + len@ + "\""@;
                if rest.len() == 0 {
                    item
                } else {
                    rest + ", "@ + item
                }
            },
            ast::Multiplicity::Constant(_) => rest,
        }
    }
}

/// The openings of the array types of `ms`, outermost first.
pub open spec fn open_dims(ms: Seq<ast::Multiplicity>) -> Seq<char>
    decreases ms.len(),
{
    if ms.len() == 0 {
        Seq::empty()
    } else {
        open_dims(ms.drop_last()) + match ms.last() {
            ast::Multiplicity::Constant(_) => "["@,
            ast::Multiplicity::Variable(_) => "Vec<"@,
        }
    }
}

/// The closings of the array types of `ms`, innermost first.
pub open spec fn close_dims(ms: Seq<ast::Multiplicity>) -> Seq<char>
    decreases ms.len(),
{
    if ms.len() == 0 {
        Seq::empty()
    } else {
        (match ms.last() {
            ast::Multiplicity::Constant(n) => "; "@ + decimal(n as nat) + "]"@,
            ast::Multiplicity::Variable(_) => ">"@,
        }) + close_dims(ms.drop_last())
    }
}

/// The declaration line of a field.
pub open spec fn field_line(f: ast::Field) -> Seq<char> {
    "pub "@ + f.name@ + ": "@ + open_dims(f.multiplicity@) + type_text(f.ty) + close_dims(
        f.multiplicity@,
    ) + ","@
}

/// The lines that declare a field at indentation `n`: its documentation, its
/// `lcm` attribute when it has dimensions, and its declaration.
pub open spec fn field_text(f: ast::Field, n: nat) -> Seq<char> {
    (match f.comment {
        Some(c) => indentation(n) + comment_text(c) + seq!['\n'],
        None => Seq::empty(),
    }) + (if f.multiplicity@.len() > 0 {
        indentation(n) + "#[lcm("@ + lengths_text(f.multiplicity@) + ")]"@ + seq!['\n']
    } else {
        Seq::empty()
    }) + indentation(n) + field_line(f) + seq!['\n']
}

/// The lines that declare a constant at indentation `n`.
pub open spec fn constant_text(c: ast::Constant, n: nat) -> Seq<char> {
    (match c.comment {
        Some(d) => indentation(n) + comment_text(d) + seq!['\n'],
        None => Seq::empty(),
    }) + indentation(n) + "pub const "@ + c.name@ + ": "@ + type_text(c.ty) + " = "@ + c.value@
        + ";"@ + seq!['\n']
}

/// The strings `xs` joined by `, `.
pub open spec fn join_comma(xs: Seq<Seq<char>>) -> Seq<char>
    decreases xs.len(),
{
    if xs.len() == 0 {
        Seq::empty()
    } else if xs.len() == 1 {
        xs[0]
    } else {
        join_comma(xs.drop_last()) + ", "@ + xs.last()
    }
}

/// The derive attribute of a record: the standard traits and `extra`, sorted.
pub open spec fn derive_text(extra: Seq<Seq<char>>) -> Seq<char> {
    "#[derive("@ + join_comma(sorted_of(seq!["Clone"@, "Debug"@, "Message"@] + extra)) + ")]"@
}

/// The declarations of the fields `fs` at indentation `n`.
pub open spec fn fields_text(fs: Seq<ast::Field>, n: nat) -> Seq<char>
    decreases fs.len(),
{
    if fs.len() == 0 {
        Seq::empty()
    } else {
        fields_text(fs.drop_last(), n) + field_text(fs.last(), n)
    }
}

/// The declarations of the constants `cs` at indentation `n`.
pub open spec fn constants_text(cs: Seq<ast::Constant>, n: nat) -> Seq<char>
    decreases cs.len(),
{
    if cs.len() == 0 {
        Seq::empty()
    } else {
        constants_text(cs.drop_last(), n) + constant_text(cs.last(), n)
    }
}

/// The line `text` at indentation `n`.
pub open spec fn line_at(n: nat, text: Seq<char>) -> Seq<char> {
    indentation(n) + text + seq!['\n']
}

/// The opening lines of a record at indentation `n`: documentation, derive
/// list, and the `pub struct` line.
#[verifier::opaque]
pub open spec fn struct_head(s: ast::Struct, extra: Seq<Seq<char>>, n: nat) -> Seq<char> {
    (match s.comment {
        Some(c) => line_at(n, comment_text(c)),
        None => Seq::empty(),
    }) + line_at(n, derive_text(extra)) + line_at(
        n,
        "pub struct "@ + struct_name_of(s.name@) + " {"@,
    )
}

/// The `impl` block with the constants of a record, if it has any.
#[verifier::opaque]
pub open spec fn impl_text(s: ast::Struct, n: nat) -> Seq<char> {
    if s.constants@.len() > 0 {
        line_at(n, "impl "@ + struct_name_of(s.name@) + " {"@) + constants_text(
            s.constants@,
            n + 1,
        ) + line_at(n, "}"@)
    } else {
        Seq::empty()
    }
}

/// The code of a record at indentation `n`: its documentation, derive list,
/// struct with its fields, and an `impl` block with its constants if any.
pub open spec fn struct_text(s: ast::Struct, extra: Seq<Seq<char>>, n: nat) -> Seq<char> {
    struct_head(s, extra, n) + fields_text(s.fields@, n + 1) + line_at(n, "}"@) + impl_text(s, n)
}

/// The code of the records `ss` at indentation `n`.
pub open spec fn structs_text(ss: Seq<ast::Struct>, extra: Seq<Seq<char>>, n: nat) -> Seq<char>
    decreases ss.len(),
{
    if ss.len() == 0 {
        Seq::empty()
    } else {
        structs_text(ss.drop_last(), extra, n) + struct_text(ss.last(), extra, n)
    }
}

/// The code of a module at indentation `n`: its records, then each
/// submodule in a `pub mod` block.
pub open spec fn module_text(m: ast::Module, extra: Seq<Seq<char>>, n: nat) -> Seq<char>
    decreases m, 0int,
{
    structs_text(m.structs@, extra, n) + submodules_text(
        m.submodules@,
        m.submodules@.len() as int,
        extra,
        n,
    )
}

/// The `pub mod` blocks of the first `k` of `subs` at indentation `n`.
pub open spec fn submodules_text(
    subs: Seq<(ast::Namespace, ast::Module)>,
    k: int,
    extra: Seq<Seq<char>>,
    n: nat,
) -> Seq<char>
    decreases subs, k,
{
    if k <= 0 || k > subs.len() {
        Seq::empty()
    } else {
        submodules_text(subs, k - 1, extra, n) + line_at(
            n,
            "pub mod "@ + subs[k - 1].0.0@ + " {"@,
        ) + module_text(subs[k - 1].1, extra, n + 1) + line_at(n, "}"@)
    }
}

/// How deeply modules nest below `m`.
pub open spec fn module_height(m: ast::Module) -> nat
    decreases m, 0int,
{
    submodules_height(m.submodules@, m.submodules@.len() as int)
}

/// One more than the largest height among the first `k` of `subs`, or 0.
pub open spec fn submodules_height(subs: Seq<(ast::Namespace, ast::Module)>, k: int) -> nat
    decreases subs, k,
{
    if k <= 0 || k > subs.len() {
        0
    } else {
        let h = module_height(subs[k - 1].1) + 1;
        let rest = submodules_height(subs, k - 1);
        if h > rest {
            h
        } else {
            rest
        }
    }
}

proof fn lemma_submodule_height(subs: Seq<(ast::Namespace, ast::Module)>, k: int, i: int)
    requires
        0 <= i < k <= subs.len(),
    ensures
        module_height(subs[i].1) + 1 <= submodules_height(subs, k),
    decreases k,
{
    if i < k - 1 {
        lemma_submodule_height(subs, k - 1, i);
    }
}

/// The derive attribute line of a record.
fn derive_line(additional_traits: &Vec<String>) -> (r: String)
    ensures
        r@ == derive_text(texts(additional_traits@)),
{
    let mut derives: Vec<String> = Vec::new();
    derives.push("Clone".to_owned());
    derives.push("Debug".to_owned());
    derives.push("Message".to_owned());
    let ghost base = texts(derives@);
    assert(base =~= seq!["Clone"@, "Debug"@, "Message"@]);
    let mut k: usize = 0;
    while k < additional_traits.len()
        invariant
            k <= additional_traits@.len(),
            texts(derives@) == base + texts(additional_traits@.subrange(0, k as int)),
        decreases additional_traits@.len() - k,
    {
        let ghost prev = derives@;
        let item = additional_traits[k].clone();
        assert(item@ == additional_traits@[k as int]@);
        derives.push(item);
        assert(derives@ =~= prev.push(item));
        assert(texts(prev.push(item)) =~= texts(prev).push(item@));
        assert(texts(additional_traits@.subrange(0, k + 1)) =~= texts(
            additional_traits@.subrange(0, k as int),
        ).push(item@));
        assert(texts(derives@) =~= base + texts(additional_traits@.subrange(0, k + 1)));
        k = k + 1;
    }
    assert(additional_traits@.subrange(0, k as int) =~= additional_traits@);
    sort_strings(&mut derives);
    let ghost sorted = texts(derives@);
    let mut line = String::new();
    append(&mut line, "#[derive(");
    let ghost head = line@;
    let mut k: usize = 0;
    while k < derives.len()
        invariant
            k <= derives@.len(),
            sorted == texts(derives@),
            line@ == head + join_comma(sorted.subrange(0, k as int)),
        decreases derives@.len() - k,
    {
        assert(sorted.subrange(0, k + 1).drop_last() =~= sorted.subrange(0, k as int));
        if k > 0 {
            append(&mut line, ", ");
        }
        append(&mut line, derives[k].as_str());
        assert(line@ =~= head + join_comma(sorted.subrange(0, k + 1)));
        k = k + 1;
    }
    assert(sorted.subrange(0, k as int) =~= sorted);
    append(&mut line, ")]");
    line
}

impl CodeGenerator {
    /// An empty buffer at the start of a line, not indented.
    pub fn new() -> (r: CodeGenerator)
        ensures
            r.buffer@ == Seq::<char>::empty(),
            r.indent == 0,
            r.start,
    {
        CodeGenerator { buffer: String::new(), indent: 0, start: true }
    }

    /// Indents the lines that follow by one more level.
    pub fn indent(&mut self)
        requires
            old(self).indent < usize::MAX,
        ensures
            final(self).indent == old(self).indent + 1,
            final(self).buffer == old(self).buffer,
            final(self).start == old(self).start,
    {
        self.indent = self.indent + 1;
    }

    /// Indents the lines that follow by one level less.
    pub fn outdent(&mut self)
        requires
            old(self).indent > 0,
        ensures
            final(self).indent == old(self).indent - 1,
            final(self).buffer == old(self).buffer,
            final(self).start == old(self).start,
    {
        self.indent = self.indent - 1;
    }

    /// Adds `s` without ending the line.
    pub fn push(&mut self, s: &str)
        ensures
            final(self).buffer@ == old(self).buffer@ + lead(*old(self)) + s@,
            final(self).indent == old(self).indent,
            !final(self).start,
    {
        if self.start {
            let mut k: usize = 0;
            while k < self.indent
                invariant
                    k <= self.indent,
                    self.indent == old(self).indent,
                    self.start,
                    self.buffer@ == old(self).buffer@ + indentation(k as nat),
                decreases self.indent - k,
            {
                append(&mut self.buffer, "    ");
                proof {
                    reveal_strlit("    ");
                    assert("    "@ =~= seq![' ', ' ', ' ', ' ']);
                }
                k = k + 1;
            }
            self.start = false;
        }
        append(&mut self.buffer, s);
    }

    /// Adds `s` and ends the line.
    pub fn push_line(&mut self, s: &str)
        ensures
            final(self).buffer@ == old(self).buffer@ + lead(*old(self)) + s@ + seq!['\n'],
            final(self).indent == old(self).indent,
            final(self).start,
    {
        self.push(s);
        crate::ast::push_char(&mut self.buffer, '\n');
        self.start = true;
        assert(self.buffer@ =~= old(self).buffer@ + lead(*old(self)) + s@ + seq!['\n']);
    }

    /// Writes a comment as a documentation attribute line.
    pub fn generate_comment(&mut self, comment: &ast::Comment)
        ensures
            final(self).buffer@ == old(self).buffer@ + lead(*old(self)) + comment_text(*comment)
                + seq!['\n'],
            final(self).indent == old(self).indent,
            final(self).start,
    {
        let mut line = String::new();
        append(&mut line, "#[doc = r#\"");
        append(&mut line, comment.0.as_str());
        append(&mut line, "\"#]");
        self.push_line(line.as_str());
    }

    /// Writes a constant declaration.
    pub fn generate_constant(&mut self, constant: &ast::Constant)
        requires
            old(self).start,
        ensures
            final(self).indent == old(self).indent,
            final(self).start,
            final(self).buffer@ == old(self).buffer@ + constant_text(
                *constant,
                old(self).indent as nat,
            ),
    {
        let ghost before = self.buffer@;
        if let Some(c) = &constant.comment {
            self.generate_comment(c);
        }
        let mut line = String::new();
        append(&mut line, "pub const ");
        append(&mut line, constant.name.as_str());
        append(&mut line, ": ");
        let t = type_string(&constant.ty);
        append(&mut line, t.as_str());
        append(&mut line, " = ");
        append(&mut line, constant.value.as_str());
        append(&mut line, ";");
        self.push_line(line.as_str());
        assert(self.buffer@ =~= before + constant_text(*constant, old(self).indent as nat));
    }

    /// Writes a field declaration, with its `lcm(length = ..)` attribute when
    /// it has dimensions.
    pub fn generate_field(&mut self, field: &ast::Field)
        requires
            old(self).start,
        ensures
            final(self).indent == old(self).indent,
            final(self).start,
            final(self).buffer@ == old(self).buffer@ + field_text(*field, old(self).indent as nat),
    {
        let ghost before = self.buffer@;
        if let Some(c) = &field.comment {
            self.generate_comment(c);
        }
        if field.multiplicity.len() > 0 {
            let line = lengths_line(&field.multiplicity);
            self.push_line(line.as_str());
        }
        let decl = declaration(field);
        self.push_line(decl.as_str());
        assert(self.buffer@ =~= before + field_text(*field, old(self).indent as nat));
    }

    /// Writes the declarations of `fields`, one level deeper.
    fn generate_fields(&mut self, fields: &Vec<ast::Field>)
        requires
            old(self).start,
            old(self).indent < usize::MAX,
        ensures
            final(self).indent == old(self).indent,
            final(self).start,
            final(self).buffer@ == old(self).buffer@ + fields_text(
                fields@,
                old(self).indent as nat + 1,
            ),
    {
        let ghost n = self.indent as nat + 1;
        let ghost open = self.buffer@;
        self.indent();
        let mut k: usize = 0;
        while k < fields.len()
            invariant
                k <= fields@.len(),
                self.indent == old(self).indent + 1,
                n == self.indent as nat,
                self.start,
                self.buffer@ == open + fields_text(fields@.subrange(0, k as int), n),
            decreases fields@.len() - k,
        {
            assert(fields@.subrange(0, k + 1).drop_last() =~= fields@.subrange(0, k as int));
            assert(fields@.subrange(0, k + 1).last() == fields@[k as int]);
            self.generate_field(&fields[k]);
            assert(self.buffer@ =~= open + fields_text(fields@.subrange(0, k + 1), n));
            k = k + 1;
        }
        assert(fields@.subrange(0, k as int) =~= fields@);
        self.outdent();
    }

    /// Writes the declarations of `constants`, one level deeper.
    fn generate_constants(&mut self, constants: &Vec<ast::Constant>)
        requires
            old(self).start,
            old(self).indent < usize::MAX,
        ensures
            final(self).indent == old(self).indent,
            final(self).start,
            final(self).buffer@ == old(self).buffer@ + constants_text(
                constants@,
                old(self).indent as nat + 1,
            ),
    {
        let ghost n = self.indent as nat + 1;
        let ghost open = self.buffer@;
        self.indent();
        let mut k: usize = 0;
        while k < constants.len()
            invariant
                k <= constants@.len(),
                self.indent == old(self).indent + 1,
                n == self.indent as nat,
                self.start,
                self.buffer@ == open + constants_text(constants@.subrange(0, k as int), n),
            decreases constants@.len() - k,
        {
            assert(constants@.subrange(0, k + 1).drop_last() =~= constants@.subrange(0, k as int));
            assert(constants@.subrange(0, k + 1).last() == constants@[k as int]);
            self.generate_constant(&constants[k]);
            assert(self.buffer@ =~= open + constants_text(constants@.subrange(0, k + 1), n));
            k = k + 1;
        }
        assert(constants@.subrange(0, k as int) =~= constants@);
        self.outdent();
    }

    /// Writes a record declaration with its derive list, and its constants in
    /// an `impl` block when it has any.
    pub fn generate_struct(&mut self, s: &ast::Struct, additional_traits: &Vec<String>)
        requires
            old(self).start,
            old(self).indent < usize::MAX,
        ensures
            final(self).indent == old(self).indent,
            final(self).start,
            final(self).buffer@ == old(self).buffer@ + struct_text(
                *s,
                texts(additional_traits@),
                old(self).indent as nat,
            ),
    {
        let ghost n = self.indent as nat;
        let ghost before = self.buffer@;
        let ghost extra = texts(additional_traits@);
        let struct_name = make_struct_name(s.name.as_str());
        self.generate_struct_head(s, additional_traits, &struct_name);
        self.generate_fields(&s.fields);
        self.push_line("}");
        self.generate_impl(s, &struct_name);
        assert(self.buffer@ =~= before + struct_text(*s, extra, n));
    }

    /// Writes the opening lines of a record.
    fn generate_struct_head(&mut self, s: &ast::Struct, additional_traits: &Vec<String>, struct_name: &String)
        requires
            old(self).start,
            struct_name@ == struct_name_of(s.name@),
        ensures
            final(self).indent == old(self).indent,
            final(self).start,
            final(self).buffer@ == old(self).buffer@ + struct_head(
                *s,
                texts(additional_traits@),
                old(self).indent as nat,
            ),
    {
        reveal(struct_head);
        let ghost before = self.buffer@;
        if let Some(c) = &s.comment {
            self.generate_comment(c);
        }
        let line = derive_line(additional_traits);
        self.push_line(line.as_str());
        let mut head = String::new();
        append(&mut head, "pub struct ");
        append(&mut head, struct_name.as_str());
        append(&mut head, " {");
        self.push_line(head.as_str());
        assert(self.buffer@ =~= before + struct_head(
            *s,
            texts(additional_traits@),
            old(self).indent as nat,
        ));
    }

    /// Writes the `impl` block with the constants of a record, if it has any.
    fn generate_impl(&mut self, s: &ast::Struct, struct_name: &String)
        requires
            old(self).start,
            old(self).indent < usize::MAX,
            struct_name@ == struct_name_of(s.name@),
        ensures
            final(self).indent == old(self).indent,
            final(self).start,
            final(self).buffer@ == old(self).buffer@ + impl_text(*s, old(self).indent as nat),
    {
        reveal(impl_text);
        let ghost before = self.buffer@;
        if s.constants.len() > 0 {
            let mut head = String::new();
            append(&mut head, "impl ");
            append(&mut head, struct_name.as_str());
            append(&mut head, " {");
            self.push_line(head.as_str());
            self.generate_constants(&s.constants);
            self.push_line("}");
            assert(self.buffer@ =~= before + impl_text(*s, old(self).indent as nat));
        } else {
            assert(self.buffer@ =~= before + impl_text(*s, old(self).indent as nat));
        }
    }

    /// Writes the records of a module, then each submodule as a nested
    /// `pub mod` block.
    pub fn generate_module(&mut self, module: &ast::Module, additional_traits: &Vec<String>)
        requires
            old(self).start,
            old(self).indent + module_height(*module) < usize::MAX,
        ensures
            final(self).indent == old(self).indent,
            final(self).start,
            final(self).buffer@ == old(self).buffer@ + module_text(
                *module,
                texts(additional_traits@),
                old(self).indent as nat,
            ),
        decreases module,
    {
        let ghost n = self.indent as nat;
        let ghost extra = texts(additional_traits@);
        let ghost before = self.buffer@;
        let ghost ss = module.structs@;
        let ghost subs = module.submodules@;
        let mut k: usize = 0;
        while k < module.structs.len()
            invariant
                k <= ss.len(),
                ss == module.structs@,
                extra == texts(additional_traits@),
                self.indent == old(self).indent,
                n == self.indent as nat,
                self.indent + module_height(*module) < usize::MAX,
                self.start,
                self.buffer@ == before + structs_text(ss.subrange(0, k as int), extra, n),
            decreases ss.len() - k,
        {
            assert(ss.subrange(0, k + 1).drop_last() =~= ss.subrange(0, k as int));
            assert(ss.subrange(0, k + 1).last() == ss[k as int]);
            let ghost prev = self.buffer@;
            let st = &module.structs[k];
            assert(*st == ss[k as int]);
            self.generate_struct(st, additional_traits);
            assert(structs_text(ss.subrange(0, k + 1), extra, n) == structs_text(
                ss.subrange(0, k as int),
                extra,
                n,
            ) + struct_text(ss[k as int], extra, n));
            assert(self.buffer@ == prev + struct_text(ss[k as int], extra, n));
            assert(self.buffer@ =~= before + structs_text(ss.subrange(0, k + 1), extra, n));
            k = k + 1;
        }
        assert(ss.subrange(0, k as int) =~= ss);
        let ghost mid = self.buffer@;
        let mut k: usize = 0;
        while k < module.submodules.len()
            invariant
                k <= subs.len(),
                subs == module.submodules@,
                extra == texts(additional_traits@),
                self.indent == old(self).indent,
                n == self.indent as nat,
                self.indent + module_height(*module) < usize::MAX,
                self.start,
                self.buffer@ == mid + submodules_text(subs, k as int, extra, n),
            decreases subs.len() - k,
        {
            let ghost prev = self.buffer@;
            let (name, sub) = &module.submodules[k];
            assert(name.0@ == subs[k as int].0.0@ && *sub == subs[k as int].1);
            let mut head = String::new();
            append(&mut head, "pub mod ");
            append(&mut head, name.0.as_str());
            append(&mut head, " {");
            self.push_line(head.as_str());
            proof {
                lemma_submodule_height(subs, subs.len() as int, k as int);
                assert(decreases_to!(*module => module.submodules));
                assert(decreases_to!(module.submodules => module.submodules@));
                assert(decreases_to!(module.submodules@ => module.submodules@[k as int]));
            }
            let ghost opened = self.buffer@;
            assert(opened =~= prev + line_at(n, "pub mod "@ + subs[k as int].0.0@ + " {"@));
            self.indent();
            self.generate_module(sub, additional_traits);
            let ghost inner = self.buffer@;
            assert(inner == opened + module_text(subs[k as int].1, extra, n + 1));
            self.outdent();
            self.push_line("}");
            assert(self.buffer@ =~= inner + line_at(n, "}"@));
            assert(submodules_text(subs, k + 1, extra, n) == submodules_text(subs, k as int, extra, n)
                + line_at(n, "pub mod "@ + subs[k as int].0.0@ + " {"@) + module_text(
                subs[k as int].1,
                extra,
                n + 1,
            ) + line_at(n, "}"@));
            assert(self.buffer@ =~= prev + line_at(n, "pub mod "@ + subs[k as int].0.0@ + " {"@)
                + module_text(subs[k as int].1, extra, n + 1) + line_at(n, "}"@));
            assert(self.buffer@ =~= mid + submodules_text(subs, k + 1, extra, n));
            k = k + 1;
        }
        assert(self.buffer@ =~= before + module_text(*module, extra, n));
    }

}

/// The `lcm` attribute line of a field with dimensions `ms`.
fn lengths_line(ms: &Vec<ast::Multiplicity>) -> (r: String)
    ensures
        r@ == "#[lcm("@ + lengths_text(ms@) + ")]"@,
{
    let mut line = String::new();
    append(&mut line, "#[lcm(");
    let ghost head = line@;
    let n = ms.len();
    let mut first = true;
    let mut k: usize = 0;
    while k < n
        invariant
            n == ms@.len(),
            k <= n,
            line@ == head + lengths_text(ms@.subrange(0, k as int)),
            first == (lengths_text(ms@.subrange(0, k as int)).len() == 0),
        decreases n - k,
    {
        assert(ms@.subrange(0, k + 1).drop_last() =~= ms@.subrange(0, k as int));
        if let ast::Multiplicity::Variable(len) = &ms[k] {
            if !first {
                append(&mut line, ", ");
            }
            append(&mut line, "length = \"");
            append(&mut line, len.as_str());
            append(&mut line, "\"");
            proof {
                reveal_strlit("length = \"");
            }
            first = false;
        }
        k = k + 1;
    }
    assert(ms@.subrange(0, n as int) =~= ms@);
    append(&mut line, ")]");
    line
}

/// The declaration line of a field.
fn declaration(field: &ast::Field) -> (r: String)
    ensures
        r@ == field_line(*field),
{
    let ms = &field.multiplicity;
    let n = ms.len();
    let mut line = String::new();
    append(&mut line, "pub ");
    append(&mut line, field.name.as_str());
    append(&mut line, ": ");
    let ghost head = line@;
    let mut k: usize = 0;
    while k < n
        invariant
            n == ms@.len(),
            k <= n,
            line@ == head + open_dims(ms@.subrange(0, k as int)),
        decreases n - k,
    {
        assert(ms@.subrange(0, k + 1).drop_last() =~= ms@.subrange(0, k as int));
        match &ms[k] {
            ast::Multiplicity::Constant(_) => append(&mut line, "["),
            ast::Multiplicity::Variable(_) => append(&mut line, "Vec<"),
        }
        k = k + 1;
    }
    assert(ms@.subrange(0, n as int) =~= ms@);
    let t = type_string(&field.ty);
    append(&mut line, t.as_str());
    let ghost typed = line@;
    let mut k: usize = n;
    while k > 0
        invariant
            n == ms@.len(),
            k <= n,
            line@ + close_dims(ms@.subrange(0, k as int)) == typed + close_dims(ms@),
        decreases k,
    {
        k = k - 1;
        proof {
            lemma_close_dims_split(ms@, k as int);
        }
        match &ms[k] {
            ast::Multiplicity::Constant(len) => {
                append(&mut line, "; ");
                let digits = usize_to_decimal(*len);
                append(&mut line, digits.as_str());
                append(&mut line, "]");
            },
            ast::Multiplicity::Variable(_) => append(&mut line, ">"),
        }
        assert(line@ + close_dims(ms@.subrange(0, k as int)) =~= typed + close_dims(ms@));
    }
    assert(close_dims(ms@.subrange(0, 0)) =~= Seq::<char>::empty());
    append(&mut line, ",");
    assert(line@ =~= field_line(*field));
    line
}

proof fn lemma_close_dims_split(ms: Seq<ast::Multiplicity>, k: int)
    requires
        0 <= k < ms.len(),
    ensures
        close_dims(ms.subrange(0, k + 1)) == (match ms[k] {
            ast::Multiplicity::Constant(n) => "; "@ + decimal(n as nat) + "]"@,
            ast::Multiplicity::Variable(_) => ">"@,
        }) + close_dims(ms.subrange(0, k)),
{
    assert(ms.subrange(0, k + 1).drop_last() =~= ms.subrange(0, k));
}

/// Generates the code of a module tree with the default options.
pub fn generate(module: &ast::Module) -> (r: String)
    requires
        module_height(*module) < usize::MAX,
    ensures
        r@ == module_text(*module, Seq::empty(), 0),
{
    let config = Config::new();
    assert(texts(config.additional_traits@) =~= Seq::<Seq<char>>::empty());
    generate_with_config(module, &config)
}

/// Generates the code of a module tree.
pub fn generate_with_config(module: &ast::Module, config: &Config) -> (r: String)
    requires
        module_height(*module) < usize::MAX,
    ensures
        r@ == module_text(*module, texts(config.additional_traits@), 0),
{
    let mut g = CodeGenerator::new();
    g.generate_module(module, &config.additional_traits);
    g.buffer
}

} // verus!

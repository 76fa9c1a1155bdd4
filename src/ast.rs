//! The syntax tree of `.lcm` schema files, and the module tree that
//! code generation walks.
use vstd::prelude::*;

verus! {

/// One segment of a package path.
#[derive(Clone, Debug, PartialEq, Eq, Hash)]
pub struct Namespace(pub String);

/// A documentation comment.
#[derive(Clone, Debug, PartialEq, Eq)]
pub struct Comment(pub String);

/// The type of a field or constant.
#[derive(Clone, Debug, PartialEq, Eq)]
pub enum Type {
    Int8,
    Int16,
    Int32,
    Int64,
    Float,
    Double,
    String,
    Boolean,
    Byte,
    /// Another record: its namespace path and its name.
    Struct(Vec<Namespace>, String),
}

/// One array dimension of a field.
#[derive(Clone, Debug, PartialEq, Eq)]
pub enum Multiplicity {
    /// A length fixed by the schema.
    Constant(usize),
    /// A length held by another field.
    Variable(String),
}

/// A field of a record.
#[derive(Clone, Debug, PartialEq, Eq)]
pub struct Field {
    pub comment: Option<Comment>,
    pub name: String,
    pub ty: Type,
    pub multiplicity: Vec<Multiplicity>,
}

/// A named constant of a record.
#[derive(Clone, Debug, PartialEq, Eq)]
pub struct Constant {
    pub comment: Option<Comment>,
    pub name: String,
    pub ty: Type,
    pub value: String,
}

/// A record declaration.
#[derive(Clone, Debug, PartialEq, Eq)]
pub struct Struct {
    pub comment: Option<Comment>,
    pub name: String,
    pub fields: Vec<Field>,
    pub constants: Vec<Constant>,
}

/// A parsed schema file: its package path and its records.
#[derive(Debug, PartialEq, Eq)]
pub struct File {
    pub namespaces: Vec<Namespace>,
    pub structs: Vec<Struct>,
}

/// A module of generated code: its records, then its submodules in the
/// order they were first created.
#[derive(Debug)]
pub struct Module {
    pub submodules: Vec<(Namespace, Module)>,
    pub structs: Vec<Struct>,
}

/// The value of a type.
pub enum TypeV {
    Int8,
    Int16,
    Int32,
    Int64,
    Float,
    Double,
    String,
    Boolean,
    Byte,
    Struct(Seq<Seq<char>>, Seq<char>),
}

/// The value of a dimension.
pub enum MultV {
    Constant(nat),
    Variable(Seq<char>),
}

/// The value of a field.
pub struct FieldV {
    pub comment: Option<Seq<char>>,
    pub name: Seq<char>,
    pub ty: TypeV,
    pub multiplicity: Seq<MultV>,
}

/// The value of a constant.
pub struct ConstantV {
    pub comment: Option<Seq<char>>,
    pub name: Seq<char>,
    pub ty: TypeV,
    pub value: Seq<char>,
}

/// The value of a record.
pub struct StructV {
    pub comment: Option<Seq<char>>,
    pub name: Seq<char>,
    pub fields: Seq<FieldV>,
    pub constants: Seq<ConstantV>,
}

/// The value of a schema file.
pub struct FileV {
    pub namespaces: Seq<Seq<char>>,
    pub structs: Seq<StructV>,
}

/// The text of an optional comment.
pub open spec fn comment_view(c: Option<Comment>) -> Option<Seq<char>> {
    match c {
        Some(c) => Some(c.0@),
        None => None,
    }
}

impl View for Type {
    type V = TypeV;

    open spec fn view(&self) -> TypeV {
        match self {
            Type::Int8 => TypeV::Int8,
            Type::Int16 => TypeV::Int16,
            Type::Int32 => TypeV::Int32,
            Type::Int64 => TypeV::Int64,
            Type::Float => TypeV::Float,
            Type::Double => TypeV::Double,
            Type::String => TypeV::String,
            Type::Boolean => TypeV::Boolean,
            Type::Byte => TypeV::Byte,
            Type::Struct(ns, name) => TypeV::Struct(path_names(ns@), name@),
        }
    }
}

impl View for Multiplicity {
    type V = MultV;

    open spec fn view(&self) -> MultV {
        match self {
            Multiplicity::Constant(n) => MultV::Constant(*n as nat),
            Multiplicity::Variable(s) => MultV::Variable(s@),
        }
    }
}

impl View for Field {
    type V = FieldV;

    open spec fn view(&self) -> FieldV {
        FieldV {
            comment: comment_view(self.comment),
            name: self.name@,
            ty: self.ty@,
            multiplicity: self.multiplicity@.map_values(|m: Multiplicity| m@),
        }
    }
}

impl View for Constant {
    type V = ConstantV;

    open spec fn view(&self) -> ConstantV {
        ConstantV {
            comment: comment_view(self.comment),
            name: self.name@,
            ty: self.ty@,
            value: self.value@,
        }
    }
}

impl View for Struct {
    type V = StructV;

    open spec fn view(&self) -> StructV {
        StructV {
            comment: comment_view(self.comment),
            name: self.name@,
            fields: self.fields@.map_values(|f: Field| f@),
            constants: self.constants@.map_values(|c: Constant| c@),
        }
    }
}

impl View for File {
    type V = FileV;

    open spec fn view(&self) -> FileV {
        FileV {
            namespaces: path_names(self.namespaces@),
            structs: self.structs@.map_values(|s: Struct| s@),
        }
    }
}

/// The segments of `s` between its dots.
pub open spec fn split_dots(s: Seq<char>) -> Seq<Seq<char>>
    decreases s.len(),
{
    if s.len() == 0 {
        seq![Seq::empty()]
    } else {
        let rest = split_dots(s.drop_last());
        if s.last() == '.' {
            rest.push(Seq::empty())
        } else {
            rest.update(rest.len() - 1, rest.last().push(s.last()))
        }
    }
}

/// Relies on `String::push`: appends one character.
#[verifier::external_body]
pub(crate) fn push_char(buf: &mut String, c: char)
    ensures
        final(buf)@ == old(buf)@.push(c),
{
    buf.push(c)
}

/// The names of a namespace path.
pub open spec fn path_names(path: Seq<Namespace>) -> Seq<Seq<char>> {
    path.map_values(|n: Namespace| n.0@)
}

/// The index of the first of `subs` from `k` on whose name is `name`, or -1.
pub open spec fn find_sub(subs: Seq<(Namespace, Module)>, name: Seq<char>, k: int) -> int
    decreases subs.len() - k,
{
    if k < 0 || k >= subs.len() {
        -1
    } else if subs[k].0.0@ == name {
        k
    } else {
        find_sub(subs, name, k + 1)
    }
}

/// The records of the module at `path` below `m` (none when it does not exist).
pub open spec fn structs_at(m: Module, path: Seq<Seq<char>>) -> Seq<Struct>
    decreases path.len(),
{
    if path.len() == 0 {
        m.structs@
    } else {
        let j = find_sub(m.submodules@, path[0], 0);
        if j < 0 {
            Seq::empty()
        } else {
            structs_at(m.submodules@[j].1, path.drop_first())
        }
    }
}

proof fn lemma_find_sub_range(subs: Seq<(Namespace, Module)>, name: Seq<char>, k: int)
    requires
        0 <= k,
    ensures
        find_sub(subs, name, k) == -1 || (k <= find_sub(subs, name, k) < subs.len()
            && subs[find_sub(subs, name, k)].0.0@ == name),
    decreases subs.len() - k,
{
    if k < subs.len() && subs[k].0.0@ != name {
        lemma_find_sub_range(subs, name, k + 1);
    }
}

/// No two submodules of `m` have the same name.
pub open spec fn unique_names(m: Module) -> bool {
    forall|i: int, j: int|
        0 <= i < j < m.submodules@.len() ==> m.submodules@[i].0.0@ != m.submodules@[j].0.0@
}

proof fn lemma_find_sub_none(subs: Seq<(Namespace, Module)>, name: Seq<char>, k: int)
    requires
        0 <= k,
        find_sub(subs, name, k) == -1,
    ensures
        forall|j: int| k <= j < subs.len() ==> subs[j].0.0@ != name,
    decreases subs.len() - k,
{
    if k < subs.len() {
        lemma_find_sub_none(subs, name, k + 1);
    }
}

proof fn lemma_find_sub_push(subs: Seq<(Namespace, Module)>, x: (Namespace, Module), name: Seq<char>, k: int)
    requires
        0 <= k <= subs.len(),
        find_sub(subs, name, k) == -1,
        x.0.0@ == name,
    ensures
        find_sub(subs.push(x), name, k) == subs.len(),
    decreases subs.len() - k,
{
    if k < subs.len() {
        lemma_find_sub_push(subs, x, name, k + 1);
    }
}

proof fn lemma_find_sub_update(subs: Seq<(Namespace, Module)>, i: int, x: (Namespace, Module), name: Seq<char>, k: int)
    requires
        0 <= k <= i < subs.len(),
        x.0.0@ == subs[i].0.0@,
        find_sub(subs, name, k) == i,
    ensures
        find_sub(subs.update(i, x), name, k) == i,
    decreases i - k,
{
    if k < i {
        if subs[k].0.0@ == name {
            assert(find_sub(subs, name, k) == k);
        }
        assert(subs.update(i, x)[k] == subs[k]);
        lemma_find_sub_update(subs, i, x, name, k + 1);
    } else {
        if subs[i].0.0@ != name {
            lemma_find_sub_range(subs, name, i + 1);
        }
    }
}

proof fn lemma_empty_module_structs(m: Module, path: Seq<Seq<char>>)
    requires
        m.submodules@.len() == 0,
        m.structs@.len() == 0,
    ensures
        structs_at(m, path) == Seq::<Struct>::empty(),
{
    if path.len() == 0 {
        assert(m.structs@ =~= Seq::<Struct>::empty());
    }
}

impl Module {
    /// An empty module.
    pub fn new() -> (r: Module)
        ensures
            r.submodules@.len() == 0,
            r.structs@.len() == 0,
    {
        Module { submodules: Vec::new(), structs: Vec::new() }
    }

    /// Adds a record to the module at `path` below this one, creating the
    /// modules on the way that do not exist yet.
    pub fn add_struct(&mut self, path: &[Namespace], s: Struct)
        ensures
            structs_at(*final(self), path_names(path@)) == structs_at(*old(self), path_names(path@)).push(s),
            path@.len() > 0 ==> final(self).structs@ == old(self).structs@,
            path@.len() == 0 ==> final(self).submodules@ == old(self).submodules@,
            final(self).submodules@.len() >= old(self).submodules@.len(),
            forall|j: int|
                0 <= j < old(self).submodules@.len() ==> #[trigger] final(self).submodules@[j].0.0@
                    == old(self).submodules@[j].0.0@,
            forall|j: int|
                0 <= j < old(self).submodules@.len() && old(self).submodules@[j].0.0@
                    != path@[0].0@ ==> #[trigger] final(self).submodules@[j] == old(
                    self,
                ).submodules@[j],
            unique_names(*old(self)) ==> unique_names(*final(self)),
        decreases path@.len(),
    {
        if path.len() == 0 {
            self.structs.push(s);
            return;
        }
        let ghost names = path_names(path@);
        let first = &path[0];
        let mut rest: Vec<Namespace> = Vec::new();
        let mut k: usize = 1;
        while k < path.len()
            invariant
                1 <= k <= path@.len(),
                path_names(rest@) == path_names(path@).subrange(1, k as int),
            decreases path@.len() - k,
        {
            let ghost prev = rest@;
            let item = Namespace(path[k].0.clone());
            assert(item.0@ == path@[k as int].0@);
            rest.push(item);
            assert(rest@ =~= prev.push(item));
            assert(path_names(prev.push(item)) =~= path_names(prev).push(item.0@));
            assert(path_names(rest@) =~= path_names(path@).subrange(1, k + 1));
            k = k + 1;
        }
        assert(path_names(rest@) =~= names.drop_first());
        assert(rest@.len() == path@.len() - 1);
        let ghost subs0 = self.submodules@;
        let mut i: usize = 0;
        while i < self.submodules.len()
            invariant
                path@.len() > 0,
                names == path_names(path@),
                names[0] == first.0@,
                path_names(rest@) == names.drop_first(),
                rest@.len() == path@.len() - 1,
                i <= self.submodules@.len(),
                self.submodules@ == subs0,
                *self == *old(self),
                find_sub(subs0, names[0], 0) == find_sub(subs0, names[0], i as int),
            decreases self.submodules@.len() - i,
        {
            if self.submodules[i].0.0 == first.0 {
                self.submodules[i].1.add_struct(rest.as_slice(), s);
                proof {
                    lemma_find_sub_update(subs0, i as int, self.submodules@[i as int], names[0], 0);
                    assert(self.submodules@ == subs0.update(i as int, self.submodules@[i as int]));
                }
                return;
            }
            i = i + 1;
        }
        let mut child = Module::new();
        proof {
            lemma_empty_module_structs(child, names.drop_first());
        }
        child.add_struct(rest.as_slice(), s);
        let entry = (Namespace(first.0.clone()), child);
        self.submodules.push(entry);
        proof {
            lemma_find_sub_push(subs0, entry, names[0], 0);
            lemma_find_sub_none(subs0, names[0], 0);
            assert(self.submodules@ == subs0.push(entry));
        }
    }
}

impl File {
    /// Puts the dotted package `prefix` in front of the file's namespaces.
    pub fn add_package_prefix(&mut self, prefix: &str)
        ensures
            final(self).structs@ == old(self).structs@,
            final(self).namespaces@.len() == split_dots(prefix@).len() + old(
                self,
            ).namespaces@.len(),
            forall|i: int|
                0 <= i < split_dots(prefix@).len() ==> #[trigger] final(self).namespaces@[i].0@
                    == split_dots(prefix@)[i],
            forall|i: int|
                0 <= i < old(self).namespaces@.len() ==> final(self).namespaces@[split_dots(
                    prefix@,
                ).len() + i].0@ == old(self).namespaces@[i].0@,
    {
        let mut parts: Vec<Namespace> = Vec::new();
        let mut cur = String::new();
        let n = prefix.unicode_len();
        let mut k: usize = 0;
        while k < n
            invariant
                n == prefix@.len(),
                k <= n,
                parts@.len() + 1 == split_dots(prefix@.subrange(0, k as int)).len(),
                forall|i: int|
                    0 <= i < parts@.len() ==> #[trigger] parts@[i].0@ == split_dots(
                        prefix@.subrange(0, k as int),
                    )[i],
                cur@ == split_dots(prefix@.subrange(0, k as int)).last(),
            decreases n - k,
        {
            let c = prefix.get_char(k);
            assert(prefix@.subrange(0, k + 1).drop_last() =~= prefix@.subrange(0, k as int));
            if c == '.' {
                parts.push(Namespace(cur));
                cur = String::new();
            } else {
                push_char(&mut cur, c);
            }
            k = k + 1;
        }
        parts.push(Namespace(cur));
        assert(prefix@.subrange(0, n as int) =~= prefix@);
        let ghost old_ns = self.namespaces@;
        let mut i: usize = 0;
        while i < self.namespaces.len()
            invariant
                self.namespaces@ == old_ns,
                i <= old_ns.len(),
                parts@.len() == split_dots(prefix@).len() + i,
                forall|j: int|
                    0 <= j < split_dots(prefix@).len() ==> #[trigger] parts@[j].0@ == split_dots(
                        prefix@,
                    )[j],
                forall|j: int|
                    0 <= j < i ==> parts@[split_dots(prefix@).len() + j].0@ == old_ns[j].0@,
            decreases old_ns.len() - i,
        {
            parts.push(Namespace(self.namespaces[i].0.clone()));
            i = i + 1;
        }
        self.namespaces = parts;
    }
}

} // verus!

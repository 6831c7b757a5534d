//! Declarations of the analysed crate: paths, spans, visibility, structs, enums, impl blocks
//! and imports.
use vstd::prelude::*;
use crate::pattern::{matches_item, matches_module, PathPattern};
use crate::text::{
    chars_of, contains_seq, contains_str, find_last_sep, is_prefix, joined, lemma_last_sep,
    path_sep, simple_name, starts_with,
};

verus! {

/// A qualified path such as `a::b::C`.
#[derive(Debug)]
pub struct ItemPath {
    inner: String,
}

impl View for ItemPath {
    type V = Seq<char>;

    closed spec fn view(&self) -> Seq<char> {
        self.inner@
    }
}

impl ItemPath {
    pub fn new(path: String) -> (r: ItemPath)
        ensures
            r@ == path@,
    {
        ItemPath { inner: path }
    }

    pub fn empty() -> (r: ItemPath)
        ensures
            r@ == Seq::<char>::empty(),
    {
        ItemPath { inner: String::new() }
    }

    pub fn as_str(&self) -> (r: &str)
        ensures
            r@ == self@,
    {
        self.inner.as_str()
    }

    /// A copy of this path.
    pub fn duplicate(&self) -> (r: ItemPath)
        ensures
            r@ == self@,
    {
        ItemPath { inner: self.inner.clone() }
    }

    /// This path extended by one segment.
    pub fn join(&self, path: &str) -> (r: ItemPath)
        ensures
            r@ == joined(self@, path@),
    {
        let mut inner = self.inner.clone();
        if inner.as_str().unicode_len() > 0 {
            proof {
                reveal_strlit("::");
            }
            inner.append("::");
            assert("::"@ == path_sep());
        }
        inner.append(path);
        ItemPath { inner }
    }

    /// Whether the path starts with any of the given prefixes.
    pub fn reside_in_any(&self, allowed: &[String]) -> (r: bool)
        ensures
            r == exists|i: int| 0 <= i < allowed@.len() && is_prefix(allowed@[i]@, self@),
    {
        let mut i: usize = 0;
        while i < allowed.len()
            invariant
                forall|j: int| 0 <= j < i ==> !is_prefix(allowed@[j]@, self@),
            decreases allowed@.len() - i,
        {
            if starts_with(self.inner.as_str(), allowed[i].as_str()) {
                return true;
            }
            i = i + 1;
        }
        false
    }

    /// Whether the path starts with `module`.
    pub fn reside_in(&self, module: &str) -> (r: bool)
        ensures
            r == is_prefix(module@, self@),
    {
        starts_with(self.inner.as_str(), module)
    }

    /// Module-path mode matching of the whole path.
    pub fn match_module_path(&self, pattern: &str) -> (r: bool)
        ensures
            r == matches_module(pattern@, self@),
    {
        PathPattern::from(pattern).matches_module_path(self.inner.as_str())
    }

    /// Type-path mode matching: the pattern is held against the declaring namespace.
    pub fn match_struct_path(&self, pattern: &str) -> (r: bool)
        ensures
            r == matches_item(pattern@, self@),
    {
        PathPattern::from(pattern).matches_struct_path(self.inner.as_str())
    }

    /// The last segment of the path.
    pub fn name(&self) -> (r: &str)
        ensures
            r@ == simple_name(self@),
    {
        let c = chars_of(self.inner.as_str());
        let n = c.len();
        match find_last_sep(&c) {
            None => self.inner.as_str(),
            Some(i) => {
                proof {
                    lemma_last_sep(c@);
                }
                assert(c@ == self@);
                assert(i as int == crate::text::last_sep(c@));
                self.inner.as_str().substring_char(i + 2, n)
            },
        }
    }

    pub fn contains(&self, other: &str) -> (r: bool)
        ensures
            r == contains_seq(self@, other@),
    {
        contains_str(self.inner.as_str(), other)
    }
}

/// A line and a column in a source file.
#[derive(Debug, Default, Clone, Copy, PartialEq, Eq, Structural, Hash)]
pub struct LineColumn {
    pub line: usize,
    pub column: usize,
}

/// The start and end of a piece of source text.
#[derive(Debug, Default, Clone, Copy, PartialEq, Eq, Structural, Hash)]
pub struct CodeSpan {
    pub start: LineColumn,
    pub end: LineColumn,
}

#[derive(Debug, PartialEq, Eq, Structural, Clone, Copy, Hash)]
pub enum Visibility {
    Public,
    Crate,
    Restricted,
    Inherited,
}

/// The path named by an import statement, with the statement's span.
#[derive(Debug)]
pub struct ModuleUse {
    pub parts: String,
    pub span: CodeSpan,
}

/// An import path read as a path of the analysed crate: a leading `crate` stands for the
/// crate's own name.
pub open spec fn canonical_use(parts: Seq<char>, crate_name: Seq<char>) -> Seq<char> {
    if is_prefix(seq!['c', 'r', 'a', 't', 'e'], parts) {
        crate_name + parts.subrange(5, parts.len() as int)
    } else {
        parts
    }
}

impl ModuleUse {
    /// Whether the imported path matches `pattern` in module-path mode.
    pub fn matching(&self, pattern: &str) -> (r: bool)
        ensures
            r == matches_module(pattern@, self.parts@),
    {
        PathPattern::from(pattern).matches_module_path(self.parts.as_str())
    }

    /// Whether the imported path, read in the crate named `crate_name`, lies under `path`.
    pub fn starts_with(&self, path: &str, crate_name: &str) -> (r: bool)
        ensures
            r == matches_module(path@ + seq!['*'], canonical_use(self.parts@, crate_name@)),
    {
        proof {
            reveal_strlit("crate");
            reveal_strlit("*");
        }
        let mut pattern = String::from_str(path);
        pattern.append("*");
        assert("crate"@ =~= seq!['c', 'r', 'a', 't', 'e']);
        assert(pattern@ =~= path@ + seq!['*']);
        if starts_with(self.parts.as_str(), "crate") {
            let n = self.parts.as_str().unicode_len();
            let rest = self.parts.as_str().substring_char(5, n);
            let mut canonical = String::from_str(crate_name);
            canonical.append(rest);
            PathPattern::from(pattern.as_str()).matches_module_path(canonical.as_str())
        } else {
            PathPattern::from(pattern.as_str()).matches_module_path(self.parts.as_str())
        }
    }
}

/// A field of a struct; an unnamed field has no name and is known by its position.
#[derive(Debug)]
pub struct Field {
    pub visibility: Visibility,
    pub name: Option<String>,
    pub span: CodeSpan,
    pub type_: String,
}

/// Whether one of `derives` is the trait `t`.
pub open spec fn derives_trait(derives: Seq<String>, t: Seq<char>) -> bool {
    exists|i: int| 0 <= i < derives.len() && derives[i]@ == t
}

/// Whether a field list holds a field that is not public.
pub open spec fn has_non_public(fields: Seq<Field>) -> bool {
    exists|i: int| 0 <= i < fields.len() && fields[i].visibility != Visibility::Public
}

/// Whether a field list holds a public field.
pub open spec fn has_public(fields: Seq<Field>) -> bool {
    exists|i: int| 0 <= i < fields.len() && fields[i].visibility == Visibility::Public
}

fn list_contains(list: &Vec<String>, t: &str) -> (r: bool)
    ensures
        r == derives_trait(list@, t@),
{
    let mut i: usize = 0;
    while i < list.len()
        invariant
            forall|j: int| 0 <= j < i ==> list@[j]@ != t@,
        decreases list.len() - i,
    {
        if crate::text::str_eq(list[i].as_str(), t) {
            return true;
        }
        i = i + 1;
    }
    false
}

/// A struct declaration; `module` is the index of its declaring module in the index.
#[derive(Debug)]
pub struct Struct {
    pub span: CodeSpan,
    pub real_path: String,
    pub ident: String,
    pub derives: Vec<String>,
    pub visibility: Visibility,
    pub fields: Vec<Field>,
    pub path: ItemPath,
    pub module: usize,
}

impl Struct {
    pub fn all(&self) -> (r: bool)
        ensures
            r,
    {
        true
    }

    pub fn is_public(&self) -> (r: bool)
        ensures
            r == (self.visibility == Visibility::Public),
    {
        self.visibility == Visibility::Public
    }

    pub fn path_match(&self, pattern: &str) -> (r: bool)
        ensures
            r == matches_item(pattern@, self.path@),
    {
        self.path.match_struct_path(pattern)
    }

    pub fn derives(&self, trait_: &str) -> (r: bool)
        ensures
            r == derives_trait(self.derives@, trait_@),
    {
        list_contains(&self.derives, trait_)
    }

    pub fn has_public_field(&self) -> (r: bool)
        ensures
            r == has_public(self.fields@),
    {
        let mut i: usize = 0;
        while i < self.fields.len()
            invariant
                forall|j: int| 0 <= j < i ==> self.fields@[j].visibility != Visibility::Public,
            decreases self.fields.len() - i,
        {
            if self.fields[i].visibility == Visibility::Public {
                return true;
            }
            i = i + 1;
        }
        false
    }

    pub fn has_non_public_field(&self) -> (r: bool)
        ensures
            r == has_non_public(self.fields@),
    {
        let mut i: usize = 0;
        while i < self.fields.len()
            invariant
                forall|j: int| 0 <= j < i ==> self.fields@[j].visibility == Visibility::Public,
            decreases self.fields.len() - i,
        {
            if self.fields[i].visibility != Visibility::Public {
                return true;
            }
            i = i + 1;
        }
        false
    }
}

/// An enum declaration; `module` is the index of its declaring module in the index.
#[derive(Debug)]
pub struct Enum {
    pub span: CodeSpan,
    pub location: String,
    pub ident: String,
    pub derives: Vec<String>,
    pub visibility: Visibility,
    pub path: ItemPath,
    pub module: usize,
}

impl Enum {
    pub fn is_public(&self) -> (r: bool)
        ensures
            r == (self.visibility == Visibility::Public),
    {
        self.visibility == Visibility::Public
    }

    pub fn path_match(&self, pattern: &str) -> (r: bool)
        ensures
            r == matches_item(pattern@, self.path@),
    {
        self.path.match_struct_path(pattern)
    }

    pub fn derives(&self, trait_: &str) -> (r: bool)
        ensures
            r == derives_trait(self.derives@, trait_@),
    {
        list_contains(&self.derives, trait_)
    }
}

/// An impl block: where it is declared, the type it is for and the trait it implements.
#[derive(Debug)]
pub struct Impl {
    pub path: ItemPath,
    pub is_unsafe: bool,
    pub self_ty: ItemPath,
    pub trait_impl: Option<ItemPath>,
    pub module: usize,
}

/// The impl block is for a type whose simple name is `ident` and its trait path holds `t`.
pub open spec fn impl_provides(imp: Impl, ident: Seq<char>, t: Seq<char>) -> bool {
    simple_name(imp.self_ty@) == ident && match imp.trait_impl {
        Some(p) => contains_seq(p@, t),
        None => false,
    }
}

impl Impl {
    /// Whether this block implements, for a type named `ident`, a trait whose path holds `t`.
    pub fn provides(&self, ident: &str, t: &str) -> (r: bool)
        ensures
            r == impl_provides(*self, ident@, t@),
    {
        if !crate::text::str_eq(self.self_ty.name(), ident) {
            return false;
        }
        match &self.trait_impl {
            Some(p) => p.contains(t),
            None => false,
        }
    }
}

} // verus!

verus! {

/// The simple name of the type that an impl block is for.
pub open spec fn simple_name_of_self_ty(imp: Impl) -> Seq<char> {
    simple_name(imp.self_ty@)
}

} // verus!

//! Wildcard patterns over namespace paths.
use vstd::prelude::*;
use crate::text::{chars_of, find_last_sep, last_sep, lemma_last_sep, parent_of, path_sep, simple_name};

verus! {

/// Whole-string wildcard matching: `*` matches any run of characters (the empty run too),
/// `?` exactly one character, and every other character itself.
pub open spec fn wild_match(p: Seq<char>, s: Seq<char>) -> bool
    decreases p.len() + s.len(),
{
    if p.len() == 0 {
        s.len() == 0
    } else if p[0] == '*' {
        wild_match(p.drop_first(), s) || (s.len() > 0 && wild_match(p, s.drop_first()))
    } else {
        s.len() > 0 && (p[0] == '?' || p[0] == s[0]) && wild_match(p.drop_first(), s.drop_first())
    }
}

/// Relies on wildmatch::WildMatch::new and WildMatch::matches: the pattern matches the
/// entire subject, `*` standing for any run of characters and `?` for exactly one.
#[verifier::external_body]
pub(crate) fn wildcard_matches(pattern: &str, subject: &str) -> (r: bool)
    ensures
        r == wild_match(pattern@, subject@),
{
    wildmatch::WildMatch::new(pattern).matches(subject)
}

/// A pattern with a trailing separator stands for the same pattern without it.
pub open spec fn normalized(p: Seq<char>) -> Seq<char> {
    if p.len() >= 2 && p.subrange(p.len() - 2, p.len() as int) == path_sep() {
        p.subrange(0, p.len() - 2)
    } else {
        p
    }
}

/// Module-path mode: the pattern is matched against the whole path.
pub open spec fn matches_module(p: Seq<char>, path: Seq<char>) -> bool {
    wild_match(normalized(p), path)
}

/// Type-path mode: the pattern is matched against the namespace that declares the item,
/// never against the item's own simple name; a path without separator never matches.
pub open spec fn matches_item(p: Seq<char>, path: Seq<char>) -> bool {
    last_sep(path) >= 0 && wild_match(normalized(p), parent_of(path))
}

/// A pattern free of wildcards.
pub open spec fn is_literal(p: Seq<char>) -> bool {
    forall|i: int| 0 <= i < p.len() ==> p[i] != '*' && p[i] != '?'
}

/// A pattern without wildcards matches exactly itself.
pub proof fn lemma_literal_matches_itself_only(p: Seq<char>, s: Seq<char>)
    requires
        is_literal(p),
    ensures
        wild_match(p, s) <==> p == s,
    decreases p.len() + s.len(),
{
    if p.len() == 0 {
        if s.len() != 0 {
            assert(p != s);
        } else {
            assert(p =~= s);
        }
    } else {
        assert(p[0] != '*');
        assert(is_literal(p.drop_first()));
        if s.len() > 0 {
            lemma_literal_matches_itself_only(p.drop_first(), s.drop_first());
            if p == s {
                assert(p.drop_first() == s.drop_first());
                assert(p[0] == s[0]);
            }
            if p[0] == s[0] && p.drop_first() == s.drop_first() {
                assert(p =~= seq![p[0]] + p.drop_first());
                assert(s =~= seq![s[0]] + s.drop_first());
            }
        } else {
            assert(p != s);
        }
    }
}

/// A type-path pattern that is the type's own simple name (an identifier: no wildcard, no
/// `:`) does not match the type, unless the declaring namespace carries that very name;
/// the same string as a module-path pattern matches a module whose path is that name.
pub proof fn lemma_item_pattern_skips_leaf(path: Seq<char>)
    requires
        last_sep(path) >= 0,
        forall|i: int|
            0 <= i < simple_name(path).len() ==> simple_name(path)[i] != '*' && simple_name(
                path,
            )[i] != '?' && simple_name(path)[i] != ':',
    ensures
        matches_item(simple_name(path), path) <==> parent_of(path) == simple_name(path),
        matches_module(simple_name(path), simple_name(path)),
{
    let name = simple_name(path);
    lemma_last_sep(path);
    if name.len() >= 2 && name.subrange(name.len() - 2, name.len() as int) == path_sep() {
        assert(name.subrange(name.len() - 2, name.len() as int)[0] == ':');
        assert(name[name.len() - 2] == ':');
    }
    assert(normalized(name) == name);
    lemma_literal_matches_itself_only(name, parent_of(path));
    lemma_literal_matches_itself_only(name, name);
}

/// A borrowed wildcard pattern over namespace paths.
pub struct PathPattern<'a> {
    pub pattern: &'a str,
}

/// The pattern with a trailing separator removed.
fn strip_trailing_sep(p: &str) -> (r: &str)
    ensures
        r@ == normalized(p@),
{
    let c = chars_of(p);
    let n = c.len();
    if n >= 2 && c[n - 2] == ':' && c[n - 1] == ':' {
        assert(p@.subrange(n - 2, n as int) =~= path_sep());
        p.substring_char(0, n - 2)
    } else {
        proof {
            if n >= 2 && p@.subrange(n - 2, n as int) == path_sep() {
                assert(p@.subrange(n - 2, n as int)[0] == p@[n - 2]);
                assert(p@.subrange(n - 2, n as int)[1] == p@[n - 1]);
            }
        }
        p
    }
}

impl<'a> PathPattern<'a> {
    pub fn from(pattern: &'a str) -> (r: PathPattern<'a>)
        ensures
            r.pattern@ == pattern@,
    {
        PathPattern { pattern }
    }

    /// Matches the namespace that declares the item at `path`.
    pub fn matches_struct_path(self, path: &str) -> (r: bool)
        ensures
            r == matches_item(self.pattern@, path@),
    {
        let c = chars_of(path);
        match find_last_sep(&c) {
            None => false,
            Some(i) => {
                proof {
                    lemma_last_sep(path@);
                }
                let namespace = path.substring_char(0, i);
                wildcard_matches(strip_trailing_sep(self.pattern), namespace)
            },
        }
    }

    /// Matches the whole module path.
    pub fn matches_module_path(self, path: &str) -> (r: bool)
        ensures
            r == matches_module(self.pattern@, path@),
    {
        wildcard_matches(strip_trailing_sep(self.pattern), path)
    }
}

} // verus!

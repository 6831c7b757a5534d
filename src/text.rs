//! Character-level helpers over namespace paths, with their mathematical meaning.
use vstd::prelude::*;

verus! {

/// The namespace separator `::`.
pub open spec fn path_sep() -> Seq<char> {
    seq![':', ':']
}

/// `sub` occurs in `s` starting at position `i`.
pub open spec fn occurs_at(sub: Seq<char>, s: Seq<char>, i: int) -> bool {
    0 <= i && i + sub.len() <= s.len() && s.subrange(i, i + sub.len()) == sub
}

/// `p` is a prefix of `s`.
pub open spec fn is_prefix(p: Seq<char>, s: Seq<char>) -> bool {
    occurs_at(p, s, 0)
}

/// `sub` occurs somewhere in `s`.
pub open spec fn contains_seq(s: Seq<char>, sub: Seq<char>) -> bool {
    exists|i: int| occurs_at(sub, s, i)
}

/// Appending a segment to a path: plain segment for an empty path, `a::b` otherwise.
pub open spec fn joined(a: Seq<char>, b: Seq<char>) -> Seq<char> {
    if a.len() == 0 {
        b
    } else {
        a + path_sep() + b
    }
}

/// A separator starts at position `i` of `s`.
pub open spec fn sep_at(s: Seq<char>, i: int) -> bool {
    occurs_at(path_sep(), s, i)
}

/// The largest position below `k` where a separator starts, or -1.
pub open spec fn last_sep_below(s: Seq<char>, k: int) -> int
    decreases k,
{
    if k <= 0 {
        -1
    } else if sep_at(s, k - 1) {
        k - 1
    } else {
        last_sep_below(s, k - 1)
    }
}

/// The position of the last separator of `s`, or -1 when there is none.
pub open spec fn last_sep(s: Seq<char>) -> int {
    last_sep_below(s, s.len() as int)
}

/// The last segment of a path: what follows the last separator, or the whole path.
pub open spec fn simple_name(s: Seq<char>) -> Seq<char> {
    if last_sep(s) < 0 {
        s
    } else {
        s.subrange(last_sep(s) + 2, s.len() as int)
    }
}

/// What precedes the last separator of a path.
pub open spec fn parent_of(s: Seq<char>) -> Seq<char> {
    s.subrange(0, last_sep(s))
}

pub proof fn lemma_last_sep_below_bounds(s: Seq<char>, k: int)
    ensures
        -1 <= last_sep_below(s, k),
        last_sep_below(s, k) < k || k <= 0,
        last_sep_below(s, k) >= 0 ==> sep_at(s, last_sep_below(s, k)),
        forall|j: int| last_sep_below(s, k) < j < k ==> !sep_at(s, j),
    decreases k,
{
    if k > 0 && !sep_at(s, k - 1) {
        lemma_last_sep_below_bounds(s, k - 1);
    }
}

pub proof fn lemma_last_sep(s: Seq<char>)
    ensures
        -1 <= last_sep(s),
        last_sep(s) >= 0 ==> sep_at(s, last_sep(s)) && last_sep(s) + 2 <= s.len(),
        forall|j: int| last_sep(s) < j ==> !sep_at(s, j),
{
    lemma_last_sep_below_bounds(s, s.len() as int);
}

/// The characters of a string slice, one per element.
pub fn chars_of(s: &str) -> (r: Vec<char>)
    ensures
        r@ == s@,
{
    let n = s.unicode_len();
    let mut r: Vec<char> = Vec::new();
    let mut i: usize = 0;
    while i < n
        invariant
            n == s@.len(),
            i <= n,
            r@ == s@.subrange(0, i as int),
        decreases n - i,
    {
        let c = s.get_char(i);
        r.push(c);
        i = i + 1;
        assert(r@ =~= s@.subrange(0, i as int));
    }
    assert(r@ =~= s@);
    r
}

/// Whether `sub` occurs in `s` at position `i`.
pub fn occurs_at_exec(sub: &Vec<char>, s: &Vec<char>, i: usize) -> (r: bool)
    ensures
        r == occurs_at(sub@, s@, i as int),
{
    if i > s.len() || sub.len() > s.len() - i {
        return false;
    }
    let mut k: usize = 0;
    while k < sub.len()
        invariant
            i + sub.len() <= s.len(),
            k <= sub.len(),
            forall|t: int| 0 <= t < k ==> s@[i + t] == sub@[t],
        decreases sub.len() - k,
    {
        if s[i + k] != sub[k] {
            assert(s@.subrange(i as int, i + sub.len())[k as int] != sub@[k as int]);
            return false;
        }
        k = k + 1;
    }
    assert(s@.subrange(i as int, i + sub@.len()) =~= sub@);
    true
}

/// Whether two string slices hold the same characters.
pub fn str_eq(a: &str, b: &str) -> (r: bool)
    ensures
        r == (a@ == b@),
{
    let x = chars_of(a);
    let y = chars_of(b);
    if x.len() != y.len() {
        return false;
    }
    let r = occurs_at_exec(&x, &y, 0);
    assert(r ==> y@.subrange(0, x@.len() as int) =~= y@);
    assert(a@ == b@ ==> y@.subrange(0, x@.len() as int) =~= y@);
    r
}

/// Whether `p` is a prefix of `s`.
pub fn starts_with(s: &str, p: &str) -> (r: bool)
    ensures
        r == is_prefix(p@, s@),
{
    let x = chars_of(s);
    let y = chars_of(p);
    occurs_at_exec(&y, &x, 0)
}

/// Whether `sub` occurs in `s`.
pub fn contains_str(s: &str, sub: &str) -> (r: bool)
    ensures
        r == contains_seq(s@, sub@),
{
    let x = chars_of(s);
    let y = chars_of(sub);
    if y.len() == 0 {
        assert(occurs_at(sub@, s@, 0)) by {
            assert(s@.subrange(0, 0) =~= sub@);
        }
        return true;
    }
    let mut i: usize = 0;
    while i < x.len()
        invariant
            x@ == s@,
            y@ == sub@,
            forall|j: int| 0 <= j < i ==> !occurs_at(sub@, s@, j),
        decreases x.len() - i,
    {
        if occurs_at_exec(&y, &x, i) {
            return true;
        }
        i = i + 1;
    }
    assert forall|j: int| !occurs_at(sub@, s@, j) by {
        if 0 <= j < i {
        }
    }
    false
}

/// The position of the last separator of `s`, or `None`.
pub fn find_last_sep(s: &Vec<char>) -> (r: Option<usize>)
    ensures
        match r {
            Some(i) => i as int == last_sep(s@),
            None => last_sep(s@) == -1,
        },
{
    let mut k: usize = s.len();
    while k > 0
        invariant
            k <= s.len(),
            last_sep_below(s@, k as int) == last_sep(s@),
        decreases k,
    {
        if k < s.len() && s[k - 1] == ':' && s[k] == ':' {
            assert(s@.subrange(k - 1, k + 1) =~= path_sep());
            return Some(k - 1);
        }
        assert(!sep_at(s@, k - 1)) by {
            if sep_at(s@, k - 1) {
                assert(s@.subrange(k - 1, k + 1)[0] == s@[k - 1]);
                assert(s@.subrange(k - 1, k + 1)[1] == s@[k as int]);
            }
        }
        k = k - 1;
    }
    None
}

} // verus!

verus! {

/// `p` is a suffix of `s`.
pub open spec fn is_suffix(p: Seq<char>, s: Seq<char>) -> bool {
    occurs_at(p, s, s.len() - p.len())
}

/// Whether `p` is a suffix of `s`.
pub fn ends_with(s: &str, p: &str) -> (r: bool)
    ensures
        r == is_suffix(p@, s@),
{
    let x = chars_of(s);
    let y = chars_of(p);
    if y.len() > x.len() {
        return false;
    }
    occurs_at_exec(&y, &x, x.len() - y.len())
}

/// A copy of a string.
pub fn clone_string(s: &String) -> (r: String)
    ensures
        r@ == s@,
{
    s.clone()
}

/// `new` is `old` with one more element at the end.
pub open spec fn appended<T>(old: Seq<T>, new: Seq<T>) -> bool {
    new.len() == old.len() + 1 && new.subrange(0, old.len() as int) == old
}

} // verus!

//! The outcome of a rule: what was expected, in words, and every violation found.
use vstd::prelude::*;
use crate::ast::CodeSpan;

verus! {

/// `expected` is the rule in words; `actual` holds one record per violation.
#[derive(Debug)]
pub struct AssertionResult<V> {
    pub expected: String,
    pub actual: Vec<V>,
}

impl<V> AssertionResult<V> {
    pub fn new() -> (r: AssertionResult<V>)
        ensures
            r.expected@ == Seq::<char>::empty(),
            r.actual@.len() == 0,
    {
        AssertionResult { expected: String::new(), actual: Vec::new() }
    }

    pub fn push_expected(&mut self, expected: &str)
        ensures
            final(self).expected@ == old(self).expected@ + expected@,
            final(self).actual == old(self).actual,
    {
        self.expected.append(expected);
    }

    pub fn push_actual(&mut self, actual: V)
        ensures
            final(self).actual@ == old(self).actual@.push(actual),
            final(self).expected == old(self).expected,
    {
        self.actual.push(actual);
    }
}

/// The position of the first line feed of `s`, or -1.
pub open spec fn first_newline(s: Seq<char>) -> int
    decreases s.len(),
{
    if s.len() == 0 {
        -1
    } else if s[0] == '\n' {
        0
    } else if first_newline(s.drop_first()) < 0 {
        -1
    } else {
        first_newline(s.drop_first()) + 1
    }
}

/// A line without the carriage return that ended it.
pub open spec fn strip_cr(l: Seq<char>) -> Seq<char> {
    if l.len() > 0 && l.last() == '\r' {
        l.drop_last()
    } else {
        l
    }
}

/// The lines of `s`: split at each line feed (a carriage return before it is dropped), the
/// final line ending being optional.
pub open spec fn lines(s: Seq<char>) -> Seq<Seq<char>>
    decreases s.len(),
{
    let q = first_newline(s);
    if s.len() == 0 {
        Seq::empty()
    } else if q < 0 || q >= s.len() {
        seq![s]
    } else {
        seq![strip_cr(s.subrange(0, q))] + lines(s.subrange(q + 1, s.len() as int))
    }
}

/// Lines joined by line feeds.
pub open spec fn joined_lines(ls: Seq<Seq<char>>) -> Seq<char>
    decreases ls.len(),
{
    if ls.len() == 0 {
        Seq::empty()
    } else if ls.len() == 1 {
        ls[0]
    } else {
        joined_lines(ls.drop_last()) + seq!['\n'] + ls.last()
    }
}

/// The lines of `sample` whose number (counted from 1) lies from `span.start.line` to
/// `span.end.line`, both included, joined by line feeds.
pub open spec fn sample_region(sample: Seq<char>, span: CodeSpan) -> Seq<char> {
    let ls = lines(sample);
    let lo: int = if span.start.line == 0 { 0 } else { span.start.line - 1 };
    let hi: int = if span.end.line < ls.len() { span.end.line as int } else { ls.len() as int };
    if lo < hi {
        joined_lines(ls.subrange(lo, hi))
    } else {
        Seq::empty()
    }
}

proof fn lemma_first_newline(s: Seq<char>)
    ensures
        -1 <= first_newline(s) < s.len(),
        first_newline(s) >= 0 ==> s[first_newline(s)] == '\n',
        forall|j: int| 0 <= j < s.len() && (first_newline(s) < 0 || j < first_newline(s)) ==> s[j] != '\n',
    decreases s.len(),
{
    if s.len() > 0 {
        lemma_first_newline(s.drop_first());
        assert forall|j: int| 0 < j < s.len() implies s[j] == s.drop_first()[j - 1] by {}
    }
}

proof fn lemma_first_newline_at(s: Seq<char>, q: int)
    requires
        0 <= q < s.len(),
        s[q] == '\n',
        forall|j: int| 0 <= j < q ==> s[j] != '\n',
    ensures
        first_newline(s) == q,
{
    lemma_first_newline(s);
    if first_newline(s) < 0 {
        assert(s[q] != '\n');
    } else if first_newline(s) < q {
        assert(s[first_newline(s)] != '\n');
    } else if first_newline(s) > q {
        assert(s[q] != '\n');
    }
}

proof fn lemma_no_newline(s: Seq<char>)
    requires
        forall|j: int| 0 <= j < s.len() ==> s[j] != '\n',
    ensures
        first_newline(s) == -1,
{
    lemma_first_newline(s);
    if first_newline(s) >= 0 {
        assert(s[first_newline(s)] == '\n');
    }
}

proof fn lemma_lines_step(s: Seq<char>, p: int, q: int, end: int)
    requires
        0 <= p <= q < s.len(),
        s[q] == '\n',
        forall|j: int| p <= j < q ==> s[j] != '\n',
        s.subrange(p, end) == strip_cr(s.subrange(p, q)),
    ensures
        lines(s.subrange(p, s.len() as int)) == seq![s.subrange(p, end)] + lines(s.subrange(q + 1, s.len() as int)),
{
    let t = s.subrange(p, s.len() as int);
    lemma_first_newline_at(t, q - p);
    assert(t.subrange(0, q - p) =~= s.subrange(p, q));
    assert(t.subrange(q - p + 1, t.len() as int) =~= s.subrange(q + 1, s.len() as int));
}

proof fn lemma_lines_last(s: Seq<char>, p: int)
    requires
        0 <= p < s.len(),
        forall|j: int| p <= j < s.len() ==> s[j] != '\n',
    ensures
        lines(s.subrange(p, s.len() as int)) == seq![s.subrange(p, s.len() as int)],
{
    lemma_no_newline(s.subrange(p, s.len() as int));
}

/// The lines of `sample` from line `span.start.line` to line `span.end.line` (counted from
/// 1), joined by line feeds: the part of a source file that a report shows.
pub fn get_code_sample_region(sample: &str, span: &CodeSpan) -> (r: String)
    ensures
        r@ == sample_region(sample@, *span),
{
    let c = crate::text::chars_of(sample);
    let n = c.len();
    let ghost s = sample@;
    let mut starts: Vec<usize> = Vec::new();
    let mut ends: Vec<usize> = Vec::new();
    let ghost mut done: Seq<Seq<char>> = Seq::empty();
    let mut p: usize = 0;
    assert(s.subrange(0, n as int) =~= s);
    while p < n
        invariant
            c@ == s,
            s == sample@,
            n == s.len(),
            p <= n,
            starts.len() == done.len(),
            ends.len() == done.len(),
            forall|k: int| 0 <= k < done.len() ==> #[trigger] starts@[k] <= ends@[k] <= n && done[k] == s.subrange(starts@[k] as int, ends@[k] as int),
            lines(s) == done + lines(s.subrange(p as int, n as int)),
        decreases n - p,
    {
        let mut q: usize = p;
        while q < n && c[q] != '\n'
            invariant
                c@ == s,
                n == s.len(),
                p <= q <= n,
                forall|j: int| p <= j < q ==> s[j] != '\n',
            decreases n - q,
        {
            q = q + 1;
        }
        if q < n {
            let mut end: usize = q;
            if q > p && c[q - 1] == '\r' {
                end = q - 1;
                assert(s.subrange(p as int, end as int) =~= s.subrange(p as int, q as int).drop_last());
            } else {
                assert(s.subrange(p as int, end as int) =~= s.subrange(p as int, q as int));
            }
            proof {
                lemma_lines_step(s, p as int, q as int, end as int);
                assert(done.push(s.subrange(p as int, end as int)) + lines(s.subrange(q + 1, n as int))
                    =~= done + (seq![s.subrange(p as int, end as int)] + lines(s.subrange(q + 1, n as int))));
                done = done.push(s.subrange(p as int, end as int));
            }
            let ghost old_starts = starts@;
            let ghost old_ends = ends@;
            starts.push(p);
            ends.push(end);
            assert forall|k: int| 0 <= k < done.len() implies #[trigger] starts@[k] <= ends@[k] <= n && done[k] == s.subrange(starts@[k] as int, ends@[k] as int) by {
                if k < done.len() - 1 {
                    assert(starts@[k] == old_starts[k] && ends@[k] == old_ends[k]);
                }
            }
            p = q + 1;
        } else {
            proof {
                lemma_lines_last(s, p as int);
                assert(done.push(s.subrange(p as int, n as int)) + lines(s.subrange(n as int, n as int))
                    =~= done + seq![s.subrange(p as int, n as int)]);
                done = done.push(s.subrange(p as int, n as int));
            }
            let ghost old_starts = starts@;
            let ghost old_ends = ends@;
            starts.push(p);
            ends.push(n);
            assert forall|k: int| 0 <= k < done.len() implies #[trigger] starts@[k] <= ends@[k] <= n && done[k] == s.subrange(starts@[k] as int, ends@[k] as int) by {
                if k < done.len() - 1 {
                    assert(starts@[k] == old_starts[k] && ends@[k] == old_ends[k]);
                }
            }
            p = n;
        }
    }
    assert(lines(s.subrange(n as int, n as int)) =~= Seq::<Seq<char>>::empty());
    assert(lines(s) =~= done);
    let count = starts.len();
    let lo: usize = if span.start.line == 0 { 0 } else { span.start.line - 1 };
    let hi: usize = if span.end.line < count { span.end.line } else { count };
    let mut out = String::new();
    if lo >= hi {
        return out;
    }
    let mut k: usize = lo;
    while k < hi
        invariant
            c@ == s,
            s == sample@,
            lines(s) == done,
            starts.len() == done.len(),
            ends.len() == done.len(),
            n == s.len(),
            forall|j: int| 0 <= j < done.len() ==> #[trigger] starts@[j] <= ends@[j] <= n && done[j] == s.subrange(starts@[j] as int, ends@[j] as int),
            lo < hi <= done.len(),
            lo <= k <= hi,
            k == lo ==> out@ == Seq::<char>::empty(),
            k > lo ==> out@ == joined_lines(done.subrange(lo as int, k as int)),
        decreases hi - k,
    {
        if k > lo {
            proof {
                reveal_strlit("\n");
            }
            out.append("\n");
        }
        assert(starts@[k as int] <= ends@[k as int] <= n);
        let piece = sample.substring_char(starts[k], ends[k]);
        out.append(piece);
        proof {
            let sub = done.subrange(lo as int, k + 1);
            assert(sub.last() == done[k as int]);
            if k > lo {
                assert(sub.drop_last() =~= done.subrange(lo as int, k as int));
                assert("\n"@ =~= seq!['\n']);
            } else {
                assert(sub.len() == 1);
                assert(sub[0] == done[k as int]);
            }
        }
        k = k + 1;
    }
    out
}

} // verus!

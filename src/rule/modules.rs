//! Rules over modules.
use vstd::prelude::*;
use crate::assertion_result::AssertionResult;
use crate::ast::{CodeSpan, Visibility};
use crate::matches::ModuleMatches;
use crate::pattern::matches_module;
use crate::text::{appended, clone_string, ends_with, is_prefix, is_suffix, starts_with, str_eq};
use crate::tree::{Module, ModuleTree};
use crate::Filters;

verus! {

/// A condition on modules, or a conjunction between two of them.
#[derive(Debug)]
pub enum ConditionToken {
    AreDeclaredPublic,
    ResidesInAModule(String),
    AreDeclaredPrivate,
    HaveSimpleName(String),
    HaveSimpleEndingWith(String),
    HaveSimpleStartingWith(String),
    And,
    Or,
    Should,
}

#[derive(Debug)]
pub enum DependencyAssertionConjunction {
    OnlyHaveDependencyModule,
}

#[derive(Debug)]
pub enum DependencyAssertion {
    That,
}

/// An assertion on every matched module. After `OnlyHaveDependencyModule`, and up to the
/// next conjunction, `HaveSimpleName(p)` asserts that every import matches the pattern `p`.
#[derive(Debug)]
pub enum SimpleAssertions {
    BePublic,
    BePrivate,
    HaveSimpleName(String),
}

#[derive(Debug)]
pub enum AssertionConjunction {
    AndShould,
    OrShould,
}

#[derive(Debug)]
pub enum AssertionToken {
    SimpleAssertion(SimpleAssertions),
    Conjunction(AssertionConjunction),
    DependencyAssertion(DependencyAssertion),
    DependencyAssertionConjunction(DependencyAssertionConjunction),
}

/// One module that breaks an assertion. The crate root has no span.
#[derive(Debug)]
pub enum ModuleRuleViolation {
    BePrivate { module_name: String, location: String, span: Option<CodeSpan>, vis: Visibility },
    BePublic { module_name: String, location: String, span: Option<CodeSpan>, vis: Visibility },
    HaveSimpleName { module_name: String, pattern: String, location: String, span: Option<CodeSpan> },
    /// An import of module `accessed_in` that does not match `pattern`.
    DependencyHaveNameMatching { accessed_in: String, pattern: String, location: String, dependency: String, span: CodeSpan },
}

/// Module `k` of the index meets condition `c`.
pub open spec fn condition_holds(tree: &ModuleTree, k: int, c: ConditionToken) -> bool {
    let m = tree.modules@[k];
    match c {
        ConditionToken::AreDeclaredPublic => m.visibility == Visibility::Public,
        ConditionToken::AreDeclaredPrivate => m.visibility != Visibility::Public,
        ConditionToken::HaveSimpleName(n) => m.ident@ == n@,
        ConditionToken::HaveSimpleEndingWith(p) => is_suffix(p@, m.ident@),
        ConditionToken::HaveSimpleStartingWith(p) => is_prefix(p@, m.ident@),
        ConditionToken::ResidesInAModule(p) => matches_module(p@, m.path@),
        _ => true,
    }
}

/// The members of `against` that meet `c`.
pub open spec fn narrowed(tree: &ModuleTree, against: Set<int>, c: ConditionToken) -> Set<int> {
    Set::new(|k: int| against.contains(k) && condition_holds(tree, k, c))
}

/// The modules that a condition list selects from `universe`, read left to right as for
/// structs: after `Or` a condition adds what it selects from the universe, after `And` it
/// keeps what it selects from the modules selected so far; `Should` ends the list.
pub open spec fn eval_conditions(
    tree: &ModuleTree,
    conds: Seq<ConditionToken>,
    universe: Set<int>,
    acc: Set<int>,
    and_mode: bool,
) -> Set<int>
    decreases conds.len(),
{
    if conds.len() == 0 {
        acc
    } else {
        let rest = conds.drop_first();
        match conds[0] {
            ConditionToken::And => eval_conditions(tree, rest, universe, acc, true),
            ConditionToken::Or => eval_conditions(tree, rest, universe, acc, false),
            ConditionToken::Should => acc,
            _ => if and_mode {
                eval_conditions(tree, rest, universe, narrowed(tree, acc, conds[0]), true)
            } else {
                eval_conditions(tree, rest, universe, acc.union(narrowed(tree, universe, conds[0])), false)
            },
        }
    }
}

/// A condition in words.
pub open spec fn condition_text(c: ConditionToken) -> Seq<char> {
    match c {
        ConditionToken::AreDeclaredPublic => "are declared public"@,
        ConditionToken::AreDeclaredPrivate => "are declared private"@,
        ConditionToken::HaveSimpleName(n) => "have simple name '"@ + n@ + "'"@,
        ConditionToken::HaveSimpleEndingWith(p) => "have simple name ending with '"@ + p@ + "'"@,
        ConditionToken::HaveSimpleStartingWith(p) => "have simple name starting with '"@ + p@ + "'"@,
        ConditionToken::ResidesInAModule(p) => "resides in a modules that match '"@ + p@ + "'"@,
        ConditionToken::And => " and "@,
        ConditionToken::Or => " or "@,
        ConditionToken::Should => " to "@,
    }
}

/// A condition list in words, up to and including its `Should`.
pub open spec fn describe_conditions(conds: Seq<ConditionToken>) -> Seq<char>
    decreases conds.len(),
{
    if conds.len() == 0 {
        Seq::empty()
    } else if conds[0] is Should {
        condition_text(conds[0])
    } else {
        condition_text(conds[0]) + describe_conditions(conds.drop_first())
    }
}

/// The modules that a rule with conditions `conds` is about.
pub open spec fn selected(tree: &ModuleTree, filters: Filters, conds: Seq<ConditionToken>) -> Set<int> {
    if conds.len() == 0 {
        tree.kept_modules(filters)
    } else {
        eval_conditions(tree, conds, tree.kept_modules(filters), Set::empty(), false)
    }
}

/// The words that open the description of a rule with conditions `conds`.
pub open spec fn describe_selection(conds: Seq<ConditionToken>) -> Seq<char> {
    if conds.len() == 0 {
        "All modules should "@
    } else {
        "Modules that "@ + describe_conditions(conds)
    }
}

/// The imports `(d, i)` among the first `u` imports of module `d` that do not match `pattern`.
pub open spec fn import_mismatches(tree: &ModuleTree, d: int, pattern: Seq<char>, u: int) -> Seq<(int, int)>
    decreases u,
{
    if u <= 0 {
        Seq::empty()
    } else if !matches_module(pattern, tree.modules@[d].dependencies@[u - 1].parts@) {
        import_mismatches(tree, d, pattern, u - 1).push((d, u - 1))
    } else {
        import_mismatches(tree, d, pattern, u - 1)
    }
}

/// The imports that do not match `pattern` in module `k` and in the kept modules inside it,
/// among the first `n` modules, in module then import order.
pub open spec fn subtree_mismatches(tree: &ModuleTree, filters: Filters, k: int, pattern: Seq<char>, n: int) -> Seq<(int, int)>
    decreases n,
{
    if n <= 0 {
        Seq::empty()
    } else if tree.is_descendant(n - 1, k) && tree.included(filters, n - 1) {
        subtree_mismatches(tree, filters, k, pattern, n - 1) + import_mismatches(
            tree,
            n - 1,
            pattern,
            tree.modules@[n - 1].dependencies@.len() as int,
        )
    } else {
        subtree_mismatches(tree, filters, k, pattern, n - 1)
    }
}

/// The mismatching imports found for the members among the first `k` positions of
/// `members`, member by member.
pub open spec fn dependency_hits(tree: &ModuleTree, filters: Filters, members: Seq<bool>, pattern: Seq<char>, k: int) -> Seq<(int, int)>
    decreases k,
{
    if k <= 0 {
        Seq::empty()
    } else if members[k - 1] {
        dependency_hits(tree, filters, members, pattern, k - 1) + subtree_mismatches(
            tree,
            filters,
            k - 1,
            pattern,
            tree.modules@.len() as int,
        )
    } else {
        dependency_hits(tree, filters, members, pattern, k - 1)
    }
}

/// `v` reports that import `i` of module `d` does not match `pattern`.
pub open spec fn reports_import(v: ModuleRuleViolation, tree: &ModuleTree, d: int, i: int, pattern: Seq<char>) -> bool {
    v matches ModuleRuleViolation::DependencyHaveNameMatching { accessed_in, pattern: p, location, dependency, span }
        && accessed_in@ == tree.modules@[d].path@ && p@ == pattern && location@ == tree.modules@[d].real_path@
        && dependency@ == tree.modules@[d].dependencies@[i].parts@ && span == tree.modules@[d].dependencies@[i].span
}

/// Module `k` breaks assertion `a`.
pub open spec fn violates(tree: &ModuleTree, k: int, a: SimpleAssertions) -> bool {
    let m = tree.modules@[k];
    match a {
        SimpleAssertions::BePublic => m.visibility != Visibility::Public,
        SimpleAssertions::BePrivate => m.visibility == Visibility::Public,
        SimpleAssertions::HaveSimpleName(n) => m.ident@ != n@,
    }
}

/// The members among the first `k` positions of `members` that break `a`, in order.
pub open spec fn violators(tree: &ModuleTree, members: Seq<bool>, a: SimpleAssertions, k: int) -> Seq<int>
    decreases k,
{
    if k <= 0 {
        Seq::empty()
    } else if members[k - 1] && violates(tree, k - 1, a) {
        violators(tree, members, a, k - 1).push(k - 1)
    } else {
        violators(tree, members, a, k - 1)
    }
}

/// `v` reports that module `m` breaks assertion `a`.
pub open spec fn reports(v: ModuleRuleViolation, m: Module, a: SimpleAssertions) -> bool {
    match a {
        SimpleAssertions::BePublic => v matches ModuleRuleViolation::BePublic { module_name, location, span, vis }
            && module_name@ == m.ident@ && location@ == m.real_path@ && span == m.span && vis == m.visibility,
        SimpleAssertions::BePrivate => v matches ModuleRuleViolation::BePrivate { module_name, location, span, vis }
            && module_name@ == m.ident@ && location@ == m.real_path@ && span == m.span && vis == m.visibility,
        SimpleAssertions::HaveSimpleName(n) => v matches ModuleRuleViolation::HaveSimpleName { module_name, pattern, location, span }
            && module_name@ == m.ident@ && pattern@ == n@ && location@ == m.real_path@ && span == m.span,
    }
}

/// An assertion in words.
pub open spec fn assertion_text(a: SimpleAssertions, deps: bool) -> Seq<char> {
    match a {
        SimpleAssertions::BePublic => "be public"@,
        SimpleAssertions::BePrivate => "be private"@,
        SimpleAssertions::HaveSimpleName(n) => if deps {
            "only have dependencies matching pattern '"@ + n@ + "'"@
        } else {
            "have simple name '"@ + n@ + "'"@
        },
    }
}

/// How many records assertion `a` makes on the members of `members`: one per mismatching
/// import for an import pattern (`deps`), one per violating module otherwise.
pub open spec fn record_count(tree: &ModuleTree, filters: Filters, members: Seq<bool>, a: SimpleAssertions, deps: bool) -> int {
    match a {
        SimpleAssertions::HaveSimpleName(p) => if deps {
            dependency_hits(tree, filters, members, p@, members.len() as int).len() as int
        } else {
            violators(tree, members, a, members.len() as int).len() as int
        },
        _ => violators(tree, members, a, members.len() as int).len() as int,
    }
}

/// The records that assertion `a` makes start at position `start` of `out`.
pub open spec fn records_of(
    tree: &ModuleTree,
    filters: Filters,
    members: Seq<bool>,
    a: SimpleAssertions,
    deps: bool,
    out: Seq<ModuleRuleViolation>,
    start: int,
) -> bool {
    match a {
        SimpleAssertions::HaveSimpleName(p) => if deps {
            let hs = dependency_hits(tree, filters, members, p@, members.len() as int);
            forall|t: int| 0 <= t < hs.len() ==> reports_import(#[trigger] out[start + t], tree, hs[t].0, hs[t].1, p@)
        } else {
            let vs = violators(tree, members, a, members.len() as int);
            forall|t: int| 0 <= t < vs.len() ==> reports(#[trigger] out[start + t], tree.modules@[vs[t]], a)
        },
        _ => {
            let vs = violators(tree, members, a, members.len() as int);
            forall|t: int| 0 <= t < vs.len() ==> reports(#[trigger] out[start + t], tree.modules@[vs[t]], a)
        },
    }
}

/// Assertions read left to right as for structs; `OnlyHaveDependencyModule` switches name
/// assertions to import patterns until the next conjunction, and `That` reads as nothing.
pub open spec fn eval_assertions(
    tree: &ModuleTree,
    filters: Filters,
    members: Seq<bool>,
    asserts: Seq<AssertionToken>,
    success: bool,
    and_mode: bool,
    deps: bool,
) -> bool
    decreases asserts.len(),
{
    if asserts.len() == 0 {
        success
    } else {
        let rest = asserts.drop_first();
        match asserts[0] {
            AssertionToken::Conjunction(AssertionConjunction::AndShould) => eval_assertions(tree, filters, members, rest, success, true, false),
            AssertionToken::Conjunction(AssertionConjunction::OrShould) => eval_assertions(tree, filters, members, rest, success, false, false),
            AssertionToken::DependencyAssertionConjunction(_) => eval_assertions(tree, filters, members, rest, success, and_mode, true),
            AssertionToken::DependencyAssertion(_) => eval_assertions(tree, filters, members, rest, success, and_mode, deps),
            AssertionToken::SimpleAssertion(a) => {
                let o = record_count(tree, filters, members, a, deps) == 0;
                eval_assertions(tree, filters, members, rest, if and_mode { success && o } else { success || o }, and_mode, deps)
            },
        }
    }
}

/// An assertion list in words.
pub open spec fn describe_assertions(asserts: Seq<AssertionToken>, deps: bool) -> Seq<char>
    decreases asserts.len(),
{
    if asserts.len() == 0 {
        Seq::empty()
    } else {
        let rest = asserts.drop_first();
        match asserts[0] {
            AssertionToken::Conjunction(AssertionConjunction::AndShould) => " and "@ + describe_assertions(rest, false),
            AssertionToken::Conjunction(AssertionConjunction::OrShould) => " or "@ + describe_assertions(rest, false),
            AssertionToken::DependencyAssertionConjunction(_) => describe_assertions(rest, true),
            AssertionToken::DependencyAssertion(_) => describe_assertions(rest, deps),
            AssertionToken::SimpleAssertion(a) => assertion_text(a, deps) + describe_assertions(rest, deps),
        }
    }
}

/// How many violations an assertion list reports on the members of `members`.
pub open spec fn violation_total(tree: &ModuleTree, filters: Filters, members: Seq<bool>, asserts: Seq<AssertionToken>, deps: bool) -> int
    decreases asserts.len(),
{
    if asserts.len() == 0 {
        0
    } else {
        let rest = asserts.drop_first();
        match asserts[0] {
            AssertionToken::Conjunction(_) => violation_total(tree, filters, members, rest, false),
            AssertionToken::DependencyAssertionConjunction(_) => violation_total(tree, filters, members, rest, true),
            AssertionToken::DependencyAssertion(_) => violation_total(tree, filters, members, rest, deps),
            AssertionToken::SimpleAssertion(a) => record_count(tree, filters, members, a, deps)
                + violation_total(tree, filters, members, rest, deps),
        }
    }
}

/// Whether name assertions read as import patterns just before assertion token `j`.
pub open spec fn deps_at(asserts: Seq<AssertionToken>, j: int) -> bool
    decreases j,
{
    if j <= 0 {
        false
    } else {
        match asserts[j - 1] {
            AssertionToken::Conjunction(_) => false,
            AssertionToken::DependencyAssertionConjunction(_) => true,
            _ => deps_at(asserts, j - 1),
        }
    }
}

/// How many records the assertion tokens before position `j` make.
pub open spec fn records_start(tree: &ModuleTree, filters: Filters, members: Seq<bool>, asserts: Seq<AssertionToken>, j: int) -> int {
    violation_total(tree, filters, members, asserts, false) - violation_total(
        tree,
        filters,
        members,
        asserts.subrange(j, asserts.len() as int),
        deps_at(asserts, j),
    )
}

/// From position `n0` on, `out` holds the records of every assertion of `asserts`, in order.
pub open spec fn reports_all(
    tree: &ModuleTree,
    filters: Filters,
    members: Seq<bool>,
    asserts: Seq<AssertionToken>,
    out: Seq<ModuleRuleViolation>,
    n0: int,
) -> bool {
    forall|j: int|
        0 <= j < asserts.len() ==> (#[trigger] asserts[j] matches AssertionToken::SimpleAssertion(a) ==> records_of(
            tree,
            filters,
            members,
            a,
            deps_at(asserts, j),
            out,
            n0 + records_start(tree, filters, members, asserts, j),
        ))
}

proof fn lemma_total_nonneg(tree: &ModuleTree, filters: Filters, members: Seq<bool>, asserts: Seq<AssertionToken>, deps: bool)
    ensures
        violation_total(tree, filters, members, asserts, deps) >= 0,
    decreases asserts.len(),
{
    if asserts.len() > 0 {
        lemma_total_nonneg(tree, filters, members, asserts.drop_first(), false);
        lemma_total_nonneg(tree, filters, members, asserts.drop_first(), true);
        lemma_total_nonneg(tree, filters, members, asserts.drop_first(), deps);
    }
}

/// A rule on modules: its conditions and assertions in the order written, the filters,
/// the modules matched so far and the accumulated result.
#[derive(Debug)]
pub struct ModuleArchRule {
    pub conditions: Vec<ConditionToken>,
    pub assertions: Vec<AssertionToken>,
    pub filters: Filters,
    pub subject: ModuleMatches,
    pub assertion_results: AssertionResult<ModuleRuleViolation>,
}

/// The record of module `m` breaking `a`.
fn report(m: &Module, a: &SimpleAssertions) -> (r: ModuleRuleViolation)
    ensures
        reports(r, *m, *a),
{
    let location = clone_string(&m.real_path);
    match a {
        SimpleAssertions::BePublic => ModuleRuleViolation::BePublic { module_name: clone_string(&m.ident), location, span: m.span, vis: m.visibility },
        SimpleAssertions::BePrivate => ModuleRuleViolation::BePrivate { module_name: clone_string(&m.ident), location, span: m.span, vis: m.visibility },
        SimpleAssertions::HaveSimpleName(n) => ModuleRuleViolation::HaveSimpleName {
            module_name: clone_string(&m.ident),
            pattern: clone_string(n),
            location,
            span: m.span,
        },
    }
}

/// Whether module `k` meets condition `c`.
fn holds(tree: &ModuleTree, k: usize, c: &ConditionToken) -> (r: bool)
    requires
        k < tree.modules.len(),
    ensures
        r == condition_holds(tree, k as int, *c),
{
    let m = &tree.modules[k];
    match c {
        ConditionToken::AreDeclaredPublic => m.is_public(),
        ConditionToken::AreDeclaredPrivate => !m.is_public(),
        ConditionToken::HaveSimpleName(n) => str_eq(m.ident.as_str(), n.as_str()),
        ConditionToken::HaveSimpleEndingWith(p) => ends_with(m.ident.as_str(), p.as_str()),
        ConditionToken::HaveSimpleStartingWith(p) => starts_with(m.ident.as_str(), p.as_str()),
        ConditionToken::ResidesInAModule(p) => m.path_match(p.as_str()),
        _ => true,
    }
}

/// Whether module `k` breaks assertion `a`.
fn breaks(tree: &ModuleTree, k: usize, a: &SimpleAssertions) -> (r: bool)
    requires
        k < tree.modules.len(),
    ensures
        r == violates(tree, k as int, *a),
{
    let m = &tree.modules[k];
    match a {
        SimpleAssertions::BePublic => !m.is_public(),
        SimpleAssertions::BePrivate => m.is_public(),
        SimpleAssertions::HaveSimpleName(n) => !str_eq(m.ident.as_str(), n.as_str()),
    }
}

/// The members of `against` that meet `c`.
fn narrow(tree: &ModuleTree, against: &ModuleMatches, c: &ConditionToken) -> (r: ModuleMatches)
    requires
        against.members.len() == tree.modules.len(),
    ensures
        r.members.len() == tree.modules.len(),
        r@ == narrowed(tree, against@, *c),
{
    let mut m: Vec<bool> = Vec::new();
    let mut k: usize = 0;
    while k < against.members.len()
        invariant
            against.members.len() == tree.modules.len(),
            k <= against.members.len(),
            m.len() == k,
            forall|j: int| 0 <= j < k ==> m@[j] == (against.members@[j] && condition_holds(tree, j, *c)),
        decreases against.members.len() - k,
    {
        let keep = against.members[k] && holds(tree, k, c);
        m.push(keep);
        k = k + 1;
    }
    let r = ModuleMatches { members: m };
    assert(r@ =~= narrowed(tree, against@, *c));
    r
}

fn no_modules(n: usize) -> (r: ModuleMatches)
    ensures
        r.members.len() == n,
        r@ == Set::<int>::empty(),
{
    let mut m: Vec<bool> = Vec::new();
    let mut k: usize = 0;
    while k < n
        invariant
            k <= n,
            m.len() == k,
            forall|j: int| 0 <= j < k ==> !m@[j],
        decreases n - k,
    {
        m.push(false);
        k = k + 1;
    }
    let r = ModuleMatches { members: m };
    assert(r@ =~= Set::<int>::empty());
    r
}

/// Appends assertion `a` in words to `results`.
fn push_assertion_text(results: &mut AssertionResult<ModuleRuleViolation>, a: &SimpleAssertions, deps: bool)
    ensures
        final(results).expected@ == old(results).expected@ + assertion_text(*a, deps),
        final(results).actual == old(results).actual,
{
    match a {
        SimpleAssertions::BePublic => results.push_expected("be public"),
        SimpleAssertions::BePrivate => results.push_expected("be private"),
        SimpleAssertions::HaveSimpleName(n) => {
            if deps {
                results.push_expected("only have dependencies matching pattern '");
            } else {
                results.push_expected("have simple name '");
            }
            results.push_expected(n.as_str());
            results.push_expected("'");
        },
    }
}

/// Checks assertion `a` against every member of `subject`: records in `results` one
/// violation per module that breaks it, in index order, and returns whether there was none.
pub fn check_assertion(
    results: &mut AssertionResult<ModuleRuleViolation>,
    subject: &ModuleMatches,
    tree: &ModuleTree,
    a: &SimpleAssertions,
) -> (r: bool)
    requires
        subject.members.len() == tree.modules.len(),
    ensures
        ({
            let vs = violators(tree, subject.members@, *a, tree.modules@.len() as int);
            let n0 = old(results).actual@.len();
            &&& final(results).actual@.len() == n0 + vs.len()
            &&& final(results).actual@.subrange(0, n0 as int) == old(results).actual@
            &&& forall|t: int| 0 <= t < vs.len() ==> reports(
                #[trigger] final(results).actual@[n0 + t],
                tree.modules@[vs[t]],
                *a,
            )
            &&& r == (vs.len() == 0)
        }),
        final(results).expected@ == old(results).expected@ + assertion_text(*a, false),
{
    push_assertion_text(results, a, false);
    let ghost n0 = results.actual@.len();
    let ghost members = subject.members@;
    let mut k: usize = 0;
    let mut found = false;
    while k < subject.members.len()
        invariant
            subject.members.len() == tree.modules.len(),
            members == subject.members@,
            results.expected@ == old(results).expected@ + assertion_text(*a, false),
            n0 == old(results).actual@.len(),
            k <= tree.modules.len(),
            ({
                let vs = violators(tree, members, *a, k as int);
                &&& results.actual@.len() == n0 + vs.len()
                &&& results.actual@.subrange(0, n0 as int) == old(results).actual@
                &&& forall|t: int| 0 <= t < vs.len() ==> reports(
                    #[trigger] results.actual@[n0 + t],
                    tree.modules@[vs[t]],
                    *a,
                )
                &&& found == (vs.len() > 0)
            }),
        decreases tree.modules.len() - k,
    {
        let ghost before = results.actual@;
        if subject.members[k] && breaks(tree, k, a) {
            let v = report(&tree.modules[k], a);
            results.push_actual(v);
            found = true;
            assert(results.actual@.subrange(0, n0 as int) =~= before.subrange(0, n0 as int));
        }
        k = k + 1;
    }
    !found
}

/// Records every import of module `d` that does not match `pattern`.
fn scan_imports(tree: &ModuleTree, d: usize, pattern: &String, out: &mut Vec<ModuleRuleViolation>)
    requires
        d < tree.modules.len(),
    ensures
        ({
            let hs = import_mismatches(tree, d as int, pattern@, tree.modules@[d as int].dependencies@.len() as int);
            let n0 = old(out)@.len();
            &&& final(out)@.len() == n0 + hs.len()
            &&& final(out)@.subrange(0, n0 as int) == old(out)@
            &&& forall|t: int| 0 <= t < hs.len() ==> reports_import(#[trigger] final(out)@[n0 + t], tree, hs[t].0, hs[t].1, pattern@)
        }),
{
    let module = &tree.modules[d];
    let ghost n0 = out@.len();
    let mut i: usize = 0;
    while i < module.dependencies.len()
        invariant
            d < tree.modules.len(),
            module == tree.modules@[d as int],
            n0 == old(out)@.len(),
            i <= module.dependencies.len(),
            ({
                let hs = import_mismatches(tree, d as int, pattern@, i as int);
                &&& out@.len() == n0 + hs.len()
                &&& out@.subrange(0, n0 as int) == old(out)@
                &&& forall|t: int| 0 <= t < hs.len() ==> reports_import(#[trigger] out@[n0 + t], tree, hs[t].0, hs[t].1, pattern@)
            }),
        decreases module.dependencies.len() - i,
    {
        let usage = &module.dependencies[i];
        let ghost before = out@;
        if !usage.matching(pattern.as_str()) {
            let v = ModuleRuleViolation::DependencyHaveNameMatching {
                accessed_in: String::from_str(module.path.as_str()),
                pattern: clone_string(pattern),
                location: clone_string(&module.real_path),
                dependency: clone_string(&usage.parts),
                span: usage.span,
            };
            out.push(v);
            assert(out@.subrange(0, n0 as int) =~= before.subrange(0, n0 as int));
        }
        i = i + 1;
    }
}

/// Records every import that does not match `pattern` in module `k` and in the modules
/// inside it that `kept` holds (the modules kept by `filters`).
fn scan_subtree(tree: &ModuleTree, filters: &Filters, kept: &ModuleMatches, k: usize, pattern: &String, out: &mut Vec<ModuleRuleViolation>)
    requires
        tree.wf(),
        kept.members.len() == tree.modules.len(),
        kept@ == tree.kept_modules(*filters),
    ensures
        ({
            let hs = subtree_mismatches(tree, *filters, k as int, pattern@, tree.modules@.len() as int);
            let n0 = old(out)@.len();
            &&& final(out)@.len() == n0 + hs.len()
            &&& final(out)@.subrange(0, n0 as int) == old(out)@
            &&& forall|t: int| 0 <= t < hs.len() ==> reports_import(#[trigger] final(out)@[n0 + t], tree, hs[t].0, hs[t].1, pattern@)
        }),
{
    let ghost n0 = out@.len();
    let mut d: usize = 0;
    while d < tree.modules.len()
        invariant
            tree.wf(),
            kept.members.len() == tree.modules.len(),
            kept@ == tree.kept_modules(*filters),
            n0 == old(out)@.len(),
            d <= tree.modules.len(),
            ({
                let hs = subtree_mismatches(tree, *filters, k as int, pattern@, d as int);
                &&& out@.len() == n0 + hs.len()
                &&& out@.subrange(0, n0 as int) == old(out)@
                &&& forall|t: int| 0 <= t < hs.len() ==> reports_import(#[trigger] out@[n0 + t], tree, hs[t].0, hs[t].1, pattern@)
            }),
        decreases tree.modules.len() - d,
    {
        assert(kept@.contains(d as int) == kept.members@[d as int]);
        if kept.members[d] && tree.is_inside(d, k) {
            let ghost before = out@;
            let ghost prev = subtree_mismatches(tree, *filters, k as int, pattern@, d as int);
            scan_imports(tree, d, pattern, out);
            proof {
                let mh = import_mismatches(tree, d as int, pattern@, tree.modules@[d as int].dependencies@.len() as int);
                let hs = subtree_mismatches(tree, *filters, k as int, pattern@, d + 1);
                assert(hs == prev + mh);
                assert(out@.subrange(0, n0 as int) =~= out@.subrange(0, before.len() as int).subrange(0, n0 as int));
                assert forall|t: int| 0 <= t < hs.len() implies reports_import(#[trigger] out@[n0 + t], tree, hs[t].0, hs[t].1, pattern@) by {
                    if t < prev.len() {
                        assert(out@[n0 + t] == out@.subrange(0, before.len() as int)[n0 + t]);
                        assert(hs[t] == prev[t]);
                    } else {
                        let u = t - prev.len();
                        assert(hs[t] == mh[u]);
                        assert(out@[n0 + t] == out@[before.len() + u]);
                    }
                }
            }
        }
        d = d + 1;
    }
}

/// Checks that every import of each member of `subject`, and of the modules inside it that
/// `filters` keep, matches `pattern`: records one violation per import that does not, and
/// returns whether there was none.
pub fn check_dependencies(
    results: &mut AssertionResult<ModuleRuleViolation>,
    subject: &ModuleMatches,
    filters: &Filters,
    tree: &ModuleTree,
    pattern: &String,
) -> (r: bool)
    requires
        tree.wf(),
        subject.members.len() == tree.modules.len(),
    ensures
        ({
            let hs = dependency_hits(tree, *filters, subject.members@, pattern@, tree.modules@.len() as int);
            let n0 = old(results).actual@.len();
            &&& final(results).actual@.len() == n0 + hs.len()
            &&& final(results).actual@.subrange(0, n0 as int) == old(results).actual@
            &&& forall|t: int| 0 <= t < hs.len() ==> reports_import(#[trigger] final(results).actual@[n0 + t], tree, hs[t].0, hs[t].1, pattern@)
            &&& r == (hs.len() == 0)
        }),
        final(results).expected@ == old(results).expected@ + assertion_text(SimpleAssertions::HaveSimpleName(*pattern), true),
{
    results.push_expected("only have dependencies matching pattern '");
    results.push_expected(pattern.as_str());
    results.push_expected("'");
    let kept = tree.flatten(filters);
    let start: usize = results.actual.len();
    let ghost n0 = results.actual@.len();
    let ghost members = subject.members@;
    let mut k: usize = 0;
    while k < subject.members.len()
        invariant
            tree.wf(),
            subject.members.len() == tree.modules.len(),
            members == subject.members@,
            kept.members.len() == tree.modules.len(),
            kept@ == tree.kept_modules(*filters),
            results.expected@ == old(results).expected@ + assertion_text(SimpleAssertions::HaveSimpleName(*pattern), true),
            n0 == old(results).actual@.len(),
            start == n0,
            k <= tree.modules.len(),
            ({
                let hs = dependency_hits(tree, *filters, members, pattern@, k as int);
                &&& results.actual@.len() == n0 + hs.len()
                &&& results.actual@.subrange(0, n0 as int) == old(results).actual@
                &&& forall|t: int| 0 <= t < hs.len() ==> reports_import(#[trigger] results.actual@[n0 + t], tree, hs[t].0, hs[t].1, pattern@)
            }),
        decreases tree.modules.len() - k,
    {
        if subject.members[k] {
            let ghost before = results.actual@;
            let ghost prev = dependency_hits(tree, *filters, members, pattern@, k as int);
            scan_subtree(tree, filters, &kept, k, pattern, &mut results.actual);
            proof {
                let mh = subtree_mismatches(tree, *filters, k as int, pattern@, tree.modules@.len() as int);
                let hs = dependency_hits(tree, *filters, members, pattern@, k + 1);
                assert(hs == prev + mh);
                assert(results.actual@.subrange(0, n0 as int) =~= results.actual@.subrange(0, before.len() as int).subrange(0, n0 as int));
                assert forall|t: int| 0 <= t < hs.len() implies reports_import(#[trigger] results.actual@[n0 + t], tree, hs[t].0, hs[t].1, pattern@) by {
                    if t < prev.len() {
                        assert(results.actual@[n0 + t] == results.actual@.subrange(0, before.len() as int)[n0 + t]);
                        assert(hs[t] == prev[t]);
                    } else {
                        let u = t - prev.len();
                        assert(hs[t] == mh[u]);
                        assert(results.actual@[n0 + t] == results.actual@[before.len() + u]);
                    }
                }
            }
        }
        k = k + 1;
    }
    results.actual.len() == start
}

proof fn lemma_records_stable(
    tree: &ModuleTree,
    filters: Filters,
    members: Seq<bool>,
    a: SimpleAssertions,
    deps: bool,
    out1: Seq<ModuleRuleViolation>,
    out2: Seq<ModuleRuleViolation>,
    start: int,
)
    requires
        0 <= start,
        start + record_count(tree, filters, members, a, deps) <= out1.len() <= out2.len(),
        out2.subrange(0, out1.len() as int) == out1,
        records_of(tree, filters, members, a, deps, out1, start),
    ensures
        records_of(tree, filters, members, a, deps, out2, start),
{
    assert forall|x: int| 0 <= x < out1.len() implies out2[x] == out1[x] by {
        assert(out2[x] == out2.subrange(0, out1.len() as int)[x]);
    }
    match a {
        SimpleAssertions::HaveSimpleName(p) => {
            if deps {
                let hs = dependency_hits(tree, filters, members, p@, members.len() as int);
                assert forall|t: int| 0 <= t < hs.len() implies reports_import(#[trigger] out2[start + t], tree, hs[t].0, hs[t].1, p@) by {
                    assert(out2[start + t] == out1[start + t]);
                }
            } else {
                let vs = violators(tree, members, a, members.len() as int);
                assert forall|t: int| 0 <= t < vs.len() implies reports(#[trigger] out2[start + t], tree.modules@[vs[t]], a) by {
                    assert(out2[start + t] == out1[start + t]);
                }
            }
        },
        _ => {
            let vs = violators(tree, members, a, members.len() as int);
            assert forall|t: int| 0 <= t < vs.len() implies reports(#[trigger] out2[start + t], tree.modules@[vs[t]], a) by {
                assert(out2[start + t] == out1[start + t]);
            }
        },
    }
}

impl ModuleArchRule {
    pub fn new(filters: Filters) -> (r: ModuleArchRule)
        ensures
            r.conditions@.len() == 0,
            r.assertions@.len() == 0,
            r.filters == filters,
            r.subject.members@.len() == 0,
            r.assertion_results.expected@ == Seq::<char>::empty(),
            r.assertion_results.actual@.len() == 0,
    {
        ModuleArchRule {
            conditions: Vec::new(),
            assertions: Vec::new(),
            filters,
            subject: ModuleMatches { members: Vec::new() },
            assertion_results: AssertionResult::new(),
        }
    }

    /// Narrows the modules of the index to those the conditions select (all of them when
    /// there is no condition), and describes the selection in `expected`.
    pub fn apply_conditions(&mut self, tree: &ModuleTree)
        requires
            tree.wf(),
        ensures
            final(self).subject.members.len() == tree.modules.len(),
            final(self).subject@ == selected(tree, old(self).filters, old(self).conditions@),
            final(self).assertion_results.expected@ == old(self).assertion_results.expected@
                + describe_selection(old(self).conditions@),
            final(self).assertion_results.actual == old(self).assertion_results.actual,
            final(self).conditions == old(self).conditions,
            final(self).assertions == old(self).assertions,
            final(self).filters == old(self).filters,
    {
        let modules = tree.flatten(&self.filters);
        if self.conditions.len() == 0 {
            self.assertion_results.push_expected("All modules should ");
            self.subject = modules;
            return;
        }
        self.assertion_results.push_expected("Modules that ");
        let ghost conds = self.conditions@;
        let ghost start = self.assertion_results.expected@;
        let ghost universe = modules@;
        let mut matches = no_modules(tree.modules.len());
        let mut and_mode = false;
        let mut stopped = false;
        let mut i: usize = 0;
        assert(conds.subrange(0, conds.len() as int) =~= conds);
        while i < self.conditions.len() && !stopped
            invariant
                conds == self.conditions@,
                universe == modules@,
                universe == tree.kept_modules(self.filters),
                modules.members.len() == tree.modules.len(),
                matches.members.len() == tree.modules.len(),
                i <= conds.len(),
                self.conditions == old(self).conditions,
                self.assertions == old(self).assertions,
                self.filters == old(self).filters,
                self.assertion_results.actual == old(self).assertion_results.actual,
                !stopped ==> eval_conditions(tree, conds.subrange(i as int, conds.len() as int), universe, matches@, and_mode)
                    == eval_conditions(tree, conds, universe, Set::empty(), false),
                stopped ==> matches@ == eval_conditions(tree, conds, universe, Set::empty(), false),
                !stopped ==> self.assertion_results.expected@ + describe_conditions(conds.subrange(i as int, conds.len() as int))
                    == start + describe_conditions(conds),
                stopped ==> self.assertion_results.expected@ == start + describe_conditions(conds),
            decreases conds.len() - i,
        {
            let ghost rest = conds.subrange(i as int, conds.len() as int);
            assert(rest.drop_first() =~= conds.subrange(i + 1, conds.len() as int));
            match &self.conditions[i] {
                ConditionToken::And => {
                    self.assertion_results.push_expected(" and ");
                    and_mode = true;
                },
                ConditionToken::Or => {
                    self.assertion_results.push_expected(" or ");
                    and_mode = false;
                },
                ConditionToken::Should => {
                    self.assertion_results.push_expected(" to ");
                    stopped = true;
                },
                c => {
                    match c {
                        ConditionToken::AreDeclaredPublic => self.assertion_results.push_expected("are declared public"),
                        ConditionToken::AreDeclaredPrivate => self.assertion_results.push_expected("are declared private"),
                        ConditionToken::HaveSimpleName(n) => {
                            self.assertion_results.push_expected("have simple name '");
                            self.assertion_results.push_expected(n.as_str());
                            self.assertion_results.push_expected("'");
                        },
                        ConditionToken::HaveSimpleEndingWith(p) => {
                            self.assertion_results.push_expected("have simple name ending with '");
                            self.assertion_results.push_expected(p.as_str());
                            self.assertion_results.push_expected("'");
                        },
                        ConditionToken::HaveSimpleStartingWith(p) => {
                            self.assertion_results.push_expected("have simple name starting with '");
                            self.assertion_results.push_expected(p.as_str());
                            self.assertion_results.push_expected("'");
                        },
                        ConditionToken::ResidesInAModule(p) => {
                            self.assertion_results.push_expected("resides in a modules that match '");
                            self.assertion_results.push_expected(p.as_str());
                            self.assertion_results.push_expected("'");
                        },
                        _ => {},
                    }
                    if and_mode {
                        matches = narrow(tree, &matches, c);
                    } else {
                        let m = narrow(tree, &modules, c);
                        matches.extend(m);
                    }
                },
            }
            i = i + 1;
        }
        self.subject = matches;
    }

    /// Checks the assertions in order against the matched modules and returns their
    /// composed outcome; every violation is recorded, assertion by assertion, and the
    /// assertions are described.
    pub fn apply_assertions(&mut self, tree: &ModuleTree) -> (r: bool)
        requires
            tree.wf(),
            old(self).subject.members.len() == tree.modules.len(),
        ensures
            r == eval_assertions(tree, old(self).filters, old(self).subject.members@, old(self).assertions@, false, false, false),
            final(self).assertion_results.expected@ == old(self).assertion_results.expected@
                + describe_assertions(old(self).assertions@, false),
            final(self).assertion_results.actual@.len() == old(self).assertion_results.actual@.len()
                + violation_total(tree, old(self).filters, old(self).subject.members@, old(self).assertions@, false),
            final(self).assertion_results.actual@.subrange(0, old(self).assertion_results.actual@.len() as int)
                == old(self).assertion_results.actual@,
            reports_all(tree, old(self).filters, old(self).subject.members@, old(self).assertions@,
                final(self).assertion_results.actual@, old(self).assertion_results.actual@.len() as int),
            final(self).conditions == old(self).conditions,
            final(self).assertions == old(self).assertions,
            final(self).filters == old(self).filters,
            final(self).subject == old(self).subject,
    {
        let ghost asserts = self.assertions@;
        let ghost members = self.subject.members@;
        let ghost e0 = self.assertion_results.expected@;
        let ghost n0 = self.assertion_results.actual@.len();
        let ghost f = self.filters;
        let mut success = false;
        let mut and_mode = false;
        let mut deps = false;
        let mut i: usize = 0;
        assert(asserts.subrange(0, asserts.len() as int) =~= asserts);
        while i < self.assertions.len()
            invariant
                tree.wf(),
                asserts == self.assertions@,
                members == self.subject.members@,
                f == self.filters,
                self.subject.members.len() == tree.modules.len(),
                i <= asserts.len(),
                deps == deps_at(asserts, i as int),
                self.conditions == old(self).conditions,
                self.assertions == old(self).assertions,
                self.filters == old(self).filters,
                self.subject == old(self).subject,
                eval_assertions(tree, f, members, asserts.subrange(i as int, asserts.len() as int), success, and_mode, deps)
                    == eval_assertions(tree, f, members, asserts, false, false, false),
                self.assertion_results.expected@ + describe_assertions(asserts.subrange(i as int, asserts.len() as int), deps)
                    == e0 + describe_assertions(asserts, false),
                self.assertion_results.actual@.len() + violation_total(tree, f, members, asserts.subrange(i as int, asserts.len() as int), deps)
                    == n0 + violation_total(tree, f, members, asserts, false),
                self.assertion_results.actual@.subrange(0, n0 as int) == old(self).assertion_results.actual@,
                n0 <= self.assertion_results.actual@.len(),
                forall|j: int| 0 <= j < i ==> (#[trigger] asserts[j] matches AssertionToken::SimpleAssertion(a) ==>
                    n0 + records_start(tree, f, members, asserts, j) >= n0
                    && n0 + records_start(tree, f, members, asserts, j) + record_count(tree, f, members, a, deps_at(asserts, j))
                        <= self.assertion_results.actual@.len()
                    && records_of(tree, f, members, a, deps_at(asserts, j), self.assertion_results.actual@,
                        n0 + records_start(tree, f, members, asserts, j))),
            decreases asserts.len() - i,
        {
            let ghost rest = asserts.subrange(i as int, asserts.len() as int);
            assert(rest.drop_first() =~= asserts.subrange(i + 1, asserts.len() as int));
            assert(rest[0] == asserts[i as int]);
            let ghost before = self.assertion_results.actual@;
            let ghost deps_before = deps;
            match &self.assertions[i] {
                AssertionToken::Conjunction(AssertionConjunction::AndShould) => {
                    self.assertion_results.push_expected(" and ");
                    and_mode = true;
                    deps = false;
                },
                AssertionToken::Conjunction(AssertionConjunction::OrShould) => {
                    self.assertion_results.push_expected(" or ");
                    and_mode = false;
                    deps = false;
                },
                AssertionToken::DependencyAssertionConjunction(_) => {
                    deps = true;
                },
                AssertionToken::DependencyAssertion(_) => {},
                AssertionToken::SimpleAssertion(a) => {
                    let outcome = match a {
                        SimpleAssertions::HaveSimpleName(p) => if deps {
                            check_dependencies(&mut self.assertion_results, &self.subject, &self.filters, tree, p)
                        } else {
                            check_assertion(&mut self.assertion_results, &self.subject, tree, a)
                        },
                        _ => check_assertion(&mut self.assertion_results, &self.subject, tree, a),
                    };
                    success = if and_mode {
                        success && outcome
                    } else {
                        success || outcome
                    };
                    proof {
                        let now = self.assertion_results.actual@;
                        assert(now.subrange(0, n0 as int) =~= now.subrange(0, before.len() as int).subrange(0, n0 as int));
                        assert(n0 + records_start(tree, f, members, asserts, i as int) == before.len());
                        lemma_total_nonneg(tree, f, members, rest.drop_first(), deps);
                        assert forall|j: int| 0 <= j < i + 1 implies (#[trigger] asserts[j] matches AssertionToken::SimpleAssertion(b) ==>
                            n0 + records_start(tree, f, members, asserts, j) >= n0
                            && n0 + records_start(tree, f, members, asserts, j) + record_count(tree, f, members, b, deps_at(asserts, j))
                                <= now.len()
                            && records_of(tree, f, members, b, deps_at(asserts, j), now,
                                n0 + records_start(tree, f, members, asserts, j))) by {
                            if j < i {
                                if let AssertionToken::SimpleAssertion(b) = asserts[j] {
                                    lemma_records_stable(tree, f, members, b, deps_at(asserts, j), before, now,
                                        n0 + records_start(tree, f, members, asserts, j));
                                }
                            }
                        }
                    }
                },
            }
            proof {
                if !(asserts[i as int] is SimpleAssertion) {
                    let now = self.assertion_results.actual@;
                    assert(now == before);
                }
            }
            i = i + 1;
        }
        assert(self.assertion_results.expected@ =~= e0 + describe_assertions(asserts, false));
        success
    }
}

/// The members that a rule with conditions `conds` selects, as a mask over the modules.
pub open spec fn selected_members(tree: &ModuleTree, filters: Filters, conds: Seq<ConditionToken>) -> Seq<bool> {
    Seq::new(tree.modules@.len(), |k: int| selected(tree, filters, conds).contains(k))
}

/// The rule passes: the composed assertion outcome holds and no violation is found.
pub open spec fn rule_passes(
    tree: &ModuleTree,
    filters: Filters,
    conds: Seq<ConditionToken>,
    asserts: Seq<AssertionToken>,
) -> bool {
    let members = selected_members(tree, filters, conds);
    eval_assertions(tree, filters, members, asserts, false, false, false) && violation_total(tree, filters, members, asserts, false) == 0
}

impl ModuleArchRule {
    /// Evaluates the rule once: conditions, then assertions. A failure carries the
    /// description and every violation, assertion by assertion.
    pub fn check(self, tree: &ModuleTree) -> (r: Result<(), AssertionResult<ModuleRuleViolation>>)
        requires
            tree.wf(),
        ensures
            r is Ok <==> rule_passes(tree, self.filters, self.conditions@, self.assertions@)
                && self.assertion_results.actual@.len() == 0,
            r matches Err(res) ==> res.expected@ == self.assertion_results.expected@
                + describe_selection(self.conditions@) + describe_assertions(self.assertions@, false),
            r matches Err(res) ==> res.actual@.len() == self.assertion_results.actual@.len()
                + violation_total(tree, self.filters, selected_members(tree, self.filters, self.conditions@), self.assertions@, false),
            r matches Err(res) ==> res.actual@.subrange(0, self.assertion_results.actual@.len() as int) == self.assertion_results.actual@,
            r matches Err(res) ==> reports_all(tree, self.filters, selected_members(tree, self.filters, self.conditions@),
                self.assertions@, res.actual@, self.assertion_results.actual@.len() as int),
    {
        let mut rule = self;
        rule.apply_conditions(tree);
        let ghost members = rule.subject.members@;
        assert(members =~= selected_members(tree, self.filters, self.conditions@));
        let composed = rule.apply_assertions(tree);
        proof {
            lemma_total_nonneg(tree, self.filters, members, self.assertions@, false);
        }
        if composed && rule.assertion_results.actual.len() == 0 {
            Ok(())
        } else {
            assert(rule.assertion_results.expected@ =~= self.assertion_results.expected@
                + describe_selection(self.conditions@) + describe_assertions(self.assertions@, false));
            Err(rule.assertion_results)
        }
    }
}

/// `new` is `old` with condition `c` added at the end and all else kept.
pub open spec fn adds_condition(old: ModuleArchRule, new: ModuleArchRule, c: spec_fn(ConditionToken) -> bool) -> bool {
    &&& appended(old.conditions@, new.conditions@)
    &&& c(new.conditions@.last())
    &&& new.assertions == old.assertions
    &&& new.filters == old.filters
    &&& new.subject == old.subject
    &&& new.assertion_results == old.assertion_results
}

/// `new` is `old` with assertion token `a` added at the end and all else kept.
pub open spec fn adds_assertion(old: ModuleArchRule, new: ModuleArchRule, a: spec_fn(AssertionToken) -> bool) -> bool {
    &&& appended(old.assertions@, new.assertions@)
    &&& a(new.assertions@.last())
    &&& new.conditions == old.conditions
    &&& new.filters == old.filters
    &&& new.subject == old.subject
    &&& new.assertion_results == old.assertion_results
}

fn push_condition(rule: ModuleArchRule, c: ConditionToken) -> (r: ModuleArchRule)
    ensures
        adds_condition(rule, r, |x: ConditionToken| x == c),
{
    let mut rule = rule;
    let ghost before = rule.conditions@;
    rule.conditions.push(c);
    assert(rule.conditions@.subrange(0, before.len() as int) =~= before);
    rule
}

fn push_assertion(rule: ModuleArchRule, a: AssertionToken) -> (r: ModuleArchRule)
    ensures
        adds_assertion(rule, r, |x: AssertionToken| x == a),
{
    let mut rule = rule;
    let ghost before = rule.assertions@;
    rule.assertions.push(a);
    assert(rule.assertions@.subrange(0, before.len() as int) =~= before);
    rule
}

/// Entry point of rules on modules.
#[derive(Debug)]
pub struct Modules;

/// A rule that expects a condition next.
#[derive(Debug)]
pub struct ModuleConditionBuilder(pub ModuleArchRule);

/// A rule that expects a conjunction or `should` next.
#[derive(Debug)]
pub struct ModuleConditionConjunctionBuilder(pub ModuleArchRule);

/// A rule that expects an assertion next.
#[derive(Debug)]
pub struct ModulePredicateBuilder(pub ModuleArchRule);

/// A rule that can be checked, or extended by another assertion.
#[derive(Debug)]
pub struct ModulePredicateConjunctionBuilder(pub ModuleArchRule);

/// A rule that expects `that` before the import pattern.
#[derive(Debug)]
pub struct ModuleDependencyPredicateConjunctionBuilder(pub ModuleArchRule);

impl Modules {
    /// A rule on the modules that the conditions to come select.
    pub fn that(filters: Filters) -> (r: ModuleConditionBuilder)
        ensures
            r.0.conditions@.len() == 0,
            r.0.assertions@.len() == 0,
            r.0.filters == filters,
            r.0.assertion_results.expected@.len() == 0,
            r.0.assertion_results.actual@.len() == 0,
    {
        ModuleConditionBuilder(ModuleArchRule::new(filters))
    }

    /// A rule on every module.
    pub fn all_should(filters: Filters) -> (r: ModulePredicateBuilder)
        ensures
            r.0.conditions@.len() == 0,
            r.0.assertions@.len() == 0,
            r.0.filters == filters,
            r.0.assertion_results.expected@.len() == 0,
            r.0.assertion_results.actual@.len() == 0,
    {
        ModulePredicateBuilder(ModuleArchRule::new(filters))
    }
}

impl ModuleConditionBuilder {
    pub fn reside_in_a_module(self, module: &str) -> (r: ModuleConditionConjunctionBuilder)
        ensures
            adds_condition(self.0, r.0, |c: ConditionToken| c matches ConditionToken::ResidesInAModule(m) && m@ == module@),
    {
        ModuleConditionConjunctionBuilder(push_condition(self.0, ConditionToken::ResidesInAModule(String::from_str(module))))
    }

    pub fn are_declared_public(self) -> (r: ModuleConditionConjunctionBuilder)
        ensures
            adds_condition(self.0, r.0, |c: ConditionToken| c is AreDeclaredPublic),
    {
        ModuleConditionConjunctionBuilder(push_condition(self.0, ConditionToken::AreDeclaredPublic))
    }

    pub fn are_declared_private(self) -> (r: ModuleConditionConjunctionBuilder)
        ensures
            adds_condition(self.0, r.0, |c: ConditionToken| c is AreDeclaredPrivate),
    {
        ModuleConditionConjunctionBuilder(push_condition(self.0, ConditionToken::AreDeclaredPrivate))
    }

    pub fn have_simple_name(self, name: &str) -> (r: ModuleConditionConjunctionBuilder)
        ensures
            adds_condition(self.0, r.0, |c: ConditionToken| c matches ConditionToken::HaveSimpleName(m) && m@ == name@),
    {
        ModuleConditionConjunctionBuilder(push_condition(self.0, ConditionToken::HaveSimpleName(String::from_str(name))))
    }

    pub fn have_simple_name_ending_with(self, suffix: &str) -> (r: ModuleConditionConjunctionBuilder)
        ensures
            adds_condition(self.0, r.0, |c: ConditionToken| c matches ConditionToken::HaveSimpleEndingWith(m) && m@ == suffix@),
    {
        ModuleConditionConjunctionBuilder(push_condition(self.0, ConditionToken::HaveSimpleEndingWith(String::from_str(suffix))))
    }

    pub fn have_simple_name_starting_with(self, prefix: &str) -> (r: ModuleConditionConjunctionBuilder)
        ensures
            adds_condition(self.0, r.0, |c: ConditionToken| c matches ConditionToken::HaveSimpleStartingWith(m) && m@ == prefix@),
    {
        ModuleConditionConjunctionBuilder(push_condition(self.0, ConditionToken::HaveSimpleStartingWith(String::from_str(prefix))))
    }
}

impl ModuleConditionConjunctionBuilder {
    pub fn and(self) -> (r: ModuleConditionBuilder)
        ensures
            adds_condition(self.0, r.0, |c: ConditionToken| c is And),
    {
        ModuleConditionBuilder(push_condition(self.0, ConditionToken::And))
    }

    pub fn or(self) -> (r: ModuleConditionBuilder)
        ensures
            adds_condition(self.0, r.0, |c: ConditionToken| c is Or),
    {
        ModuleConditionBuilder(push_condition(self.0, ConditionToken::Or))
    }

    pub fn should(self) -> (r: ModulePredicateBuilder)
        ensures
            adds_condition(self.0, r.0, |c: ConditionToken| c is Should),
    {
        ModulePredicateBuilder(push_condition(self.0, ConditionToken::Should))
    }
}

impl ModulePredicateBuilder {
    pub fn have_simple_name(self, name: &str) -> (r: ModulePredicateConjunctionBuilder)
        ensures
            adds_assertion(self.0, r.0, |a: AssertionToken| a matches AssertionToken::SimpleAssertion(SimpleAssertions::HaveSimpleName(m)) && m@ == name@),
    {
        ModulePredicateConjunctionBuilder(push_assertion(self.0, AssertionToken::SimpleAssertion(SimpleAssertions::HaveSimpleName(String::from_str(name)))))
    }

    pub fn be_public(self) -> (r: ModulePredicateConjunctionBuilder)
        ensures
            adds_assertion(self.0, r.0, |a: AssertionToken| a matches AssertionToken::SimpleAssertion(SimpleAssertions::BePublic)),
    {
        ModulePredicateConjunctionBuilder(push_assertion(self.0, AssertionToken::SimpleAssertion(SimpleAssertions::BePublic)))
    }

    pub fn be_private(self) -> (r: ModulePredicateConjunctionBuilder)
        ensures
            adds_assertion(self.0, r.0, |a: AssertionToken| a matches AssertionToken::SimpleAssertion(SimpleAssertions::BePrivate)),
    {
        ModulePredicateConjunctionBuilder(push_assertion(self.0, AssertionToken::SimpleAssertion(SimpleAssertions::BePrivate)))
    }

    pub fn only_have_dependency_module(self) -> (r: ModuleDependencyPredicateConjunctionBuilder)
        ensures
            adds_assertion(self.0, r.0, |a: AssertionToken| a matches AssertionToken::DependencyAssertionConjunction(DependencyAssertionConjunction::OnlyHaveDependencyModule)),
    {
        ModuleDependencyPredicateConjunctionBuilder(push_assertion(self.0, AssertionToken::DependencyAssertionConjunction(DependencyAssertionConjunction::OnlyHaveDependencyModule)))
    }
}

impl ModulePredicateConjunctionBuilder {
    pub fn and_should(self) -> (r: ModulePredicateBuilder)
        ensures
            adds_assertion(self.0, r.0, |a: AssertionToken| a matches AssertionToken::Conjunction(AssertionConjunction::AndShould)),
    {
        ModulePredicateBuilder(push_assertion(self.0, AssertionToken::Conjunction(AssertionConjunction::AndShould)))
    }

    pub fn or_should(self) -> (r: ModulePredicateBuilder)
        ensures
            adds_assertion(self.0, r.0, |a: AssertionToken| a matches AssertionToken::Conjunction(AssertionConjunction::OrShould)),
    {
        ModulePredicateBuilder(push_assertion(self.0, AssertionToken::Conjunction(AssertionConjunction::OrShould)))
    }

    /// Evaluates the rule against `tree`.
    pub fn check(self, tree: &ModuleTree) -> (r: Result<(), AssertionResult<ModuleRuleViolation>>)
        requires
            tree.wf(),
        ensures
            r is Ok <==> rule_passes(tree, self.0.filters, self.0.conditions@, self.0.assertions@)
                && self.0.assertion_results.actual@.len() == 0,
            r matches Err(res) ==> res.expected@ == self.0.assertion_results.expected@
                + describe_selection(self.0.conditions@) + describe_assertions(self.0.assertions@, false),
            r matches Err(res) ==> res.actual@.len() == self.0.assertion_results.actual@.len()
                + violation_total(tree, self.0.filters, selected_members(tree, self.0.filters, self.0.conditions@), self.0.assertions@, false),
            r matches Err(res) ==> res.actual@.subrange(0, self.0.assertion_results.actual@.len() as int) == self.0.assertion_results.actual@,
            r matches Err(res) ==> reports_all(tree, self.0.filters, selected_members(tree, self.0.filters, self.0.conditions@),
                self.0.assertions@, res.actual@, self.0.assertion_results.actual@.len() as int),
    {
        self.0.check(tree)
    }
}

impl ModuleDependencyPredicateConjunctionBuilder {
    pub fn that(self) -> (r: ModulePredicateBuilder)
        ensures
            adds_assertion(self.0, r.0, |a: AssertionToken| a matches AssertionToken::DependencyAssertion(DependencyAssertion::That)),
    {
        ModulePredicateBuilder(push_assertion(self.0, AssertionToken::DependencyAssertion(DependencyAssertion::That)))
    }
}

/// A condition that selects by itself, as opposed to a conjunction or the end marker.
pub open spec fn is_simple_condition(c: ConditionToken) -> bool {
    !(c is And) && !(c is Or) && !(c is Should)
}

/// `A and B` selects the modules that meet both conditions; `A or B` those that meet
/// either one.
pub proof fn lemma_and_narrows_or_broadens(tree: &ModuleTree, filters: Filters, a: ConditionToken, b: ConditionToken)
    requires
        is_simple_condition(a),
        is_simple_condition(b),
    ensures
        ({
            let u = tree.kept_modules(filters);
            &&& selected(tree, filters, seq![a, ConditionToken::And, b, ConditionToken::Should])
                == narrowed(tree, u, a).intersect(narrowed(tree, u, b))
            &&& selected(tree, filters, seq![a, ConditionToken::Or, b, ConditionToken::Should])
                == narrowed(tree, u, a).union(narrowed(tree, u, b))
        }),
{
    let u = tree.kept_modules(filters);
    let and_list = seq![a, ConditionToken::And, b, ConditionToken::Should];
    let or_list = seq![a, ConditionToken::Or, b, ConditionToken::Should];
    reveal_with_fuel(eval_conditions, 5);
    assert(and_list.drop_first() =~= seq![ConditionToken::And, b, ConditionToken::Should]);
    assert(and_list.drop_first().drop_first() =~= seq![b, ConditionToken::Should]);
    assert(and_list.drop_first().drop_first().drop_first() =~= seq![ConditionToken::Should]);
    assert(or_list.drop_first() =~= seq![ConditionToken::Or, b, ConditionToken::Should]);
    assert(or_list.drop_first().drop_first() =~= seq![b, ConditionToken::Should]);
    let first = Set::<int>::empty().union(narrowed(tree, u, a));
    assert(narrowed(tree, first, b) =~= narrowed(tree, u, a).intersect(narrowed(tree, u, b)));
    assert(first.union(narrowed(tree, u, b)) =~= narrowed(tree, u, a).union(narrowed(tree, u, b)));
}

/// The selection and conjunction mode after reading a condition list without `Should`.
pub open spec fn run_conditions(
    tree: &ModuleTree,
    conds: Seq<ConditionToken>,
    universe: Set<int>,
    acc: Set<int>,
    and_mode: bool,
) -> (Set<int>, bool)
    decreases conds.len(),
{
    if conds.len() == 0 {
        (acc, and_mode)
    } else {
        let rest = conds.drop_first();
        match conds[0] {
            ConditionToken::And => run_conditions(tree, rest, universe, acc, true),
            ConditionToken::Or => run_conditions(tree, rest, universe, acc, false),
            _ => if and_mode {
                run_conditions(tree, rest, universe, narrowed(tree, acc, conds[0]), true)
            } else {
                run_conditions(tree, rest, universe, acc.union(narrowed(tree, universe, conds[0])), false)
            },
        }
    }
}

proof fn lemma_eval_concat(
    tree: &ModuleTree,
    cs: Seq<ConditionToken>,
    tail: Seq<ConditionToken>,
    universe: Set<int>,
    acc: Set<int>,
    and_mode: bool,
)
    requires
        forall|i: int| 0 <= i < cs.len() ==> !(#[trigger] cs[i] is Should),
    ensures
        ({
            let st = run_conditions(tree, cs, universe, acc, and_mode);
            eval_conditions(tree, cs + tail, universe, acc, and_mode) == eval_conditions(tree, tail, universe, st.0, st.1)
        }),
    decreases cs.len(),
{
    if cs.len() > 0 {
        assert((cs + tail)[0] == cs[0]);
        assert((cs + tail).drop_first() =~= cs.drop_first() + tail);
        assert(!(cs[0] is Should));
        let rest = cs.drop_first();
        assert forall|i: int| 0 <= i < rest.len() implies !(#[trigger] rest[i] is Should) by {
            assert(rest[i] == cs[i + 1]);
        }
        match cs[0] {
            ConditionToken::And => lemma_eval_concat(tree, rest, tail, universe, acc, true),
            ConditionToken::Or => lemma_eval_concat(tree, rest, tail, universe, acc, false),
            _ => if and_mode {
                lemma_eval_concat(tree, rest, tail, universe, narrowed(tree, acc, cs[0]), true)
            } else {
                lemma_eval_concat(tree, rest, tail, universe, acc.union(narrowed(tree, universe, cs[0])), false)
            },
        }
    } else {
        assert(cs + tail =~= tail);
    }
}

/// Appending `and C` to a non-empty condition list (without `Should`) never adds to what
/// it selects, and appending `or C` never removes from it.
pub proof fn lemma_and_never_broadens_or_never_narrows(
    tree: &ModuleTree,
    filters: Filters,
    cs: Seq<ConditionToken>,
    c: ConditionToken,
)
    requires
        cs.len() > 0,
        forall|i: int| 0 <= i < cs.len() ==> !(#[trigger] cs[i] is Should),
        is_simple_condition(c),
    ensures
        selected(tree, filters, cs + seq![ConditionToken::And, c, ConditionToken::Should]).subset_of(
            selected(tree, filters, cs + seq![ConditionToken::Should]),
        ),
        selected(tree, filters, cs + seq![ConditionToken::Should]).subset_of(
            selected(tree, filters, cs + seq![ConditionToken::Or, c, ConditionToken::Should]),
        ),
{
    let u = tree.kept_modules(filters);
    let and_tail = seq![ConditionToken::And, c, ConditionToken::Should];
    let or_tail = seq![ConditionToken::Or, c, ConditionToken::Should];
    let end = seq![ConditionToken::Should];
    lemma_eval_concat(tree, cs, and_tail, u, Set::empty(), false);
    lemma_eval_concat(tree, cs, or_tail, u, Set::empty(), false);
    lemma_eval_concat(tree, cs, end, u, Set::empty(), false);
    let st = run_conditions(tree, cs, u, Set::empty(), false);
    reveal_with_fuel(eval_conditions, 4);
    assert(and_tail.drop_first() =~= seq![c, ConditionToken::Should]);
    assert(and_tail.drop_first().drop_first() =~= end);
    assert(or_tail.drop_first() =~= seq![c, ConditionToken::Should]);
    assert(or_tail.drop_first().drop_first() =~= end);
}

/// The violators of an assertion are listed in increasing index order, each one a member
/// that breaks the assertion, and every such member is listed.
pub proof fn lemma_violators(tree: &ModuleTree, members: Seq<bool>, a: SimpleAssertions, k: int)
    requires
        0 <= k <= members.len(),
    ensures
        ({
            let vs = violators(tree, members, a, k);
            &&& forall|t: int| 0 <= t < vs.len() ==> 0 <= #[trigger] vs[t] < k && members[vs[t]] && violates(tree, vs[t], a)
            &&& forall|t1: int, t2: int| 0 <= t1 < t2 < vs.len() ==> vs[t1] < vs[t2]
            &&& forall|j: int| 0 <= j < k && members[j] && violates(tree, j, a) ==> vs.contains(j)
        }),
    decreases k,
{
    if k > 0 {
        lemma_violators(tree, members, a, k - 1);
        let prev = violators(tree, members, a, k - 1);
        let vs = violators(tree, members, a, k);
        if members[k - 1] && violates(tree, k - 1, a) {
            assert(vs == prev.push(k - 1));
            assert forall|j: int| 0 <= j < k && members[j] && violates(tree, j, a) implies vs.contains(j) by {
                if j == k - 1 {
                    assert(vs[vs.len() - 1] == j);
                } else {
                    let t = choose|t: int| 0 <= t < prev.len() && prev[t] == j;
                    assert(vs[t] == j);
                }
            }
        }
    }
}

/// An assertion over the matched set fails exactly when some member breaks it, and the
/// number of violations equals the number of members that break it.
pub proof fn lemma_universal_assertion(tree: &ModuleTree, members: Seq<bool>, a: SimpleAssertions)
    ensures
        ({
            let vs = violators(tree, members, a, members.len() as int);
            let breakers = Set::new(|k: int| 0 <= k < members.len() && members[k] && violates(tree, k, a));
            &&& (vs.len() == 0 <==> breakers.is_empty())
            &&& vs.len() == breakers.len()
            &&& breakers.finite()
        }),
{
    let vs = violators(tree, members, a, members.len() as int);
    let breakers = Set::new(|k: int| 0 <= k < members.len() && members[k] && violates(tree, k, a));
    lemma_violators(tree, members, a, members.len() as int);
    assert(vs.no_duplicates()) by {
        assert forall|i: int, j: int| 0 <= i < vs.len() && 0 <= j < vs.len() && i != j implies vs[i] != vs[j] by {
            if i < j {
            } else {
            }
        }
    }
    assert(vs.to_set() =~= breakers) by {
        assert forall|k: int| breakers.contains(k) implies vs.to_set().contains(k) by {
            assert(vs.contains(k));
        }
        assert forall|k: int| vs.to_set().contains(k) implies breakers.contains(k) by {
            let t = choose|t: int| 0 <= t < vs.len() && vs[t] == k;
            assert(0 <= vs[t]);
        }
    }
    vs.unique_seq_to_set();
    if vs.len() > 0 {
        assert(breakers.contains(vs[0]));
    }
    if !breakers.is_empty() {
        let k = breakers.choose();
        assert(breakers.contains(k));
        assert(vs.contains(k));
    }
}

} // verus!

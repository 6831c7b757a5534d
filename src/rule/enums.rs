//! Rules over enums.
use vstd::prelude::*;
use crate::assertion_result::AssertionResult;
use crate::ast::{derives_trait, CodeSpan, Enum, Visibility};
use crate::matches::{EnumMatches, ImplMatchesTODO};
use crate::pattern::matches_item;
use crate::rule::{implements, implements_exec};
use crate::text::{appended, clone_string, str_eq};
use crate::tree::ModuleTree;
use crate::Filters;

verus! {

/// A condition on enums, or a conjunction between two of them.
#[derive(Debug)]
pub enum ConditionToken {
    AreDeclaredPublic,
    ResidesInAModule(String),
    AreDeclaredPrivate,
    HaveSimpleName(String),
    Derives(String),
    Implement(String),
    And,
    Or,
    Should,
}

/// An assertion on every matched enum.
#[derive(Debug)]
pub enum SimpleAssertions {
    BePublic,
    BePrivate,
    HaveSimpleName(String),
    Implement(String),
    Derive(String),
    ImplementOrDerive(String),
}

#[derive(Debug)]
pub enum AssertionConjunction {
    AndShould,
    OrShould,
}

#[derive(Debug)]
pub enum AssertionToken {
    SimpleAssertion(SimpleAssertions),
    Conjunction(AssertionConjunction),
}

/// One enum that breaks an assertion, with where it is declared.
#[derive(Debug)]
pub enum EnumRuleViolation {
    Derive { enum_name: String, trait_name: String, location: String, span: CodeSpan },
    Implement { enum_name: String, trait_name: String, location: String, span: CodeSpan },
    ImplementOrDerive { enum_name: String, trait_name: String, location: String, span: CodeSpan },
    BePrivate { enum_name: String, location: String, span: CodeSpan, vis: Visibility },
    BePublic { enum_name: String, location: String, span: CodeSpan, vis: Visibility },
    HaveSimpleName { enum_name: String, pattern: String, location: String, span: CodeSpan },
}

/// Enum `k` of the index meets condition `c`.
pub open spec fn condition_holds(tree: &ModuleTree, filters: Filters, k: int, c: ConditionToken) -> bool {
    let s = tree.enums@[k];
    match c {
        ConditionToken::AreDeclaredPublic => s.visibility == Visibility::Public,
        ConditionToken::AreDeclaredPrivate => s.visibility != Visibility::Public,
        ConditionToken::HaveSimpleName(n) => s.ident@ == n@,
        ConditionToken::ResidesInAModule(p) => matches_item(p@, s.path@),
        ConditionToken::Derives(t) => derives_trait(s.derives@, t@),
        ConditionToken::Implement(t) => implements(tree, filters, s.ident@, t@),
        _ => true,
    }
}

/// The members of `against` that meet `c`.
pub open spec fn narrowed(tree: &ModuleTree, filters: Filters, against: Set<int>, c: ConditionToken) -> Set<int> {
    Set::new(|k: int| against.contains(k) && condition_holds(tree, filters, k, c))
}

/// The enums that a condition list selects from `universe`, read left to right: a
/// condition after `Or` (or at the start) adds what it selects from the universe; one after
/// `And` keeps what it selects from the enums selected so far; `Should` ends the list.
pub open spec fn eval_conditions(
    tree: &ModuleTree,
    filters: Filters,
    conds: Seq<ConditionToken>,
    universe: Set<int>,
    acc: Set<int>,
    and_mode: bool,
) -> Set<int>
    decreases conds.len(),
{
    if conds.len() == 0 {
        acc
    } else {
        let rest = conds.drop_first();
        match conds[0] {
            ConditionToken::And => eval_conditions(tree, filters, rest, universe, acc, true),
            ConditionToken::Or => eval_conditions(tree, filters, rest, universe, acc, false),
            ConditionToken::Should => acc,
            _ => if and_mode {
                eval_conditions(tree, filters, rest, universe, narrowed(tree, filters, acc, conds[0]), true)
            } else {
                eval_conditions(
                    tree,
                    filters,
                    rest,
                    universe,
                    acc.union(narrowed(tree, filters, universe, conds[0])),
                    false,
                )
            },
        }
    }
}

/// A condition in words.
pub open spec fn condition_text(c: ConditionToken) -> Seq<char> {
    match c {
        ConditionToken::AreDeclaredPublic => "are declared public"@,
        ConditionToken::AreDeclaredPrivate => "are declared private"@,
        ConditionToken::HaveSimpleName(n) => "have simple name '"@ + n@ + "'"@,
        ConditionToken::ResidesInAModule(p) => "resides in a modules that match '"@ + p@ + "'"@,
        ConditionToken::Derives(t) => "derive "@ + t@,
        ConditionToken::Implement(t) => "implement "@ + t@,
        ConditionToken::And => " and "@,
        ConditionToken::Or => " or "@,
        ConditionToken::Should => " to "@,
    }
}

/// A condition list in words, up to and including its `Should`.
pub open spec fn describe_conditions(conds: Seq<ConditionToken>) -> Seq<char>
    decreases conds.len(),
{
    if conds.len() == 0 {
        Seq::empty()
    } else if conds[0] is Should {
        condition_text(conds[0])
    } else {
        condition_text(conds[0]) + describe_conditions(conds.drop_first())
    }
}

/// The enums that a rule with conditions `conds` is about.
pub open spec fn selected(tree: &ModuleTree, filters: Filters, conds: Seq<ConditionToken>) -> Set<int> {
    if conds.len() == 0 {
        tree.kept_enums(filters)
    } else {
        eval_conditions(tree, filters, conds, tree.kept_enums(filters), Set::empty(), false)
    }
}

/// The words that open the description of a rule with conditions `conds`.
pub open spec fn describe_selection(conds: Seq<ConditionToken>) -> Seq<char> {
    if conds.len() == 0 {
        "All enums should "@
    } else {
        "Enums that "@ + describe_conditions(conds)
    }
}

/// Enum `k` breaks assertion `a`.
pub open spec fn violates(tree: &ModuleTree, filters: Filters, k: int, a: SimpleAssertions) -> bool {
    let s = tree.enums@[k];
    match a {
        SimpleAssertions::BePublic => s.visibility != Visibility::Public,
        SimpleAssertions::BePrivate => s.visibility == Visibility::Public,
        SimpleAssertions::HaveSimpleName(n) => s.ident@ != n@,
        SimpleAssertions::Implement(t) => !implements(tree, filters, s.ident@, t@),
        SimpleAssertions::Derive(t) => !derives_trait(s.derives@, t@),
        SimpleAssertions::ImplementOrDerive(t) => !derives_trait(s.derives@, t@) && !implements(
            tree,
            filters,
            s.ident@,
            t@,
        ),
    }
}

/// The members among the first `k` positions of `members` that break `a`, in order.
pub open spec fn violators(
    tree: &ModuleTree,
    filters: Filters,
    members: Seq<bool>,
    a: SimpleAssertions,
    k: int,
) -> Seq<int>
    decreases k,
{
    if k <= 0 {
        Seq::empty()
    } else if members[k - 1] && violates(tree, filters, k - 1, a) {
        violators(tree, filters, members, a, k - 1).push(k - 1)
    } else {
        violators(tree, filters, members, a, k - 1)
    }
}

/// `v` reports that enum `s` breaks assertion `a`.
pub open spec fn reports(v: EnumRuleViolation, s: Enum, a: SimpleAssertions) -> bool {
    match a {
        SimpleAssertions::BePublic => v matches EnumRuleViolation::BePublic { enum_name, location, span, vis }
            && enum_name@ == s.ident@ && location@ == s.location@ && span == s.span && vis == s.visibility,
        SimpleAssertions::BePrivate => v matches EnumRuleViolation::BePrivate { enum_name, location, span, vis }
            && enum_name@ == s.ident@ && location@ == s.location@ && span == s.span && vis == s.visibility,
        SimpleAssertions::HaveSimpleName(n) => v matches EnumRuleViolation::HaveSimpleName { enum_name, pattern, location, span }
            && enum_name@ == s.ident@ && pattern@ == n@ && location@ == s.location@ && span == s.span,
        SimpleAssertions::Implement(t) => v matches EnumRuleViolation::Implement { enum_name, trait_name, location, span }
            && enum_name@ == s.ident@ && trait_name@ == t@ && location@ == s.location@ && span == s.span,
        SimpleAssertions::Derive(t) => v matches EnumRuleViolation::Derive { enum_name, trait_name, location, span }
            && enum_name@ == s.ident@ && trait_name@ == t@ && location@ == s.location@ && span == s.span,
        SimpleAssertions::ImplementOrDerive(t) => v matches EnumRuleViolation::ImplementOrDerive { enum_name, trait_name, location, span }
            && enum_name@ == s.ident@ && trait_name@ == t@ && location@ == s.location@ && span == s.span,
    }
}

/// An assertion in words.
pub open spec fn assertion_text(a: SimpleAssertions) -> Seq<char> {
    match a {
        SimpleAssertions::BePublic => "be public"@,
        SimpleAssertions::BePrivate => "be private"@,
        SimpleAssertions::HaveSimpleName(n) => "have simple name '"@ + n@ + "'"@,
        SimpleAssertions::Implement(t) => "implement '"@ + t@ + "'"@,
        SimpleAssertions::Derive(t) => "derive '"@ + t@ + "'"@,
        SimpleAssertions::ImplementOrDerive(t) => "derive '"@ + t@ + "'"@,
    }
}


/// Assertions read left to right: each outcome is true when no matched enum breaks the
/// assertion; an outcome after `OrShould` (or at the start) is or-ed into the result so far,
/// one after `AndShould` is and-ed into it.
pub open spec fn eval_assertions(
    tree: &ModuleTree,
    filters: Filters,
    members: Seq<bool>,
    asserts: Seq<AssertionToken>,
    success: bool,
    and_mode: bool,
) -> bool
    decreases asserts.len(),
{
    if asserts.len() == 0 {
        success
    } else {
        let rest = asserts.drop_first();
        match asserts[0] {
            AssertionToken::Conjunction(AssertionConjunction::AndShould) => eval_assertions(
                tree,
                filters,
                members,
                rest,
                success,
                true,
            ),
            AssertionToken::Conjunction(AssertionConjunction::OrShould) => eval_assertions(
                tree,
                filters,
                members,
                rest,
                success,
                false,
            ),
            AssertionToken::SimpleAssertion(a) => {
                let o = violators(tree, filters, members, a, members.len() as int).len() == 0;
                eval_assertions(
                    tree,
                    filters,
                    members,
                    rest,
                    if and_mode {
                        success && o
                    } else {
                        success || o
                    },
                    and_mode,
                )
            },
        }
    }
}

/// An assertion list in words.
pub open spec fn describe_assertions(asserts: Seq<AssertionToken>) -> Seq<char>
    decreases asserts.len(),
{
    if asserts.len() == 0 {
        Seq::empty()
    } else {
        let head = match asserts[0] {
            AssertionToken::Conjunction(AssertionConjunction::AndShould) => " and "@,
            AssertionToken::Conjunction(AssertionConjunction::OrShould) => " or "@,
            AssertionToken::SimpleAssertion(a) => assertion_text(a),
        };
        head + describe_assertions(asserts.drop_first())
    }
}

/// How many violations an assertion list reports on the members of `members`.
pub open spec fn violation_total(
    tree: &ModuleTree,
    filters: Filters,
    members: Seq<bool>,
    asserts: Seq<AssertionToken>,
) -> int
    decreases asserts.len(),
{
    if asserts.len() == 0 {
        0
    } else {
        let here = match asserts[0] {
            AssertionToken::SimpleAssertion(a) => violators(tree, filters, members, a, members.len() as int).len() as int,
            _ => 0,
        };
        here + violation_total(tree, filters, members, asserts.drop_first())
    }
}

/// The records that assertion `a` makes start at position `start` of `out`.
pub open spec fn records_of(
    tree: &ModuleTree,
    filters: Filters,
    members: Seq<bool>,
    a: SimpleAssertions,
    out: Seq<EnumRuleViolation>,
    start: int,
) -> bool {
    let vs = violators(tree, filters, members, a, members.len() as int);
    forall|t: int| 0 <= t < vs.len() ==> reports(#[trigger] out[start + t], tree.enums@[vs[t]], a)
}

/// How many records the assertion tokens before position `j` make.
pub open spec fn records_start(tree: &ModuleTree, filters: Filters, members: Seq<bool>, asserts: Seq<AssertionToken>, j: int) -> int {
    violation_total(tree, filters, members, asserts) - violation_total(tree, filters, members, asserts.subrange(j, asserts.len() as int))
}

/// From position `n0` on, `out` holds the records of every assertion of `asserts`, in order.
pub open spec fn reports_all(
    tree: &ModuleTree,
    filters: Filters,
    members: Seq<bool>,
    asserts: Seq<AssertionToken>,
    out: Seq<EnumRuleViolation>,
    n0: int,
) -> bool {
    forall|j: int|
        0 <= j < asserts.len() ==> (#[trigger] asserts[j] matches AssertionToken::SimpleAssertion(a) ==> records_of(
            tree,
            filters,
            members,
            a,
            out,
            n0 + records_start(tree, filters, members, asserts, j),
        ))
}

proof fn lemma_records_stable(
    tree: &ModuleTree,
    filters: Filters,
    members: Seq<bool>,
    a: SimpleAssertions,
    out1: Seq<EnumRuleViolation>,
    out2: Seq<EnumRuleViolation>,
    start: int,
)
    requires
        0 <= start,
        start + violators(tree, filters, members, a, members.len() as int).len() <= out1.len() <= out2.len(),
        out2.subrange(0, out1.len() as int) == out1,
        records_of(tree, filters, members, a, out1, start),
    ensures
        records_of(tree, filters, members, a, out2, start),
{
    let vs = violators(tree, filters, members, a, members.len() as int);
    assert forall|t: int| 0 <= t < vs.len() implies reports(#[trigger] out2[start + t], tree.enums@[vs[t]], a) by {
        assert(out2[start + t] == out2.subrange(0, out1.len() as int)[start + t]);
    }
}

/// The members that a rule with conditions `conds` selects, as a mask over the enums.
pub open spec fn selected_members(tree: &ModuleTree, filters: Filters, conds: Seq<ConditionToken>) -> Seq<bool> {
    Seq::new(tree.enums@.len(), |k: int| selected(tree, filters, conds).contains(k))
}

proof fn lemma_total_nonneg(tree: &ModuleTree, filters: Filters, members: Seq<bool>, asserts: Seq<AssertionToken>)
    ensures
        violation_total(tree, filters, members, asserts) >= 0,
    decreases asserts.len(),
{
    if asserts.len() > 0 {
        lemma_total_nonneg(tree, filters, members, asserts.drop_first());
    }
}

/// A rule on enums: its conditions and assertions in the order written, the filters,
/// the enums matched so far and the accumulated result.
#[derive(Debug)]
pub struct EnumArchRule {
    pub conditions: Vec<ConditionToken>,
    pub assertions: Vec<AssertionToken>,
    pub filters: Filters,
    pub subject: EnumMatches,
    pub assertion_results: AssertionResult<EnumRuleViolation>,
}

/// The record of enum `s` breaking `a`.
fn report(s: &Enum, a: &SimpleAssertions) -> (r: EnumRuleViolation)
    ensures
        reports(r, *s, *a),
{
    let enum_name = clone_string(&s.ident);
    let location = clone_string(&s.location);
    let span = s.span;
    match a {
        SimpleAssertions::BePublic => EnumRuleViolation::BePublic { enum_name, location, span, vis: s.visibility },
        SimpleAssertions::BePrivate => EnumRuleViolation::BePrivate { enum_name, location, span, vis: s.visibility },
        SimpleAssertions::HaveSimpleName(n) => EnumRuleViolation::HaveSimpleName { enum_name, pattern: clone_string(n), location, span },
        SimpleAssertions::Implement(t) => EnumRuleViolation::Implement { enum_name, trait_name: clone_string(t), location, span },
        SimpleAssertions::Derive(t) => EnumRuleViolation::Derive { enum_name, trait_name: clone_string(t), location, span },
        SimpleAssertions::ImplementOrDerive(t) => EnumRuleViolation::ImplementOrDerive { enum_name, trait_name: clone_string(t), location, span },
    }
}

/// Whether enum `k` meets condition `c`; `impls` are the kept impl blocks.
fn holds(tree: &ModuleTree, filters: &Filters, impls: &ImplMatchesTODO, k: usize, c: &ConditionToken) -> (r: bool)
    requires
        tree.wf(),
        k < tree.enums.len(),
        impls.members.len() == tree.impls.len(),
        impls@ == tree.kept_impls(*filters),
    ensures
        r == condition_holds(tree, *filters, k as int, *c),
{
    let s = &tree.enums[k];
    match c {
        ConditionToken::AreDeclaredPublic => s.is_public(),
        ConditionToken::AreDeclaredPrivate => !s.is_public(),
        ConditionToken::HaveSimpleName(n) => str_eq(s.ident.as_str(), n.as_str()),
        ConditionToken::ResidesInAModule(p) => s.path_match(p.as_str()),
        ConditionToken::Derives(t) => s.derives(t.as_str()),
        ConditionToken::Implement(t) => implements_exec(tree, impls, s.ident.as_str(), t.as_str()),
        _ => true,
    }
}

/// Whether enum `k` breaks assertion `a`; `impls` are the kept impl blocks.
fn breaks(tree: &ModuleTree, filters: &Filters, impls: &ImplMatchesTODO, k: usize, a: &SimpleAssertions) -> (r: bool)
    requires
        tree.wf(),
        k < tree.enums.len(),
        impls.members.len() == tree.impls.len(),
        impls@ == tree.kept_impls(*filters),
    ensures
        r == violates(tree, *filters, k as int, *a),
{
    let s = &tree.enums[k];
    match a {
        SimpleAssertions::BePublic => !s.is_public(),
        SimpleAssertions::BePrivate => s.is_public(),
        SimpleAssertions::HaveSimpleName(n) => !str_eq(s.ident.as_str(), n.as_str()),
        SimpleAssertions::Implement(t) => !implements_exec(tree, impls, s.ident.as_str(), t.as_str()),
        SimpleAssertions::Derive(t) => !s.derives(t.as_str()),
        SimpleAssertions::ImplementOrDerive(t) => {
            let derive_missing = !s.derives(t.as_str());
            let impl_missing = !implements_exec(tree, impls, s.ident.as_str(), t.as_str());
            derive_missing && impl_missing
        },
    }
}

/// The members of `against` that meet `c`.
fn narrow(
    tree: &ModuleTree,
    filters: &Filters,
    impls: &ImplMatchesTODO,
    against: &EnumMatches,
    c: &ConditionToken,
) -> (r: EnumMatches)
    requires
        tree.wf(),
        against.members.len() == tree.enums.len(),
        impls.members.len() == tree.impls.len(),
        impls@ == tree.kept_impls(*filters),
    ensures
        r.members.len() == tree.enums.len(),
        r@ == narrowed(tree, *filters, against@, *c),
{
    let mut m: Vec<bool> = Vec::new();
    let mut k: usize = 0;
    while k < against.members.len()
        invariant
            tree.wf(),
            against.members.len() == tree.enums.len(),
            impls.members.len() == tree.impls.len(),
            impls@ == tree.kept_impls(*filters),
            k <= against.members.len(),
            m.len() == k,
            forall|j: int| 0 <= j < k ==> m@[j] == (against.members@[j] && condition_holds(tree, *filters, j, *c)),
        decreases against.members.len() - k,
    {
        let keep = against.members[k] && holds(tree, filters, impls, k, c);
        m.push(keep);
        k = k + 1;
    }
    let r = EnumMatches { members: m };
    assert(r@ =~= narrowed(tree, *filters, against@, *c));
    r
}

fn no_enums(n: usize) -> (r: EnumMatches)
    ensures
        r.members.len() == n,
        r@ == Set::<int>::empty(),
{
    let mut m: Vec<bool> = Vec::new();
    let mut k: usize = 0;
    while k < n
        invariant
            k <= n,
            m.len() == k,
            forall|j: int| 0 <= j < k ==> !m@[j],
        decreases n - k,
    {
        m.push(false);
        k = k + 1;
    }
    let r = EnumMatches { members: m };
    assert(r@ =~= Set::<int>::empty());
    r
}

impl EnumArchRule {
    pub fn new(filters: Filters) -> (r: EnumArchRule)
        ensures
            r.conditions@.len() == 0,
            r.assertions@.len() == 0,
            r.filters == filters,
            r.subject.members@.len() == 0,
            r.assertion_results.expected@ == Seq::<char>::empty(),
            r.assertion_results.actual@.len() == 0,
    {
        EnumArchRule {
            conditions: Vec::new(),
            assertions: Vec::new(),
            filters,
            subject: EnumMatches { members: Vec::new() },
            assertion_results: AssertionResult::new(),
        }
    }

    /// Narrows the enums of the index to those the conditions select (all of them when
    /// there is no condition), and describes the selection in `expected`.
    pub fn apply_conditions(&mut self, tree: &ModuleTree)
        requires
            tree.wf(),
        ensures
            final(self).subject.members.len() == tree.enums.len(),
            final(self).subject@ == selected(tree, old(self).filters, old(self).conditions@),
            final(self).assertion_results.expected@ == old(self).assertion_results.expected@
                + describe_selection(old(self).conditions@),
            final(self).assertion_results.actual == old(self).assertion_results.actual,
            final(self).conditions == old(self).conditions,
            final(self).assertions == old(self).assertions,
            final(self).filters == old(self).filters,
    {
        let enums = tree.flatten_enums(&self.filters);
        if self.conditions.len() == 0 {
            self.assertion_results.push_expected("All enums should ");
            self.subject = enums;
            return;
        }
        let impls = tree.flatten_impls(&self.filters);
        self.assertion_results.push_expected("Enums that ");
        let ghost conds = self.conditions@;
        let ghost start = self.assertion_results.expected@;
        let ghost universe = enums@;
        let mut matches = no_enums(tree.enums.len());
        let mut and_mode = false;
        let mut stopped = false;
        let mut i: usize = 0;
        assert(conds.subrange(0, conds.len() as int) =~= conds);
        while i < self.conditions.len() && !stopped
            invariant
                tree.wf(),
                conds == self.conditions@,
                universe == enums@,
                universe == tree.kept_enums(self.filters),
                enums.members.len() == tree.enums.len(),
                matches.members.len() == tree.enums.len(),
                impls.members.len() == tree.impls.len(),
                impls@ == tree.kept_impls(self.filters),
                i <= conds.len(),
                self.conditions == old(self).conditions,
                self.assertions == old(self).assertions,
                self.filters == old(self).filters,
                self.assertion_results.actual == old(self).assertion_results.actual,
                !stopped ==> eval_conditions(tree, self.filters, conds.subrange(i as int, conds.len() as int), universe, matches@, and_mode)
                    == eval_conditions(tree, self.filters, conds, universe, Set::empty(), false),
                stopped ==> matches@ == eval_conditions(tree, self.filters, conds, universe, Set::empty(), false),
                !stopped ==> self.assertion_results.expected@ + describe_conditions(conds.subrange(i as int, conds.len() as int))
                    == start + describe_conditions(conds),
                stopped ==> self.assertion_results.expected@ == start + describe_conditions(conds),
            decreases conds.len() - i,
        {
            let ghost rest = conds.subrange(i as int, conds.len() as int);
            assert(rest.drop_first() =~= conds.subrange(i + 1, conds.len() as int));
            match &self.conditions[i] {
                ConditionToken::And => {
                    self.assertion_results.push_expected(" and ");
                    and_mode = true;
                },
                ConditionToken::Or => {
                    self.assertion_results.push_expected(" or ");
                    and_mode = false;
                },
                ConditionToken::Should => {
                    self.assertion_results.push_expected(" to ");
                    stopped = true;
                },
                c => {
                    match c {
                        ConditionToken::AreDeclaredPublic => self.assertion_results.push_expected("are declared public"),
                        ConditionToken::AreDeclaredPrivate => self.assertion_results.push_expected("are declared private"),
                        ConditionToken::HaveSimpleName(n) => {
                            self.assertion_results.push_expected("have simple name '");
                            self.assertion_results.push_expected(n.as_str());
                            self.assertion_results.push_expected("'");
                        },
                        ConditionToken::ResidesInAModule(p) => {
                            self.assertion_results.push_expected("resides in a modules that match '");
                            self.assertion_results.push_expected(p.as_str());
                            self.assertion_results.push_expected("'");
                        },
                        ConditionToken::Derives(t) => {
                            self.assertion_results.push_expected("derive ");
                            self.assertion_results.push_expected(t.as_str());
                        },
                        ConditionToken::Implement(t) => {
                            self.assertion_results.push_expected("implement ");
                            self.assertion_results.push_expected(t.as_str());
                        },
                        _ => {},
                    }
                    if and_mode {
                        matches = narrow(tree, &self.filters, &impls, &matches, c);
                    } else {
                        let m = narrow(tree, &self.filters, &impls, &enums, c);
                        matches.extends(m);
                    }
                },
            }
            i = i + 1;
        }
        self.subject = matches;
    }

}

/// Appends assertion `a` in words to `results`.
fn push_assertion_text(results: &mut AssertionResult<EnumRuleViolation>, a: &SimpleAssertions)
    ensures
        final(results).expected@ == old(results).expected@ + assertion_text(*a),
        final(results).actual == old(results).actual,
{
    match a {
        SimpleAssertions::BePublic => results.push_expected("be public"),
        SimpleAssertions::BePrivate => results.push_expected("be private"),
        SimpleAssertions::HaveSimpleName(n) => {
            results.push_expected("have simple name '");
            results.push_expected(n.as_str());
            results.push_expected("'");
        },
        SimpleAssertions::Implement(t) => {
            results.push_expected("implement '");
            results.push_expected(t.as_str());
            results.push_expected("'");
        },
        SimpleAssertions::Derive(t) | SimpleAssertions::ImplementOrDerive(t) => {
            results.push_expected("derive '");
            results.push_expected(t.as_str());
            results.push_expected("'");
        },
    }
}

/// Checks assertion `a` against every member of `subject`: records in `results` one
/// violation per enum that breaks it, in index order, and returns whether there was none.
pub fn check_assertion(
    results: &mut AssertionResult<EnumRuleViolation>,
    subject: &EnumMatches,
    filters: &Filters,
    tree: &ModuleTree,
    impls: &ImplMatchesTODO,
    a: &SimpleAssertions,
) -> (r: bool)
    requires
        tree.wf(),
        subject.members.len() == tree.enums.len(),
        impls.members.len() == tree.impls.len(),
        impls@ == tree.kept_impls(*filters),
    ensures
        ({
            let vs = violators(tree, *filters, subject.members@, *a, tree.enums@.len() as int);
            let n0 = old(results).actual@.len();
            &&& final(results).actual@.len() == n0 + vs.len()
            &&& final(results).actual@.subrange(0, n0 as int) == old(results).actual@
            &&& forall|t: int| 0 <= t < vs.len() ==> reports(
                #[trigger] final(results).actual@[n0 + t],
                tree.enums@[vs[t]],
                *a,
            )
            &&& r == (vs.len() == 0)
        }),
        final(results).expected@ == old(results).expected@ + assertion_text(*a),
{
    push_assertion_text(results, a);
    let ghost n0 = results.actual@.len();
    let ghost members = subject.members@;
    let mut k: usize = 0;
    let mut found = false;
    while k < subject.members.len()
        invariant
            tree.wf(),
            subject.members.len() == tree.enums.len(),
            members == subject.members@,
            impls.members.len() == tree.impls.len(),
            impls@ == tree.kept_impls(*filters),
            results.expected@ == old(results).expected@ + assertion_text(*a),
            n0 == old(results).actual@.len(),
            k <= tree.enums.len(),
            ({
                let vs = violators(tree, *filters, members, *a, k as int);
                &&& results.actual@.len() == n0 + vs.len()
                &&& results.actual@.subrange(0, n0 as int) == old(results).actual@
                &&& forall|t: int| 0 <= t < vs.len() ==> reports(
                    #[trigger] results.actual@[n0 + t],
                    tree.enums@[vs[t]],
                    *a,
                )
                &&& found == (vs.len() > 0)
            }),
        decreases tree.enums.len() - k,
    {
        let ghost before = results.actual@;
        if subject.members[k] && breaks(tree, filters, impls, k, a) {
            let v = report(&tree.enums[k], a);
            results.push_actual(v);
            found = true;
            assert(results.actual@.subrange(0, n0 as int) =~= before.subrange(0, n0 as int));
        }
        k = k + 1;
    }
    !found
}

impl EnumArchRule {
    /// Checks the assertions in order against the matched enums and returns their
    /// composed outcome; every violation is recorded and the assertions are described.
    pub fn apply_assertions(&mut self, tree: &ModuleTree) -> (r: bool)
        requires
            tree.wf(),
            old(self).subject.members.len() == tree.enums.len(),
        ensures
            r == eval_assertions(tree, old(self).filters, old(self).subject.members@, old(self).assertions@, false, false),
            final(self).assertion_results.expected@ == old(self).assertion_results.expected@ + describe_assertions(old(self).assertions@),
            final(self).assertion_results.actual@.len() == old(self).assertion_results.actual@.len()
                + violation_total(tree, old(self).filters, old(self).subject.members@, old(self).assertions@),
            final(self).assertion_results.actual@.subrange(0, old(self).assertion_results.actual@.len() as int)
                == old(self).assertion_results.actual@,
            reports_all(tree, old(self).filters, old(self).subject.members@, old(self).assertions@,
                final(self).assertion_results.actual@, old(self).assertion_results.actual@.len() as int),
            final(self).conditions == old(self).conditions,
            final(self).assertions == old(self).assertions,
            final(self).filters == old(self).filters,
            final(self).subject == old(self).subject,
    {
        let impls = tree.flatten_impls(&self.filters);
        let ghost asserts = self.assertions@;
        let ghost members = self.subject.members@;
        let ghost e0 = self.assertion_results.expected@;
        let ghost n0 = self.assertion_results.actual@.len();
        let mut success = false;
        let mut and_mode = false;
        let mut i: usize = 0;
        assert(asserts.subrange(0, asserts.len() as int) =~= asserts);
        while i < self.assertions.len()
            invariant
                tree.wf(),
                asserts == self.assertions@,
                members == self.subject.members@,
                self.subject.members.len() == tree.enums.len(),
                impls.members.len() == tree.impls.len(),
                impls@ == tree.kept_impls(self.filters),
                i <= asserts.len(),
                self.conditions == old(self).conditions,
                self.assertions == old(self).assertions,
                self.filters == old(self).filters,
                self.subject == old(self).subject,
                eval_assertions(tree, self.filters, members, asserts.subrange(i as int, asserts.len() as int), success, and_mode)
                    == eval_assertions(tree, self.filters, members, asserts, false, false),
                self.assertion_results.expected@ + describe_assertions(asserts.subrange(i as int, asserts.len() as int))
                    == e0 + describe_assertions(asserts),
                self.assertion_results.actual@.len() + violation_total(tree, self.filters, members, asserts.subrange(i as int, asserts.len() as int))
                    == n0 + violation_total(tree, self.filters, members, asserts),
                self.assertion_results.actual@.subrange(0, n0 as int) == old(self).assertion_results.actual@,
                n0 <= self.assertion_results.actual@.len(),
                forall|j: int| 0 <= j < i ==> (#[trigger] asserts[j] matches AssertionToken::SimpleAssertion(a) ==>
                    records_start(tree, self.filters, members, asserts, j) >= 0
                    && n0 + records_start(tree, self.filters, members, asserts, j)
                        + violators(tree, self.filters, members, a, members.len() as int).len() <= self.assertion_results.actual@.len()
                    && records_of(tree, self.filters, members, a, self.assertion_results.actual@,
                        n0 + records_start(tree, self.filters, members, asserts, j))),
            decreases asserts.len() - i,
        {
            let ghost rest = asserts.subrange(i as int, asserts.len() as int);
            assert(rest.drop_first() =~= asserts.subrange(i + 1, asserts.len() as int));
            assert(rest[0] == asserts[i as int]);
            let ghost before = self.assertion_results.actual@;
            match &self.assertions[i] {
                AssertionToken::Conjunction(AssertionConjunction::AndShould) => {
                    self.assertion_results.push_expected(" and ");
                    and_mode = true;
                },
                AssertionToken::Conjunction(AssertionConjunction::OrShould) => {
                    self.assertion_results.push_expected(" or ");
                    and_mode = false;
                },
                AssertionToken::SimpleAssertion(a) => {
                    let outcome = check_assertion(&mut self.assertion_results, &self.subject, &self.filters, tree, &impls, a);
                    success = if and_mode {
                        success && outcome
                    } else {
                        success || outcome
                    };
                    proof {
                        let now = self.assertion_results.actual@;
                        let f = self.filters;
                        assert(now.subrange(0, n0 as int) =~= now.subrange(0, before.len() as int).subrange(0, n0 as int));
                        lemma_total_nonneg(tree, f, members, rest.drop_first());
                        assert(n0 + records_start(tree, f, members, asserts, i as int) == before.len());
                        assert forall|j: int| 0 <= j < i + 1 implies (#[trigger] asserts[j] matches AssertionToken::SimpleAssertion(b) ==>
                            records_start(tree, f, members, asserts, j) >= 0
                            && n0 + records_start(tree, f, members, asserts, j)
                                + violators(tree, f, members, b, members.len() as int).len() <= now.len()
                            && records_of(tree, f, members, b, now, n0 + records_start(tree, f, members, asserts, j))) by {
                            if j < i {
                                if let AssertionToken::SimpleAssertion(b) = asserts[j] {
                                    lemma_records_stable(tree, f, members, b, before, now, n0 + records_start(tree, f, members, asserts, j));
                                }
                            }
                        }
                    }
                },
            }
            i = i + 1;
        }
        assert(self.assertion_results.expected@ =~= e0 + describe_assertions(asserts));
        success
    }
}

/// The rule's outcome: `Ok` when the composed assertion outcome holds and no violation was
/// found; otherwise the description and every violation.
pub open spec fn rule_passes(
    tree: &ModuleTree,
    filters: Filters,
    conds: Seq<ConditionToken>,
    asserts: Seq<AssertionToken>,
) -> bool {
    let members = selected_members(tree, filters, conds);
    eval_assertions(tree, filters, members, asserts, false, false) && violation_total(tree, filters, members, asserts) == 0
}

impl EnumArchRule {
    /// Evaluates the rule once: conditions, then assertions.
    pub fn check(self, tree: &ModuleTree) -> (r: Result<(), AssertionResult<EnumRuleViolation>>)
        requires
            tree.wf(),
        ensures
            r is Ok <==> rule_passes(tree, self.filters, self.conditions@, self.assertions@)
                && self.assertion_results.actual@.len() == 0,
            r matches Err(res) ==> res.expected@ == self.assertion_results.expected@
                + describe_selection(self.conditions@) + describe_assertions(self.assertions@),
            r matches Err(res) ==> res.actual@.len() == self.assertion_results.actual@.len()
                + violation_total(tree, self.filters, selected_members(tree, self.filters, self.conditions@), self.assertions@),
            r matches Err(res) ==> res.actual@.subrange(0, self.assertion_results.actual@.len() as int) == self.assertion_results.actual@,
            r matches Err(res) ==> reports_all(tree, self.filters, selected_members(tree, self.filters, self.conditions@),
                self.assertions@, res.actual@, self.assertion_results.actual@.len() as int),
    {
        let mut rule = self;
        rule.apply_conditions(tree);
        let ghost members = rule.subject.members@;
        assert(members =~= selected_members(tree, self.filters, self.conditions@));
        let composed = rule.apply_assertions(tree);
        proof {
            lemma_total_nonneg(tree, self.filters, members, self.assertions@);
        }
        if composed && rule.assertion_results.actual.len() == 0 {
            Ok(())
        } else {
            assert(rule.assertion_results.expected@ =~= self.assertion_results.expected@
                + describe_selection(self.conditions@) + describe_assertions(self.assertions@));
            Err(rule.assertion_results)
        }
    }
}

/// `new` is `old` with condition `c` added at the end and all else kept.
pub open spec fn adds_condition(old: EnumArchRule, new: EnumArchRule, c: spec_fn(ConditionToken) -> bool) -> bool {
    &&& appended(old.conditions@, new.conditions@)
    &&& c(new.conditions@.last())
    &&& new.assertions == old.assertions
    &&& new.filters == old.filters
    &&& new.subject == old.subject
    &&& new.assertion_results == old.assertion_results
}

/// `new` is `old` with assertion token `a` added at the end and all else kept.
pub open spec fn adds_assertion(old: EnumArchRule, new: EnumArchRule, a: spec_fn(AssertionToken) -> bool) -> bool {
    &&& appended(old.assertions@, new.assertions@)
    &&& a(new.assertions@.last())
    &&& new.conditions == old.conditions
    &&& new.filters == old.filters
    &&& new.subject == old.subject
    &&& new.assertion_results == old.assertion_results
}

fn push_condition(rule: EnumArchRule, c: ConditionToken) -> (r: EnumArchRule)
    ensures
        adds_condition(rule, r, |x: ConditionToken| x == c),
{
    let mut rule = rule;
    let ghost before = rule.conditions@;
    rule.conditions.push(c);
    assert(rule.conditions@.subrange(0, before.len() as int) =~= before);
    rule
}

fn push_assertion(rule: EnumArchRule, a: AssertionToken) -> (r: EnumArchRule)
    ensures
        adds_assertion(rule, r, |x: AssertionToken| x == a),
{
    let mut rule = rule;
    let ghost before = rule.assertions@;
    rule.assertions.push(a);
    assert(rule.assertions@.subrange(0, before.len() as int) =~= before);
    rule
}

/// Entry point of rules on enums.
#[derive(Debug)]
pub struct Enums;

/// A rule that expects a condition next.
#[derive(Debug)]
pub struct EnumConditionBuilder(pub EnumArchRule);

/// A rule that expects a conjunction or `should` next.
#[derive(Debug)]
pub struct EnumConditionConjunctionBuilder(pub EnumArchRule);

/// A rule that expects an assertion next.
#[derive(Debug)]
pub struct EnumPredicateBuilder(pub EnumArchRule);

/// A rule that can be checked, or extended by another assertion.
#[derive(Debug)]
pub struct EnumPredicateConjunctionBuilder(pub EnumArchRule);

impl Enums {
    /// A rule on the enums that the conditions to come select.
    pub fn that(filters: Filters) -> (r: EnumConditionBuilder)
        ensures
            r.0.conditions@.len() == 0,
            r.0.assertions@.len() == 0,
            r.0.filters == filters,
            r.0.assertion_results.expected@.len() == 0,
            r.0.assertion_results.actual@.len() == 0,
    {
        EnumConditionBuilder(EnumArchRule::new(filters))
    }

    /// A rule on every enum.
    pub fn all_should(filters: Filters) -> (r: EnumPredicateBuilder)
        ensures
            r.0.conditions@.len() == 0,
            r.0.assertions@.len() == 0,
            r.0.filters == filters,
            r.0.assertion_results.expected@.len() == 0,
            r.0.assertion_results.actual@.len() == 0,
    {
        EnumPredicateBuilder(EnumArchRule::new(filters))
    }
}

impl EnumConditionBuilder {
    pub fn reside_in_a_module(self, module: &str) -> (r: EnumConditionConjunctionBuilder)
        ensures
            adds_condition(self.0, r.0, |c: ConditionToken| c matches ConditionToken::ResidesInAModule(m) && m@ == module@),
    {
        EnumConditionConjunctionBuilder(push_condition(self.0, ConditionToken::ResidesInAModule(String::from_str(module))))
    }

    pub fn are_declared_public(self) -> (r: EnumConditionConjunctionBuilder)
        ensures
            adds_condition(self.0, r.0, |c: ConditionToken| c is AreDeclaredPublic),
    {
        EnumConditionConjunctionBuilder(push_condition(self.0, ConditionToken::AreDeclaredPublic))
    }

    pub fn are_declared_private(self) -> (r: EnumConditionConjunctionBuilder)
        ensures
            adds_condition(self.0, r.0, |c: ConditionToken| c is AreDeclaredPrivate),
    {
        EnumConditionConjunctionBuilder(push_condition(self.0, ConditionToken::AreDeclaredPrivate))
    }

    pub fn have_simple_name(self, name: &str) -> (r: EnumConditionConjunctionBuilder)
        ensures
            adds_condition(self.0, r.0, |c: ConditionToken| c matches ConditionToken::HaveSimpleName(m) && m@ == name@),
    {
        EnumConditionConjunctionBuilder(push_condition(self.0, ConditionToken::HaveSimpleName(String::from_str(name))))
    }

    pub fn derives(self, trait_name: &str) -> (r: EnumConditionConjunctionBuilder)
        ensures
            adds_condition(self.0, r.0, |c: ConditionToken| c matches ConditionToken::Derives(m) && m@ == trait_name@),
    {
        EnumConditionConjunctionBuilder(push_condition(self.0, ConditionToken::Derives(String::from_str(trait_name))))
    }

    pub fn implement(self, trait_name: &str) -> (r: EnumConditionConjunctionBuilder)
        ensures
            adds_condition(self.0, r.0, |c: ConditionToken| c matches ConditionToken::Implement(m) && m@ == trait_name@),
    {
        EnumConditionConjunctionBuilder(push_condition(self.0, ConditionToken::Implement(String::from_str(trait_name))))
    }
}

impl EnumConditionConjunctionBuilder {
    pub fn and(self) -> (r: EnumConditionBuilder)
        ensures
            adds_condition(self.0, r.0, |c: ConditionToken| c is And),
    {
        EnumConditionBuilder(push_condition(self.0, ConditionToken::And))
    }

    pub fn or(self) -> (r: EnumConditionBuilder)
        ensures
            adds_condition(self.0, r.0, |c: ConditionToken| c is Or),
    {
        EnumConditionBuilder(push_condition(self.0, ConditionToken::Or))
    }

    pub fn should(self) -> (r: EnumPredicateBuilder)
        ensures
            adds_condition(self.0, r.0, |c: ConditionToken| c is Should),
    {
        EnumPredicateBuilder(push_condition(self.0, ConditionToken::Should))
    }
}

impl EnumPredicateBuilder {
    pub fn have_simple_name(self, name: &str) -> (r: EnumPredicateConjunctionBuilder)
        ensures
            adds_assertion(self.0, r.0, |a: AssertionToken| a matches AssertionToken::SimpleAssertion(SimpleAssertions::HaveSimpleName(m)) && m@ == name@),
    {
        EnumPredicateConjunctionBuilder(push_assertion(self.0, AssertionToken::SimpleAssertion(SimpleAssertions::HaveSimpleName(String::from_str(name)))))
    }

    pub fn be_public(self) -> (r: EnumPredicateConjunctionBuilder)
        ensures
            adds_assertion(self.0, r.0, |a: AssertionToken| a matches AssertionToken::SimpleAssertion(SimpleAssertions::BePublic)),
    {
        EnumPredicateConjunctionBuilder(push_assertion(self.0, AssertionToken::SimpleAssertion(SimpleAssertions::BePublic)))
    }

    pub fn be_private(self) -> (r: EnumPredicateConjunctionBuilder)
        ensures
            adds_assertion(self.0, r.0, |a: AssertionToken| a matches AssertionToken::SimpleAssertion(SimpleAssertions::BePrivate)),
    {
        EnumPredicateConjunctionBuilder(push_assertion(self.0, AssertionToken::SimpleAssertion(SimpleAssertions::BePrivate)))
    }

    pub fn implement(self, trait_name: &str) -> (r: EnumPredicateConjunctionBuilder)
        ensures
            adds_assertion(self.0, r.0, |a: AssertionToken| a matches AssertionToken::SimpleAssertion(SimpleAssertions::Implement(m)) && m@ == trait_name@),
    {
        EnumPredicateConjunctionBuilder(push_assertion(self.0, AssertionToken::SimpleAssertion(SimpleAssertions::Implement(String::from_str(trait_name)))))
    }

    pub fn derive(self, trait_name: &str) -> (r: EnumPredicateConjunctionBuilder)
        ensures
            adds_assertion(self.0, r.0, |a: AssertionToken| a matches AssertionToken::SimpleAssertion(SimpleAssertions::Derive(m)) && m@ == trait_name@),
    {
        EnumPredicateConjunctionBuilder(push_assertion(self.0, AssertionToken::SimpleAssertion(SimpleAssertions::Derive(String::from_str(trait_name)))))
    }

    pub fn implement_or_derive(self, trait_name: &str) -> (r: EnumPredicateConjunctionBuilder)
        ensures
            adds_assertion(self.0, r.0, |a: AssertionToken| a matches AssertionToken::SimpleAssertion(SimpleAssertions::ImplementOrDerive(m)) && m@ == trait_name@),
    {
        EnumPredicateConjunctionBuilder(push_assertion(self.0, AssertionToken::SimpleAssertion(SimpleAssertions::ImplementOrDerive(String::from_str(trait_name)))))
    }
}

impl EnumPredicateConjunctionBuilder {
    pub fn and_should(self) -> (r: EnumPredicateBuilder)
        ensures
            adds_assertion(self.0, r.0, |a: AssertionToken| a matches AssertionToken::Conjunction(AssertionConjunction::AndShould)),
    {
        EnumPredicateBuilder(push_assertion(self.0, AssertionToken::Conjunction(AssertionConjunction::AndShould)))
    }

    pub fn or_should(self) -> (r: EnumPredicateBuilder)
        ensures
            adds_assertion(self.0, r.0, |a: AssertionToken| a matches AssertionToken::Conjunction(AssertionConjunction::OrShould)),
    {
        EnumPredicateBuilder(push_assertion(self.0, AssertionToken::Conjunction(AssertionConjunction::OrShould)))
    }

    /// Evaluates the rule against `tree`.
    pub fn check(self, tree: &ModuleTree) -> (r: Result<(), AssertionResult<EnumRuleViolation>>)
        requires
            tree.wf(),
        ensures
            r is Ok <==> rule_passes(tree, self.0.filters, self.0.conditions@, self.0.assertions@)
                && self.0.assertion_results.actual@.len() == 0,
            r matches Err(res) ==> res.expected@ == self.0.assertion_results.expected@
                + describe_selection(self.0.conditions@) + describe_assertions(self.0.assertions@),
            r matches Err(res) ==> res.actual@.len() == self.0.assertion_results.actual@.len()
                + violation_total(tree, self.0.filters, selected_members(tree, self.0.filters, self.0.conditions@), self.0.assertions@),
            r matches Err(res) ==> res.actual@.subrange(0, self.0.assertion_results.actual@.len() as int) == self.0.assertion_results.actual@,
            r matches Err(res) ==> reports_all(tree, self.0.filters, selected_members(tree, self.0.filters, self.0.conditions@),
                self.0.assertions@, res.actual@, self.0.assertion_results.actual@.len() as int),
    {
        self.0.check(tree)
    }
}

/// A condition that selects by itself, as opposed to a conjunction or the end marker.
pub open spec fn is_simple_condition(c: ConditionToken) -> bool {
    !(c is And) && !(c is Or) && !(c is Should)
}

/// `A and B` selects the enums that meet both conditions; `A or B` those that meet
/// either one.
pub proof fn lemma_and_narrows_or_broadens(tree: &ModuleTree, filters: Filters, a: ConditionToken, b: ConditionToken)
    requires
        is_simple_condition(a),
        is_simple_condition(b),
    ensures
        ({
            let u = tree.kept_enums(filters);
            &&& selected(tree, filters, seq![a, ConditionToken::And, b, ConditionToken::Should])
                == narrowed(tree, filters, u, a).intersect(narrowed(tree, filters, u, b))
            &&& selected(tree, filters, seq![a, ConditionToken::Or, b, ConditionToken::Should])
                == narrowed(tree, filters, u, a).union(narrowed(tree, filters, u, b))
        }),
{
    let u = tree.kept_enums(filters);
    let and_list = seq![a, ConditionToken::And, b, ConditionToken::Should];
    let or_list = seq![a, ConditionToken::Or, b, ConditionToken::Should];
    reveal_with_fuel(eval_conditions, 5);
    assert(and_list.drop_first() =~= seq![ConditionToken::And, b, ConditionToken::Should]);
    assert(and_list.drop_first().drop_first() =~= seq![b, ConditionToken::Should]);
    assert(and_list.drop_first().drop_first().drop_first() =~= seq![ConditionToken::Should]);
    assert(or_list.drop_first() =~= seq![ConditionToken::Or, b, ConditionToken::Should]);
    assert(or_list.drop_first().drop_first() =~= seq![b, ConditionToken::Should]);
    let first = Set::<int>::empty().union(narrowed(tree, filters, u, a));
    assert(narrowed(tree, filters, first, b) =~= narrowed(tree, filters, u, a).intersect(narrowed(tree, filters, u, b)));
    assert(first.union(narrowed(tree, filters, u, b)) =~= narrowed(tree, filters, u, a).union(narrowed(tree, filters, u, b)));
}

/// The selection and conjunction mode after reading a condition list without `Should`.
pub open spec fn run_conditions(
    tree: &ModuleTree,
    filters: Filters,
    conds: Seq<ConditionToken>,
    universe: Set<int>,
    acc: Set<int>,
    and_mode: bool,
) -> (Set<int>, bool)
    decreases conds.len(),
{
    if conds.len() == 0 {
        (acc, and_mode)
    } else {
        let rest = conds.drop_first();
        match conds[0] {
            ConditionToken::And => run_conditions(tree, filters, rest, universe, acc, true),
            ConditionToken::Or => run_conditions(tree, filters, rest, universe, acc, false),
            _ => if and_mode {
                run_conditions(tree, filters, rest, universe, narrowed(tree, filters, acc, conds[0]), true)
            } else {
                run_conditions(tree, filters, rest, universe, acc.union(narrowed(tree, filters, universe, conds[0])), false)
            },
        }
    }
}

proof fn lemma_eval_concat(
    tree: &ModuleTree,
    filters: Filters,
    cs: Seq<ConditionToken>,
    tail: Seq<ConditionToken>,
    universe: Set<int>,
    acc: Set<int>,
    and_mode: bool,
)
    requires
        forall|i: int| 0 <= i < cs.len() ==> !(#[trigger] cs[i] is Should),
    ensures
        ({
            let st = run_conditions(tree, filters, cs, universe, acc, and_mode);
            eval_conditions(tree, filters, cs + tail, universe, acc, and_mode) == eval_conditions(tree, filters, tail, universe, st.0, st.1)
        }),
    decreases cs.len(),
{
    if cs.len() > 0 {
        assert((cs + tail)[0] == cs[0]);
        assert((cs + tail).drop_first() =~= cs.drop_first() + tail);
        assert(!(cs[0] is Should));
        let rest = cs.drop_first();
        assert forall|i: int| 0 <= i < rest.len() implies !(#[trigger] rest[i] is Should) by {
            assert(rest[i] == cs[i + 1]);
        }
        match cs[0] {
            ConditionToken::And => lemma_eval_concat(tree, filters, rest, tail, universe, acc, true),
            ConditionToken::Or => lemma_eval_concat(tree, filters, rest, tail, universe, acc, false),
            _ => if and_mode {
                lemma_eval_concat(tree, filters, rest, tail, universe, narrowed(tree, filters, acc, cs[0]), true)
            } else {
                lemma_eval_concat(tree, filters, rest, tail, universe, acc.union(narrowed(tree, filters, universe, cs[0])), false)
            },
        }
    } else {
        assert(cs + tail =~= tail);
    }
}

/// Appending `and C` to a non-empty condition list (without `Should`) never adds to what
/// it selects, and appending `or C` never removes from it.
pub proof fn lemma_and_never_broadens_or_never_narrows(
    tree: &ModuleTree,
    filters: Filters,
    cs: Seq<ConditionToken>,
    c: ConditionToken,
)
    requires
        cs.len() > 0,
        forall|i: int| 0 <= i < cs.len() ==> !(#[trigger] cs[i] is Should),
        is_simple_condition(c),
    ensures
        selected(tree, filters, cs + seq![ConditionToken::And, c, ConditionToken::Should]).subset_of(
            selected(tree, filters, cs + seq![ConditionToken::Should]),
        ),
        selected(tree, filters, cs + seq![ConditionToken::Should]).subset_of(
            selected(tree, filters, cs + seq![ConditionToken::Or, c, ConditionToken::Should]),
        ),
{
    let u = tree.kept_enums(filters);
    let and_tail = seq![ConditionToken::And, c, ConditionToken::Should];
    let or_tail = seq![ConditionToken::Or, c, ConditionToken::Should];
    let end = seq![ConditionToken::Should];
    lemma_eval_concat(tree, filters, cs, and_tail, u, Set::empty(), false);
    lemma_eval_concat(tree, filters, cs, or_tail, u, Set::empty(), false);
    lemma_eval_concat(tree, filters, cs, end, u, Set::empty(), false);
    let st = run_conditions(tree, filters, cs, u, Set::empty(), false);
    reveal_with_fuel(eval_conditions, 4);
    assert(and_tail.drop_first() =~= seq![c, ConditionToken::Should]);
    assert(and_tail.drop_first().drop_first() =~= end);
    assert(or_tail.drop_first() =~= seq![c, ConditionToken::Should]);
    assert(or_tail.drop_first().drop_first() =~= end);
}

/// The violators of an assertion are listed in increasing index order, each one a member
/// that breaks the assertion, and every such member is listed.
pub proof fn lemma_violators(tree: &ModuleTree, filters: Filters, members: Seq<bool>, a: SimpleAssertions, k: int)
    requires
        0 <= k <= members.len(),
    ensures
        ({
            let vs = violators(tree, filters, members, a, k);
            &&& forall|t: int| 0 <= t < vs.len() ==> 0 <= #[trigger] vs[t] < k && members[vs[t]] && violates(tree, filters, vs[t], a)
            &&& forall|t1: int, t2: int| 0 <= t1 < t2 < vs.len() ==> vs[t1] < vs[t2]
            &&& forall|j: int| 0 <= j < k && members[j] && violates(tree, filters, j, a) ==> vs.contains(j)
        }),
    decreases k,
{
    if k > 0 {
        lemma_violators(tree, filters, members, a, k - 1);
        let prev = violators(tree, filters, members, a, k - 1);
        let vs = violators(tree, filters, members, a, k);
        if members[k - 1] && violates(tree, filters, k - 1, a) {
            assert(vs == prev.push(k - 1));
            assert forall|j: int| 0 <= j < k && members[j] && violates(tree, filters, j, a) implies vs.contains(j) by {
                if j == k - 1 {
                    assert(vs[vs.len() - 1] == j);
                } else {
                    let t = choose|t: int| 0 <= t < prev.len() && prev[t] == j;
                    assert(vs[t] == j);
                }
            }
        }
    }
}

/// An assertion over the matched set fails exactly when some member breaks it, and the
/// number of violations equals the number of members that break it.
pub proof fn lemma_universal_assertion(tree: &ModuleTree, filters: Filters, members: Seq<bool>, a: SimpleAssertions)
    ensures
        ({
            let vs = violators(tree, filters, members, a, members.len() as int);
            let breakers = Set::new(|k: int| 0 <= k < members.len() && members[k] && violates(tree, filters, k, a));
            &&& (vs.len() == 0 <==> breakers.is_empty())
            &&& vs.len() == breakers.len()
            &&& breakers.finite()
        }),
{
    let vs = violators(tree, filters, members, a, members.len() as int);
    let breakers = Set::new(|k: int| 0 <= k < members.len() && members[k] && violates(tree, filters, k, a));
    lemma_violators(tree, filters, members, a, members.len() as int);
    assert(vs.no_duplicates()) by {
        assert forall|i: int, j: int| 0 <= i < vs.len() && 0 <= j < vs.len() && i != j implies vs[i] != vs[j] by {
            if i < j {
            } else {
            }
        }
    }
    assert(vs.to_set() =~= breakers) by {
        assert forall|k: int| breakers.contains(k) implies vs.to_set().contains(k) by {
            assert(vs.contains(k));
        }
        assert forall|k: int| vs.to_set().contains(k) implies breakers.contains(k) by {
            let t = choose|t: int| 0 <= t < vs.len() && vs[t] == k;
            assert(0 <= vs[t]);
        }
    }
    vs.unique_seq_to_set();
    if vs.len() > 0 {
        assert(breakers.contains(vs[0]));
    }
    if !breakers.is_empty() {
        let k = breakers.choose();
        assert(breakers.contains(k));
        assert(vs.contains(k));
    }
}

/// `implement_or_derive`: an enum that derives the trait, or has an impl block for it, is
/// not reported; a matched enum with neither is reported exactly once.
pub proof fn lemma_implement_or_derive(tree: &ModuleTree, filters: Filters, members: Seq<bool>, t: String, k: int)
    requires
        0 <= k < members.len(),
    ensures
        ({
            let vs = violators(tree, filters, members, SimpleAssertions::ImplementOrDerive(t), members.len() as int);
            let s = tree.enums@[k];
            &&& derives_trait(s.derives@, t@) ==> !vs.contains(k)
            &&& implements(tree, filters, s.ident@, t@) ==> !vs.contains(k)
            &&& members[k] && !derives_trait(s.derives@, t@) && !implements(tree, filters, s.ident@, t@)
                ==> exists|i: int| 0 <= i < vs.len() && vs[i] == k && forall|j: int| 0 <= j < vs.len() && vs[j] == k ==> j == i
        }),
{
    let a = SimpleAssertions::ImplementOrDerive(t);
    let vs = violators(tree, filters, members, a, members.len() as int);
    lemma_violators(tree, filters, members, a, members.len() as int);
    if vs.contains(k) {
        let i = choose|i: int| 0 <= i < vs.len() && vs[i] == k;
        assert(violates(tree, filters, vs[i], a));
        assert forall|j: int| 0 <= j < vs.len() && vs[j] == k implies j == i by {
            if j < i {
                assert(vs[j] < vs[i]);
            } else if i < j {
                assert(vs[i] < vs[j]);
            }
        }
    }
}

} // verus!

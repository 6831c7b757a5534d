//! Layered architecture: named layers defined by a path prefix, and which layers may depend
//! on which.
use vstd::prelude::*;
use crate::ast::{canonical_use, CodeSpan};
use crate::pattern::matches_module;
use crate::text::{clone_string, is_prefix, str_eq};
use crate::tree::ModuleTree;

verus! {

/// A layer name and the path prefix of its modules.
#[derive(Debug)]
pub struct LayerDefinition {
    pub name: String,
    pub path: String,
}

/// Who may depend on a layer.
#[derive(Debug, PartialEq, Eq)]
pub enum LayerAssertion {
    MayNotBeAccessedByAnyLayer,
    MayOnlyBeAccessedByLayers(Vec<String>),
    MayOnlyBeAccessedByLayer(String),
}

/// The assertion attached to a layer.
#[derive(Debug)]
pub struct LayerRule {
    pub name: String,
    pub assertion: LayerAssertion,
}

/// Layer definitions and the assertions on some of the layers, each layer named once.
#[derive(Debug)]
pub struct LayeredArchitecture {
    pub layer_definitions: Vec<LayerDefinition>,
    pub layer_assertions: Vec<LayerRule>,
}

/// An import of a protected layer's path by a module outside the layers allowed to use it.
#[derive(Debug)]
pub struct ForbiddenLayerAccess {
    pub layer: String,
    pub layer_module: String,
    pub accessed_in: String,
    pub location: String,
    pub dependency: String,
    pub span: CodeSpan,
}

/// The path prefix defining layer `name`, if it is defined.
pub open spec fn path_of(defs: Seq<LayerDefinition>, name: Seq<char>) -> Option<Seq<char>>
    decreases defs.len(),
{
    if defs.len() == 0 {
        None
    } else if defs.last().name@ == name {
        Some(defs.last().path@)
    } else {
        path_of(defs.drop_last(), name)
    }
}

/// Layer `name` is defined.
pub open spec fn is_defined(defs: Seq<LayerDefinition>, name: Seq<char>) -> bool {
    path_of(defs, name) is Some
}

/// The assertion attached to layer `name`, if any.
pub open spec fn assertion_of(rules: Seq<LayerRule>, name: Seq<char>) -> Option<LayerAssertion>
    decreases rules.len(),
{
    if rules.len() == 0 {
        None
    } else if rules.last().name@ == name {
        Some(rules.last().assertion)
    } else {
        assertion_of(rules.drop_last(), name)
    }
}

/// Each layer is named once, and every layer an assertion names is defined.
pub open spec fn architecture_wf(a: LayeredArchitecture) -> bool {
    &&& forall|i: int, j: int|
        0 <= i < j < a.layer_definitions@.len() ==> a.layer_definitions@[i].name@ != a.layer_definitions@[j].name@
    &&& forall|i: int, j: int|
        0 <= i < j < a.layer_assertions@.len() ==> a.layer_assertions@[i].name@ != a.layer_assertions@[j].name@
    &&& forall|i: int|
        0 <= i < a.layer_assertions@.len() ==> is_defined(a.layer_definitions@, #[trigger] a.layer_assertions@[i].name@)
            && assertion_names_defined(a.layer_definitions@, a.layer_assertions@[i].assertion)
}

/// Every layer that an assertion allows is defined.
pub open spec fn assertion_names_defined(defs: Seq<LayerDefinition>, a: LayerAssertion) -> bool {
    match a {
        LayerAssertion::MayNotBeAccessedByAnyLayer => true,
        LayerAssertion::MayOnlyBeAccessedByLayers(ls) => forall|i: int| 0 <= i < ls@.len() ==> is_defined(defs, #[trigger] ls@[i]@),
        LayerAssertion::MayOnlyBeAccessedByLayer(l) => is_defined(defs, l@),
    }
}

/// The path prefixes of the layers an assertion allows.
pub open spec fn permitted_paths(defs: Seq<LayerDefinition>, a: LayerAssertion) -> Seq<Seq<char>> {
    match a {
        LayerAssertion::MayNotBeAccessedByAnyLayer => Seq::empty(),
        LayerAssertion::MayOnlyBeAccessedByLayers(ls) => ls@.map_values(|l: String| path_of(defs, l@).unwrap()),
        LayerAssertion::MayOnlyBeAccessedByLayer(l) => seq![path_of(defs, l@).unwrap()],
    }
}

/// Module `m` lies outside the protected layer and outside every allowed layer.
pub open spec fn outsider(tree: &ModuleTree, m: int, protected: Seq<char>, permitted: Seq<Seq<char>>) -> bool {
    !is_prefix(protected, tree.modules@[m].path@) && forall|i: int|
        0 <= i < permitted.len() ==> !is_prefix(#[trigger] permitted[i], tree.modules@[m].path@)
}

/// Import `d` of module `m` refers into the protected layer.
pub open spec fn refers_to(tree: &ModuleTree, m: int, d: int, protected: Seq<char>) -> bool {
    matches_module(
        protected + seq!['*'],
        canonical_use(tree.modules@[m].dependencies@[d].parts@, tree.modules@[0].ident@),
    )
}

/// The imports `(m, d)` among the first `d` of module `m` that refer into the protected layer.
pub open spec fn module_hits(tree: &ModuleTree, m: int, protected: Seq<char>, d: int) -> Seq<(int, int)>
    decreases d,
{
    if d <= 0 {
        Seq::empty()
    } else if refers_to(tree, m, d - 1, protected) {
        module_hits(tree, m, protected, d - 1).push((m, d - 1))
    } else {
        module_hits(tree, m, protected, d - 1)
    }
}

/// The forbidden imports of the first `k` modules, in module then import order.
pub open spec fn layer_hits(tree: &ModuleTree, protected: Seq<char>, permitted: Seq<Seq<char>>, k: int) -> Seq<(int, int)>
    decreases k,
{
    if k <= 0 {
        Seq::empty()
    } else if outsider(tree, k - 1, protected, permitted) {
        layer_hits(tree, protected, permitted, k - 1) + module_hits(
            tree,
            k - 1,
            protected,
            tree.modules@[k - 1].dependencies@.len() as int,
        )
    } else {
        layer_hits(tree, protected, permitted, k - 1)
    }
}

/// `v` reports import `d` of module `m` as a forbidden access to layer `layer` at `protected`.
pub open spec fn reports_access(v: ForbiddenLayerAccess, tree: &ModuleTree, m: int, d: int, layer: Seq<char>, protected: Seq<char>) -> bool {
    &&& v.layer@ == layer
    &&& v.layer_module@ == protected
    &&& v.accessed_in@ == tree.modules@[m].path@
    &&& v.location@ == tree.modules@[m].real_path@
    &&& v.dependency@ == tree.modules@[m].dependencies@[d].parts@
    &&& v.span == tree.modules@[m].dependencies@[d].span
}

/// Whether `path` starts with one of `prefixes`.
fn under_any(path: &str, prefixes: &Vec<String>) -> (r: bool)
    ensures
        r == exists|i: int| 0 <= i < prefixes@.len() && is_prefix(#[trigger] prefixes@[i]@, path@),
{
    let mut i: usize = 0;
    while i < prefixes.len()
        invariant
            forall|j: int| 0 <= j < i ==> !is_prefix(#[trigger] prefixes@[j]@, path@),
        decreases prefixes.len() - i,
    {
        if crate::text::starts_with(path, prefixes[i].as_str()) {
            return true;
        }
        i = i + 1;
    }
    false
}

/// Records, for each import of module `m` that refers into the protected layer, a
/// forbidden access.
fn scan_module(
    tree: &ModuleTree,
    m: usize,
    layer: &str,
    protected: &str,
    out: &mut Vec<ForbiddenLayerAccess>,
)
    requires
        tree.wf(),
        m < tree.modules.len(),
    ensures
        ({
            let hits = module_hits(tree, m as int, protected@, tree.modules@[m as int].dependencies@.len() as int);
            let n0 = old(out)@.len();
            &&& final(out)@.len() == n0 + hits.len()
            &&& final(out)@.subrange(0, n0 as int) == old(out)@
            &&& forall|t: int| 0 <= t < hits.len() ==> reports_access(#[trigger] final(out)@[n0 + t], tree, hits[t].0, hits[t].1, layer@, protected@)
        }),
{
    let module = &tree.modules[m];
    let crate_name = tree.modules[0].ident.as_str();
    let ghost n0 = out@.len();
    let mut d: usize = 0;
    while d < module.dependencies.len()
        invariant
            tree.wf(),
            m < tree.modules.len(),
            module == tree.modules@[m as int],
            crate_name@ == tree.modules@[0].ident@,
            n0 == old(out)@.len(),
            d <= module.dependencies.len(),
            ({
                let hits = module_hits(tree, m as int, protected@, d as int);
                &&& out@.len() == n0 + hits.len()
                &&& out@.subrange(0, n0 as int) == old(out)@
                &&& forall|t: int| 0 <= t < hits.len() ==> reports_access(#[trigger] out@[n0 + t], tree, hits[t].0, hits[t].1, layer@, protected@)
            }),
        decreases module.dependencies.len() - d,
    {
        let usage = &module.dependencies[d];
        let ghost before = out@;
        if usage.starts_with(protected, crate_name) {
            let v = ForbiddenLayerAccess {
                layer: String::from_str(layer),
                layer_module: String::from_str(protected),
                accessed_in: String::from_str(module.path.as_str()),
                location: clone_string(&module.real_path),
                dependency: clone_string(&usage.parts),
                span: usage.span,
            };
            out.push(v);
            assert(out@.subrange(0, n0 as int) =~= before.subrange(0, n0 as int));
        }
        d = d + 1;
    }
}

/// Records every forbidden access to the layer `layer` at `protected`, whose allowed users
/// are the layers at `permitted`: an import into `protected` made by a module that lies in
/// neither the layer nor an allowed one. Records come in module order, then import order.
pub fn check_layer(
    tree: &ModuleTree,
    layer: &str,
    protected: &str,
    permitted: &Vec<String>,
    out: &mut Vec<ForbiddenLayerAccess>,
)
    requires
        tree.wf(),
    ensures
        ({
            let perm = permitted@.map_values(|p: String| p@);
            let hits = layer_hits(tree, protected@, perm, tree.modules@.len() as int);
            let n0 = old(out)@.len();
            &&& final(out)@.len() == n0 + hits.len()
            &&& final(out)@.subrange(0, n0 as int) == old(out)@
            &&& forall|t: int| 0 <= t < hits.len() ==> reports_access(#[trigger] final(out)@[n0 + t], tree, hits[t].0, hits[t].1, layer@, protected@)
        }),
{
    let ghost perm = permitted@.map_values(|p: String| p@);
    let ghost n0 = out@.len();
    let mut m: usize = 0;
    while m < tree.modules.len()
        invariant
            tree.wf(),
            perm == permitted@.map_values(|p: String| p@),
            n0 == old(out)@.len(),
            m <= tree.modules.len(),
            ({
                let hits = layer_hits(tree, protected@, perm, m as int);
                &&& out@.len() == n0 + hits.len()
                &&& out@.subrange(0, n0 as int) == old(out)@
                &&& forall|t: int| 0 <= t < hits.len() ==> reports_access(#[trigger] out@[n0 + t], tree, hits[t].0, hits[t].1, layer@, protected@)
            }),
        decreases tree.modules.len() - m,
    {
        let path = tree.modules[m].path.as_str();
        let inside = crate::text::starts_with(path, protected);
        let allowed = under_any(path, permitted);
        proof {
            if !allowed {
                assert forall|i: int| 0 <= i < perm.len() implies !is_prefix(#[trigger] perm[i], tree.modules@[m as int].path@) by {
                    assert(perm[i] == permitted@[i]@);
                }
            } else {
                let i = choose|i: int| 0 <= i < permitted@.len() && is_prefix(#[trigger] permitted@[i]@, path@);
                assert(perm[i] == permitted@[i]@);
            }
        }
        if !inside && !allowed {
            let ghost before = out@;
            let ghost prev = layer_hits(tree, protected@, perm, m as int);
            scan_module(tree, m, layer, protected, out);
            proof {
                let mh = module_hits(tree, m as int, protected@, tree.modules@[m as int].dependencies@.len() as int);
                let hits = layer_hits(tree, protected@, perm, m + 1);
                assert(hits == prev + mh);
                assert(out@.subrange(0, n0 as int) =~= out@.subrange(0, before.len() as int).subrange(0, n0 as int));
                assert forall|t: int| 0 <= t < hits.len() implies reports_access(#[trigger] out@[n0 + t], tree, hits[t].0, hits[t].1, layer@, protected@) by {
                    if t < prev.len() {
                        assert(out@[n0 + t] == out@.subrange(0, before.len() as int)[n0 + t]);
                        assert(hits[t] == prev[t]);
                    } else {
                        let u = t - prev.len();
                        assert(hits[t] == mh[u]);
                        assert(out@[n0 + t] == out@[before.len() + u]);
                    }
                }
            }
        }
        m = m + 1;
    }
}

/// The forbidden accesses `(assertion, module, import)` that the first `i` layer
/// assertions find, assertion by assertion.
pub open spec fn all_hits(a: LayeredArchitecture, tree: &ModuleTree, i: int) -> Seq<(int, int, int)>
    decreases i,
{
    if i <= 0 {
        Seq::empty()
    } else {
        all_hits(a, tree, i - 1) + rule_hits(a, tree, i - 1).map_values(|h: (int, int)| (i - 1, h.0, h.1))
    }
}

/// `v` reports forbidden access `h` = `(assertion, module, import)`.
pub open spec fn reports_hit(v: ForbiddenLayerAccess, a: LayeredArchitecture, tree: &ModuleTree, h: (int, int, int)) -> bool {
    reports_access(
        v,
        tree,
        h.1,
        h.2,
        a.layer_assertions@[h.0].name@,
        path_of(a.layer_definitions@, a.layer_assertions@[h.0].name@).unwrap(),
    )
}

/// The forbidden accesses that assertion `i` finds.
pub open spec fn rule_hits(a: LayeredArchitecture, tree: &ModuleTree, i: int) -> Seq<(int, int)> {
    let rule = a.layer_assertions@[i];
    layer_hits(
        tree,
        path_of(a.layer_definitions@, rule.name@).unwrap(),
        permitted_paths(a.layer_definitions@, rule.assertion),
        tree.modules@.len() as int,
    )
}

proof fn lemma_path_of_unique(defs: Seq<LayerDefinition>, name: Seq<char>)
    requires
        forall|i: int, j: int| 0 <= i < j < defs.len() ==> defs[i].name@ != defs[j].name@,
    ensures
        forall|i: int| 0 <= i < defs.len() && defs[i].name@ == name ==> path_of(defs, name) == Some(defs[i].path@),
        (forall|i: int| 0 <= i < defs.len() ==> defs[i].name@ != name) ==> path_of(defs, name) is None,
    decreases defs.len(),
{
    if defs.len() > 0 {
        let rest = defs.drop_last();
        assert forall|i: int, j: int| 0 <= i < j < rest.len() implies rest[i].name@ != rest[j].name@ by {
            assert(rest[i] == defs[i] && rest[j] == defs[j]);
        }
        lemma_path_of_unique(rest, name);
        assert forall|i: int| 0 <= i < defs.len() && defs[i].name@ == name implies path_of(defs, name) == Some(defs[i].path@) by {
            if i < defs.len() - 1 {
                assert(rest[i] == defs[i]);
            }
        }
        if forall|i: int| 0 <= i < defs.len() ==> defs[i].name@ != name {
            assert(defs.last() == defs[defs.len() - 1]);
            assert forall|i: int| 0 <= i < rest.len() implies rest[i].name@ != name by {
                assert(rest[i] == defs[i]);
            }
        }
    }
}

proof fn lemma_assertion_of_unique(rules: Seq<LayerRule>, name: Seq<char>)
    requires
        forall|i: int, j: int| 0 <= i < j < rules.len() ==> rules[i].name@ != rules[j].name@,
    ensures
        forall|i: int| 0 <= i < rules.len() && rules[i].name@ == name ==> assertion_of(rules, name) == Some(rules[i].assertion),
        (forall|i: int| 0 <= i < rules.len() ==> rules[i].name@ != name) ==> assertion_of(rules, name) is None,
    decreases rules.len(),
{
    if rules.len() > 0 {
        let rest = rules.drop_last();
        assert forall|i: int, j: int| 0 <= i < j < rest.len() implies rest[i].name@ != rest[j].name@ by {
            assert(rest[i] == rules[i] && rest[j] == rules[j]);
        }
        lemma_assertion_of_unique(rest, name);
        assert forall|i: int| 0 <= i < rules.len() && rules[i].name@ == name implies assertion_of(rules, name) == Some(rules[i].assertion) by {
            if i < rules.len() - 1 {
                assert(rest[i] == rules[i]);
            }
        }
        if forall|i: int| 0 <= i < rules.len() ==> rules[i].name@ != name {
            assert(rules.last() == rules[rules.len() - 1]);
            assert forall|i: int| 0 <= i < rest.len() implies rest[i].name@ != name by {
                assert(rest[i] == rules[i]);
            }
        }
    }
}

/// The path of layer `name`, searched from the last definition.
fn find_path<'a>(defs: &'a Vec<LayerDefinition>, name: &str) -> (r: Option<&'a String>)
    ensures
        match r {
            Some(p) => path_of(defs@, name@) == Some(p@),
            None => path_of(defs@, name@) is None,
        },
{
    let mut k: usize = defs.len();
    assert(defs@.subrange(0, k as int) =~= defs@);
    while k > 0
        invariant
            k <= defs.len(),
            path_of(defs@.subrange(0, k as int), name@) == path_of(defs@, name@),
        decreases k,
    {
        assert(defs@.subrange(0, k as int).drop_last() =~= defs@.subrange(0, k - 1));
        if str_eq(defs[k - 1].name.as_str(), name) {
            return Some(&defs[k - 1].path);
        }
        k = k - 1;
    }
    None
}

/// The assertion on layer `name`, searched from the last one.
fn find_assertion<'a>(rules: &'a Vec<LayerRule>, name: &str) -> (r: Option<&'a LayerAssertion>)
    ensures
        match r {
            Some(a) => assertion_of(rules@, name@) == Some(*a),
            None => assertion_of(rules@, name@) is None,
        },
{
    let mut k: usize = rules.len();
    assert(rules@.subrange(0, k as int) =~= rules@);
    while k > 0
        invariant
            k <= rules.len(),
            assertion_of(rules@.subrange(0, k as int), name@) == assertion_of(rules@, name@),
        decreases k,
    {
        assert(rules@.subrange(0, k as int).drop_last() =~= rules@.subrange(0, k - 1));
        if str_eq(rules[k - 1].name.as_str(), name) {
            return Some(&rules[k - 1].assertion);
        }
        k = k - 1;
    }
    None
}

/// The position of the entry named `name`, if any.
fn position_of_definition(defs: &Vec<LayerDefinition>, name: &str) -> (r: Option<usize>)
    ensures
        match r {
            Some(i) => i < defs@.len() && defs@[i as int].name@ == name@,
            None => forall|i: int| 0 <= i < defs@.len() ==> defs@[i].name@ != name@,
        },
{
    let mut i: usize = 0;
    while i < defs.len()
        invariant
            forall|j: int| 0 <= j < i ==> defs@[j].name@ != name@,
        decreases defs.len() - i,
    {
        if str_eq(defs[i].name.as_str(), name) {
            return Some(i);
        }
        i = i + 1;
    }
    None
}

fn position_of_rule(rules: &Vec<LayerRule>, name: &str) -> (r: Option<usize>)
    ensures
        match r {
            Some(i) => i < rules@.len() && rules@[i as int].name@ == name@,
            None => forall|i: int| 0 <= i < rules@.len() ==> rules@[i].name@ != name@,
        },
{
    let mut i: usize = 0;
    while i < rules.len()
        invariant
            forall|j: int| 0 <= j < i ==> rules@[j].name@ != name@,
        decreases rules.len() - i,
    {
        if str_eq(rules[i].name.as_str(), name) {
            return Some(i);
        }
        i = i + 1;
    }
    None
}

impl LayeredArchitecture {
    pub fn new() -> (r: LayeredArchitecture)
        ensures
            r.layer_definitions@.len() == 0,
            r.layer_assertions@.len() == 0,
            architecture_wf(r),
    {
        LayeredArchitecture { layer_definitions: Vec::new(), layer_assertions: Vec::new() }
    }

    /// The path that defines layer `name`.
    pub fn layer_path(&self, name: &str) -> (r: Option<&String>)
        ensures
            match r {
                Some(p) => path_of(self.layer_definitions@, name@) == Some(p@),
                None => path_of(self.layer_definitions@, name@) is None,
            },
    {
        find_path(&self.layer_definitions, name)
    }

    /// The assertion on layer `name`.
    pub fn layer_assertion(&self, name: &str) -> (r: Option<&LayerAssertion>)
        ensures
            match r {
                Some(a) => assertion_of(self.layer_assertions@, name@) == Some(*a),
                None => assertion_of(self.layer_assertions@, name@) is None,
            },
    {
        find_assertion(&self.layer_assertions, name)
    }

    /// Defines (or redefines) layer `name` as the modules under `path`.
    pub fn define(&mut self, name: &str, path: &str)
        requires
            architecture_wf(*old(self)),
        ensures
            architecture_wf(*final(self)),
            path_of(final(self).layer_definitions@, name@) == Some(path@),
            forall|n: Seq<char>| n != name@ ==> path_of(final(self).layer_definitions@, n) == path_of(old(self).layer_definitions@, n),
            final(self).layer_assertions == old(self).layer_assertions,
    {
        let def = LayerDefinition { name: String::from_str(name), path: String::from_str(path) };
        let ghost mut pos: int = old(self).layer_definitions@.len() as int;
        match position_of_definition(&self.layer_definitions, name) {
            Some(i) => {
                proof {
                    pos = i as int;
                }
                self.layer_definitions.set(i, def);
            },
            None => {
                self.layer_definitions.push(def);
            },
        }
        proof {
            let old_defs = old(self).layer_definitions@;
            let defs = self.layer_definitions@;
            assert forall|i: int, j: int| 0 <= i < j < defs.len() implies defs[i].name@ != defs[j].name@ by {
                if i < old_defs.len() && j < old_defs.len() {
                    if defs[i] != old_defs[i] || defs[j] != old_defs[j] {
                    }
                }
            }
            lemma_path_of_unique(defs, name@);
            assert(defs[pos].name@ == name@ && defs[pos].path@ == path@);
            assert forall|n: Seq<char>| n != name@ implies path_of(defs, n) == path_of(old_defs, n) by {
                lemma_path_of_unique(defs, n);
                lemma_path_of_unique(old_defs, n);
                if exists|i: int| 0 <= i < old_defs.len() && old_defs[i].name@ == n {
                    let i = choose|i: int| 0 <= i < old_defs.len() && old_defs[i].name@ == n;
                    assert(defs[i] == old_defs[i]);
                } else {
                    assert forall|i: int| 0 <= i < defs.len() implies defs[i].name@ != n by {
                        if i < old_defs.len() && defs[i] == old_defs[i] {
                        }
                    }
                }
            }
            let rules = self.layer_assertions@;
            assert forall|i: int| 0 <= i < rules.len() implies is_defined(defs, #[trigger] rules[i].name@)
                && assertion_names_defined(defs, rules[i].assertion) by {
                assert(is_defined(old_defs, rules[i].name@));
                assert(assertion_names_defined(old_defs, rules[i].assertion));
                match rules[i].assertion {
                    LayerAssertion::MayOnlyBeAccessedByLayers(ls) => {
                        assert forall|k: int| 0 <= k < ls@.len() implies is_defined(defs, #[trigger] ls@[k]@) by {
                            assert(is_defined(old_defs, ls@[k]@));
                        }
                    },
                    _ => {},
                }
            }
        }
    }

    /// Attaches (or replaces) the assertion on layer `name`.
    pub fn assert_layer(&mut self, name: &str, assertion: LayerAssertion)
        requires
            architecture_wf(*old(self)),
            is_defined(old(self).layer_definitions@, name@),
            assertion_names_defined(old(self).layer_definitions@, assertion),
        ensures
            architecture_wf(*final(self)),
            assertion_of(final(self).layer_assertions@, name@) == Some(assertion),
            forall|n: Seq<char>| n != name@ ==> assertion_of(final(self).layer_assertions@, n) == assertion_of(old(self).layer_assertions@, n),
            final(self).layer_definitions == old(self).layer_definitions,
    {
        let ghost a = assertion;
        let rule = LayerRule { name: String::from_str(name), assertion };
        let ghost mut pos: int = old(self).layer_assertions@.len() as int;
        match position_of_rule(&self.layer_assertions, name) {
            Some(i) => {
                proof {
                    pos = i as int;
                }
                self.layer_assertions.set(i, rule);
            },
            None => {
                self.layer_assertions.push(rule);
            },
        }
        proof {
            let old_rules = old(self).layer_assertions@;
            let rules = self.layer_assertions@;
            assert forall|i: int, j: int| 0 <= i < j < rules.len() implies rules[i].name@ != rules[j].name@ by {
                if i < old_rules.len() && j < old_rules.len() {
                    if rules[i] != old_rules[i] || rules[j] != old_rules[j] {
                    }
                }
            }
            lemma_assertion_of_unique(rules, name@);
            assert(rules[pos].name@ == name@ && rules[pos].assertion == a);
            assert forall|n: Seq<char>| n != name@ implies assertion_of(rules, n) == assertion_of(old_rules, n) by {
                lemma_assertion_of_unique(rules, n);
                lemma_assertion_of_unique(old_rules, n);
                if exists|i: int| 0 <= i < old_rules.len() && old_rules[i].name@ == n {
                    let i = choose|i: int| 0 <= i < old_rules.len() && old_rules[i].name@ == n;
                    assert(rules[i] == old_rules[i]);
                } else {
                    assert forall|i: int| 0 <= i < rules.len() implies rules[i].name@ != n by {
                        if i < old_rules.len() && rules[i] == old_rules[i] {
                        }
                    }
                }
            }
            assert forall|i: int| 0 <= i < rules.len() implies is_defined(self.layer_definitions@, #[trigger] rules[i].name@)
                && assertion_names_defined(self.layer_definitions@, rules[i].assertion) by {
                if i < old_rules.len() && rules[i] == old_rules[i] {
                } else {
                }
            }
        }
    }

    /// Checks every layer that carries an assertion: `Ok` when no module outside a layer
    /// and outside the layers allowed to use it imports from it; otherwise every such import.
    pub fn check(self, tree: &ModuleTree) -> (r: Result<(), Vec<ForbiddenLayerAccess>>)
        requires
            tree.wf(),
            architecture_wf(self),
        ensures
            r is Ok <==> all_hits(self, tree, self.layer_assertions@.len() as int).len() == 0,
            r matches Err(v) ==> v@.len() == all_hits(self, tree, self.layer_assertions@.len() as int).len(),
            r matches Err(v) ==> forall|t: int|
                0 <= t < v@.len() ==> reports_hit(#[trigger] v@[t], self, tree, all_hits(self, tree, self.layer_assertions@.len() as int)[t]),
    {
        let mut out: Vec<ForbiddenLayerAccess> = Vec::new();
        let mut i: usize = 0;
        while i < self.layer_assertions.len()
            invariant
                tree.wf(),
                architecture_wf(self),
                i <= self.layer_assertions.len(),
                out@.len() == all_hits(self, tree, i as int).len(),
                forall|t: int| 0 <= t < out@.len() ==> reports_hit(#[trigger] out@[t], self, tree, all_hits(self, tree, i as int)[t]),
            decreases self.layer_assertions.len() - i,
        {
            let rule = &self.layer_assertions[i];
            assert(is_defined(self.layer_definitions@, self.layer_assertions@[i as int].name@));
            let protected = match find_path(&self.layer_definitions, rule.name.as_str()) {
                Some(p) => p,
                None => {
                    return Err(out);
                },
            };
            let mut permitted: Vec<String> = Vec::new();
            match &rule.assertion {
                LayerAssertion::MayNotBeAccessedByAnyLayer => {},
                LayerAssertion::MayOnlyBeAccessedByLayers(ls) => {
                    assert(assertion_names_defined(self.layer_definitions@, self.layer_assertions@[i as int].assertion));
                    let mut k: usize = 0;
                    while k < ls.len()
                        invariant
                            architecture_wf(self),
                            i < self.layer_assertions@.len(),
                            rule == self.layer_assertions@[i as int],
                            rule.assertion == LayerAssertion::MayOnlyBeAccessedByLayers(*ls),
                            k <= ls.len(),
                            forall|j: int| 0 <= j < ls@.len() ==> is_defined(self.layer_definitions@, #[trigger] ls@[j]@),
                            permitted@.len() == k,
                            forall|j: int| 0 <= j < k ==> (#[trigger] permitted@[j])@ == path_of(self.layer_definitions@, ls@[j]@).unwrap(),
                        decreases ls.len() - k,
                    {
                        assert(is_defined(self.layer_definitions@, ls@[k as int]@));
                        match find_path(&self.layer_definitions, ls[k].as_str()) {
                            Some(p) => permitted.push(clone_string(p)),
                            None => {},
                        }
                        k = k + 1;
                    }
                },
                LayerAssertion::MayOnlyBeAccessedByLayer(l) => {
                    assert(assertion_names_defined(self.layer_definitions@, self.layer_assertions@[i as int].assertion));
                    match find_path(&self.layer_definitions, l.as_str()) {
                        Some(p) => permitted.push(clone_string(p)),
                        None => {},
                    }
                },
            }
            assert(permitted@.map_values(|p: String| p@) =~= permitted_paths(self.layer_definitions@, rule.assertion));
            let ghost before = out@;
            check_layer(tree, rule.name.as_str(), protected.as_str(), &permitted, &mut out);
            proof {
                let hits = rule_hits(self, tree, i as int);
                let prev = all_hits(self, tree, i as int);
                let next = all_hits(self, tree, i + 1);
                let n0 = before.len();
                assert(next == prev + hits.map_values(|h: (int, int)| (i as int, h.0, h.1)));
                assert forall|t: int| 0 <= t < out@.len() implies reports_hit(#[trigger] out@[t], self, tree, next[t]) by {
                    if t < n0 {
                        assert(out@[t] == out@.subrange(0, n0 as int)[t]);
                        assert(next[t] == prev[t]);
                        assert(reports_hit(before[t], self, tree, prev[t]));
                    } else {
                        let u = t - n0;
                        assert(reports_access(out@[n0 + u], tree, hits[u].0, hits[u].1, rule.name@, protected@));
                        assert(next[t] == (i as int, hits[u].0, hits[u].1));
                    }
                }
            }
            i = i + 1;
        }
        if out.len() == 0 {
            Ok(())
        } else {
            Err(out)
        }
    }
}

/// Starts the description of a layered architecture.
pub fn layered_architecture() -> (r: LayeredArchitectureBuilder)
    ensures
        r.architecture.layer_definitions@.len() == 0,
        r.architecture.layer_assertions@.len() == 0,
        architecture_wf(r.architecture),
{
    LayeredArchitectureBuilder { architecture: LayeredArchitecture::new() }
}

/// Expects the first layer.
#[derive(Debug)]
pub struct LayeredArchitectureBuilder {
    pub architecture: LayeredArchitecture,
}

/// Expects the path that defines `layer`.
#[derive(Debug)]
pub struct LayeredArchitectureDefinitionBuilder {
    pub layer: String,
    pub architecture: LayeredArchitecture,
}

/// Expects another layer, or the first assertion.
#[derive(Debug)]
pub struct LayeredArchitectureDefinitionChainBuilder {
    pub architecture: LayeredArchitecture,
}

/// Expects the assertion on `layer`.
#[derive(Debug)]
pub struct LayerArchitectureAssertionBuilder {
    pub layer: String,
    pub architecture: LayeredArchitecture,
}

/// Expects another assertion, or the check.
#[derive(Debug)]
pub struct LayerArchitectureAssertionChainBuilder {
    pub architecture: LayeredArchitecture,
}

impl LayeredArchitectureBuilder {
    pub fn layer(self, layer: &str) -> (r: LayeredArchitectureDefinitionBuilder)
        ensures
            r.layer@ == layer@,
            r.architecture == self.architecture,
    {
        LayeredArchitectureDefinitionBuilder { layer: String::from_str(layer), architecture: self.architecture }
    }
}

impl LayeredArchitectureDefinitionBuilder {
    /// Defines the pending layer as the modules under `layer_path`.
    pub fn defined_by(self, layer_path: &str) -> (r: LayeredArchitectureDefinitionChainBuilder)
        requires
            architecture_wf(self.architecture),
        ensures
            architecture_wf(r.architecture),
            path_of(r.architecture.layer_definitions@, self.layer@) == Some(layer_path@),
            forall|n: Seq<char>| n != self.layer@ ==> path_of(r.architecture.layer_definitions@, n) == path_of(self.architecture.layer_definitions@, n),
            r.architecture.layer_assertions == self.architecture.layer_assertions,
    {
        let mut architecture = self.architecture;
        architecture.define(self.layer.as_str(), layer_path);
        LayeredArchitectureDefinitionChainBuilder { architecture }
    }
}

impl LayeredArchitectureDefinitionChainBuilder {
    pub fn layer(self, layer: &str) -> (r: LayeredArchitectureDefinitionBuilder)
        ensures
            r.layer@ == layer@,
            r.architecture == self.architecture,
    {
        LayeredArchitectureDefinitionBuilder { layer: String::from_str(layer), architecture: self.architecture }
    }

    /// Whether `layer` has been defined.
    pub fn is_defined(&self, layer: &str) -> (r: bool)
        ensures
            r == is_defined(self.architecture.layer_definitions@, layer@),
    {
        find_path(&self.architecture.layer_definitions, layer).is_some()
    }

    /// Starts the assertion on `layer`, which must be defined.
    pub fn where_layer(self, layer: &str) -> (r: LayerArchitectureAssertionBuilder)
        requires
            is_defined(self.architecture.layer_definitions@, layer@),
        ensures
            r.layer@ == layer@,
            r.architecture == self.architecture,
    {
        LayerArchitectureAssertionBuilder { layer: String::from_str(layer), architecture: self.architecture }
    }
}

impl LayerArchitectureAssertionBuilder {
    /// Only the (defined) layer `layer` may import from the pending layer.
    pub fn may_only_be_accessed_by_layer(self, layer: &str) -> (r: LayerArchitectureAssertionChainBuilder)
        requires
            architecture_wf(self.architecture),
            is_defined(self.architecture.layer_definitions@, self.layer@),
            is_defined(self.architecture.layer_definitions@, layer@),
        ensures
            architecture_wf(r.architecture),
            assertion_of(r.architecture.layer_assertions@, self.layer@) matches Some(LayerAssertion::MayOnlyBeAccessedByLayer(l)) && l@ == layer@,
            forall|n: Seq<char>| n != self.layer@ ==> assertion_of(r.architecture.layer_assertions@, n) == assertion_of(self.architecture.layer_assertions@, n),
            r.architecture.layer_definitions == self.architecture.layer_definitions,
    {
        let mut architecture = self.architecture;
        let a = LayerAssertion::MayOnlyBeAccessedByLayer(String::from_str(layer));
        architecture.assert_layer(self.layer.as_str(), a);
        LayerArchitectureAssertionChainBuilder { architecture }
    }

    /// Only the (defined) layers `layers` may import from the pending layer.
    pub fn may_only_be_accessed_by_layers(self, layers: &[&str]) -> (r: LayerArchitectureAssertionChainBuilder)
        requires
            architecture_wf(self.architecture),
            is_defined(self.architecture.layer_definitions@, self.layer@),
            forall|i: int| 0 <= i < layers@.len() ==> is_defined(self.architecture.layer_definitions@, #[trigger] layers@[i]@),
        ensures
            architecture_wf(r.architecture),
            assertion_of(r.architecture.layer_assertions@, self.layer@) matches Some(LayerAssertion::MayOnlyBeAccessedByLayers(ls))
                && ls@.map_values(|l: String| l@) == layers@.map_values(|l: &str| l@),
            forall|n: Seq<char>| n != self.layer@ ==> assertion_of(r.architecture.layer_assertions@, n) == assertion_of(self.architecture.layer_assertions@, n),
            r.architecture.layer_definitions == self.architecture.layer_definitions,
    {
        let mut names: Vec<String> = Vec::new();
        let mut i: usize = 0;
        while i < layers.len()
            invariant
                i <= layers@.len(),
                names@.len() == i,
                forall|j: int| 0 <= j < i ==> (#[trigger] names@[j])@ == layers@[j]@,
            decreases layers@.len() - i,
        {
            names.push(String::from_str(layers[i]));
            i = i + 1;
        }
        assert(names@.map_values(|l: String| l@) =~= layers@.map_values(|l: &str| l@));
        let mut architecture = self.architecture;
        let ghost ns = names;
        let a = LayerAssertion::MayOnlyBeAccessedByLayers(names);
        assert forall|k: int| 0 <= k < ns@.len() implies is_defined(architecture.layer_definitions@, #[trigger] ns@[k]@) by {
            assert(ns@[k]@ == layers@[k]@);
        }
        architecture.assert_layer(self.layer.as_str(), a);
        LayerArchitectureAssertionChainBuilder { architecture }
    }

    /// No other layer may import from the pending layer.
    pub fn may_not_be_accessed_by_any_layer(self) -> (r: LayerArchitectureAssertionChainBuilder)
        requires
            architecture_wf(self.architecture),
            is_defined(self.architecture.layer_definitions@, self.layer@),
        ensures
            architecture_wf(r.architecture),
            assertion_of(r.architecture.layer_assertions@, self.layer@) == Some(LayerAssertion::MayNotBeAccessedByAnyLayer),
            forall|n: Seq<char>| n != self.layer@ ==> assertion_of(r.architecture.layer_assertions@, n) == assertion_of(self.architecture.layer_assertions@, n),
            r.architecture.layer_definitions == self.architecture.layer_definitions,
    {
        let mut architecture = self.architecture;
        architecture.assert_layer(self.layer.as_str(), LayerAssertion::MayNotBeAccessedByAnyLayer);
        LayerArchitectureAssertionChainBuilder { architecture }
    }
}

impl LayerArchitectureAssertionChainBuilder {
    /// Whether `layer` has been defined.
    pub fn is_defined(&self, layer: &str) -> (r: bool)
        ensures
            r == is_defined(self.architecture.layer_definitions@, layer@),
    {
        find_path(&self.architecture.layer_definitions, layer).is_some()
    }

    /// Starts the assertion on `layer`, which must be defined.
    pub fn where_layer(self, layer: &str) -> (r: LayerArchitectureAssertionBuilder)
        requires
            is_defined(self.architecture.layer_definitions@, layer@),
        ensures
            r.layer@ == layer@,
            r.architecture == self.architecture,
    {
        LayerArchitectureAssertionBuilder { layer: String::from_str(layer), architecture: self.architecture }
    }

    /// Checks the architecture against `tree`.
    pub fn check(self, tree: &ModuleTree) -> (r: Result<(), Vec<ForbiddenLayerAccess>>)
        requires
            tree.wf(),
            architecture_wf(self.architecture),
        ensures
            r is Ok <==> all_hits(self.architecture, tree, self.architecture.layer_assertions@.len() as int).len() == 0,
            r matches Err(v) ==> v@.len() == all_hits(self.architecture, tree, self.architecture.layer_assertions@.len() as int).len(),
            r matches Err(v) ==> forall|t: int|
                0 <= t < v@.len() ==> reports_hit(#[trigger] v@[t], self.architecture, tree,
                    all_hits(self.architecture, tree, self.architecture.layer_assertions@.len() as int)[t]),
    {
        self.architecture.check(tree)
    }
}

} // verus!

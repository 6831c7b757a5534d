//! The declaration index: an arena of modules, structs, enums and impl blocks.
use vstd::prelude::*;
use crate::ast::{CodeSpan, Enum, Field, Impl, ItemPath, ModuleUse, Struct, Visibility};
use crate::matches::{mask_set, EnumMatches, ImplMatchesTODO, ModuleDependencies, ModuleMatches, StructMatches};
use crate::text::joined;
use crate::Filters;
use crate::excluded;

verus! {

/// One namespace of the index. `parent` is the index of the enclosing module (0 for the root).
#[derive(Debug)]
pub struct Module {
    pub span: Option<CodeSpan>,
    pub cfg_attr: Vec<String>,
    pub dependencies: Vec<ModuleUse>,
    pub real_path: String,
    pub path: ItemPath,
    pub ident: String,
    pub visibility: Visibility,
    pub parent: usize,
}

impl Module {
    pub fn is_public(&self) -> (r: bool)
        ensures
            r == (self.visibility == Visibility::Public),
    {
        self.visibility == Visibility::Public
    }

    pub fn path_match(&self, pattern: &str) -> (r: bool)
        ensures
            r == crate::pattern::matches_module(pattern@, self.path@),
    {
        self.path.match_module_path(pattern)
    }
}

/// The declaration index of one crate. Module 0 is the crate root; every other module comes
/// after its parent, so that the parent relation is a tree.
#[derive(Debug)]
pub struct ModuleTree {
    pub modules: Vec<Module>,
    pub structs: Vec<Struct>,
    pub enums: Vec<Enum>,
    pub impls: Vec<Impl>,
}

impl ModuleTree {
    /// Paths mirror parent-join-child, parents come first, and each declaration belongs to
    /// a module of the index.
    pub open spec fn wf(&self) -> bool {
        &&& self.modules@.len() > 0
        &&& self.modules@[0].parent == 0
        &&& self.modules@[0].path@ == self.modules@[0].ident@
        &&& forall|i: int|
            #![trigger self.modules@[i]]
            0 < i < self.modules@.len() ==> self.modules@[i].parent < i && self.modules@[i].path@
                == joined(
                self.modules@[self.modules@[i].parent as int].path@,
                self.modules@[i].ident@,
            )
        &&& forall|k: int|
            #![trigger self.structs@[k]]
            0 <= k < self.structs@.len() ==> self.structs@[k].module < self.modules@.len()
                && self.structs@[k].path@ == joined(
                self.modules@[self.structs@[k].module as int].path@,
                self.structs@[k].ident@,
            )
        &&& forall|k: int|
            #![trigger self.enums@[k]]
            0 <= k < self.enums@.len() ==> self.enums@[k].module < self.modules@.len()
                && self.enums@[k].path@ == joined(
                self.modules@[self.enums@[k].module as int].path@,
                self.enums@[k].ident@,
            )
        &&& forall|k: int|
            #![trigger self.impls@[k]]
            0 <= k < self.impls@.len() ==> self.impls@[k].module < self.modules@.len()
                && self.impls@[k].path@ == self.modules@[self.impls@[k].module as int].path@
    }

    /// Module `i` is kept by `filters`: neither it nor any enclosing module carries an
    /// excluded tag.
    pub open spec fn included(&self, filters: Filters, i: int) -> bool
        decreases i,
    {
        if i < 0 || i >= self.modules@.len() {
            false
        } else if excluded(filters, self.modules@[i].cfg_attr@) {
            false
        } else if i == 0 {
            true
        } else if self.modules@[i].parent >= i {
            false
        } else {
            self.included(filters, self.modules@[i].parent as int)
        }
    }

    /// Module `k` is module `j` or lies inside it.
    pub open spec fn is_descendant(&self, k: int, j: int) -> bool
        decreases k,
    {
        if k == j {
            true
        } else if k <= 0 || k >= self.modules@.len() || self.modules@[k].parent >= k {
            false
        } else {
            self.is_descendant(self.modules@[k].parent as int, j)
        }
    }

    /// The modules that `filters` keep.
    pub open spec fn kept_modules(&self, filters: Filters) -> Set<int> {
        Set::new(|i: int| self.included(filters, i))
    }

    /// The structs declared in kept modules.
    pub open spec fn kept_structs(&self, filters: Filters) -> Set<int> {
        Set::new(
            |k: int|
                0 <= k < self.structs@.len() && self.included(
                    filters,
                    self.structs@[k].module as int,
                ),
        )
    }

    /// The enums declared in kept modules.
    pub open spec fn kept_enums(&self, filters: Filters) -> Set<int> {
        Set::new(
            |k: int|
                0 <= k < self.enums@.len() && self.included(filters, self.enums@[k].module as int),
        )
    }

    /// The impl blocks declared in kept modules.
    pub open spec fn kept_impls(&self, filters: Filters) -> Set<int> {
        Set::new(
            |k: int|
                0 <= k < self.impls@.len() && self.included(filters, self.impls@[k].module as int),
        )
    }

    /// Starts the index of a crate with its root module, which is public, has the crate's
    /// name as its path and holds the root file's imports.
    pub fn load(crate_name: &str, real_path: &str, dependencies: Vec<ModuleUse>) -> (r: ModuleTree)
        ensures
            r.wf(),
            r.modules@.len() == 1,
            r.modules@[0].ident@ == crate_name@,
            r.modules@[0].path@ == crate_name@,
            r.modules@[0].real_path@ == real_path@,
            r.modules@[0].visibility == Visibility::Public,
            r.modules@[0].span.is_none(),
            r.modules@[0].cfg_attr@.len() == 0,
            r.modules@[0].dependencies == dependencies,
            r.structs@.len() == 0,
            r.enums@.len() == 0,
            r.impls@.len() == 0,
    {
        let path = ItemPath::empty().join(crate_name);
        let root = Module {
            span: None,
            cfg_attr: Vec::new(),
            dependencies,
            real_path: String::from_str(real_path),
            path,
            ident: String::from_str(crate_name),
            visibility: Visibility::Public,
            parent: 0,
        };
        let mut modules: Vec<Module> = Vec::new();
        modules.push(root);
        ModuleTree { modules, structs: Vec::new(), enums: Vec::new(), impls: Vec::new() }
    }

    /// Adds a module inside module `parent` and returns its index.
    pub fn add_module(
        &mut self,
        parent: usize,
        ident: &str,
        visibility: Visibility,
        real_path: &str,
        span: Option<CodeSpan>,
        cfg_attr: Vec<String>,
        dependencies: Vec<ModuleUse>,
    ) -> (r: usize)
        requires
            old(self).wf(),
            parent < old(self).modules@.len(),
        ensures
            final(self).wf(),
            r == old(self).modules@.len(),
            final(self).modules@.len() == r + 1,
            final(self).modules@.subrange(0, r as int) == old(self).modules@,
            final(self).modules@[r as int].parent == parent,
            final(self).modules@[r as int].ident@ == ident@,
            final(self).modules@[r as int].path@ == joined(old(self).modules@[parent as int].path@, ident@),
            final(self).modules@[r as int].visibility == visibility,
            final(self).modules@[r as int].real_path@ == real_path@,
            final(self).modules@[r as int].span == span,
            final(self).modules@[r as int].cfg_attr == cfg_attr,
            final(self).modules@[r as int].dependencies == dependencies,
            final(self).structs == old(self).structs,
            final(self).enums == old(self).enums,
            final(self).impls == old(self).impls,
    {
        let path = self.modules[parent].path.join(ident);
        let m = Module {
            span,
            cfg_attr,
            dependencies,
            real_path: String::from_str(real_path),
            path,
            ident: String::from_str(ident),
            visibility,
            parent,
        };
        let r = self.modules.len();
        self.modules.push(m);
        assert(self.modules@.subrange(0, r as int) =~= old(self).modules@);
        r
    }

    /// Adds a struct declared in module `module` and returns its index.
    pub fn add_struct(
        &mut self,
        module: usize,
        ident: &str,
        derives: Vec<String>,
        visibility: Visibility,
        fields: Vec<Field>,
        span: CodeSpan,
        real_path: &str,
    ) -> (r: usize)
        requires
            old(self).wf(),
            module < old(self).modules@.len(),
        ensures
            final(self).wf(),
            r == old(self).structs@.len(),
            final(self).structs@.len() == r + 1,
            final(self).structs@.subrange(0, r as int) == old(self).structs@,
            final(self).structs@[r as int].module == module,
            final(self).structs@[r as int].ident@ == ident@,
            final(self).structs@[r as int].derives == derives,
            final(self).structs@[r as int].visibility == visibility,
            final(self).structs@[r as int].fields == fields,
            final(self).structs@[r as int].span == span,
            final(self).structs@[r as int].real_path@ == real_path@,
            final(self).modules == old(self).modules,
            final(self).enums == old(self).enums,
            final(self).impls == old(self).impls,
    {
        let path = self.modules[module].path.join(ident);
        let s = Struct {
            span,
            real_path: String::from_str(real_path),
            ident: String::from_str(ident),
            derives,
            visibility,
            fields,
            path,
            module,
        };
        let r = self.structs.len();
        self.structs.push(s);
        assert(self.structs@.subrange(0, r as int) =~= old(self).structs@);
        r
    }

    /// Adds an enum declared in module `module` and returns its index.
    pub fn add_enum(
        &mut self,
        module: usize,
        ident: &str,
        derives: Vec<String>,
        visibility: Visibility,
        span: CodeSpan,
        location: &str,
    ) -> (r: usize)
        requires
            old(self).wf(),
            module < old(self).modules@.len(),
        ensures
            final(self).wf(),
            r == old(self).enums@.len(),
            final(self).enums@.len() == r + 1,
            final(self).enums@.subrange(0, r as int) == old(self).enums@,
            final(self).enums@[r as int].module == module,
            final(self).enums@[r as int].ident@ == ident@,
            final(self).enums@[r as int].derives == derives,
            final(self).enums@[r as int].visibility == visibility,
            final(self).enums@[r as int].span == span,
            final(self).enums@[r as int].location@ == location@,
            final(self).modules == old(self).modules,
            final(self).structs == old(self).structs,
            final(self).impls == old(self).impls,
    {
        let path = self.modules[module].path.join(ident);
        let e = Enum {
            span,
            location: String::from_str(location),
            ident: String::from_str(ident),
            derives,
            visibility,
            path,
            module,
        };
        let r = self.enums.len();
        self.enums.push(e);
        assert(self.enums@.subrange(0, r as int) =~= old(self).enums@);
        r
    }

    /// Adds an impl block declared in module `module` and returns its index.
    pub fn add_impl(
        &mut self,
        module: usize,
        is_unsafe: bool,
        self_ty: ItemPath,
        trait_impl: Option<ItemPath>,
    ) -> (r: usize)
        requires
            old(self).wf(),
            module < old(self).modules@.len(),
        ensures
            final(self).wf(),
            r == old(self).impls@.len(),
            final(self).impls@.len() == r + 1,
            final(self).impls@.subrange(0, r as int) == old(self).impls@,
            final(self).impls@[r as int].module == module,
            final(self).impls@[r as int].is_unsafe == is_unsafe,
            final(self).impls@[r as int].self_ty == self_ty,
            final(self).impls@[r as int].trait_impl == trait_impl,
            final(self).modules == old(self).modules,
            final(self).structs == old(self).structs,
            final(self).enums == old(self).enums,
    {
        let path = self.modules[module].path.duplicate();
        let imp = Impl { path, is_unsafe, self_ty, trait_impl, module };
        let r = self.impls.len();
        self.impls.push(imp);
        assert(self.impls@.subrange(0, r as int) =~= old(self).impls@);
        r
    }

    /// Whether module `k` is module `j` or lies inside it.
    pub fn is_inside(&self, k: usize, j: usize) -> (r: bool)
        requires
            self.wf(),
            k < self.modules.len(),
        ensures
            r == self.is_descendant(k as int, j as int),
    {
        let mut cur: usize = k;
        while cur != j && cur > 0
            invariant
                self.wf(),
                cur < self.modules.len(),
                self.is_descendant(cur as int, j as int) == self.is_descendant(k as int, j as int),
            decreases cur,
        {
            cur = self.modules[cur].parent;
        }
        cur == j
    }

    /// Which modules `filters` keep, as a mask over the modules.
    fn kept_mask(&self, filters: &Filters) -> (r: Vec<bool>)
        requires
            self.wf(),
        ensures
            r.len() == self.modules.len(),
            forall|i: int| 0 <= i < r.len() ==> r@[i] == self.included(*filters, i),
    {
        let mut r: Vec<bool> = Vec::new();
        let mut i: usize = 0;
        while i < self.modules.len()
            invariant
                self.wf(),
                i <= self.modules.len(),
                r.len() == i,
                forall|j: int| 0 <= j < i ==> r@[j] == self.included(*filters, j),
            decreases self.modules.len() - i,
        {
            let keep = if !filters.filter(&self.modules[i]) {
                false
            } else if i == 0 {
                true
            } else {
                r[self.modules[i].parent]
            };
            r.push(keep);
            i = i + 1;
        }
        r
    }

    /// Every module that `filters` keep: a module tagged with an excluded tag is left out
    /// together with everything inside it.
    pub fn flatten(&self, filters: &Filters) -> (r: ModuleMatches)
        requires
            self.wf(),
        ensures
            r.members.len() == self.modules.len(),
            r@ == self.kept_modules(*filters),
    {
        let r = ModuleMatches { members: self.kept_mask(filters) };
        assert(r@ =~= self.kept_modules(*filters));
        r
    }

    /// The kept modules on which `predicate` holds.
    pub fn module_that<P: Fn(&Module) -> bool>(&self, predicate: P, filters: &Filters) -> (r:
        ModuleMatches)
        requires
            self.wf(),
            forall|i: int| 0 <= i < self.modules.len() ==> predicate.requires((&self.modules@[i],)),
        ensures
            r.members.len() == self.modules.len(),
            forall|i: int|
                0 <= i < r.members.len() ==> (r.members@[i] ==> self.included(*filters, i)
                    && predicate.ensures((&self.modules@[i],), true)) && (!r.members@[i]
                    && self.included(*filters, i) ==> predicate.ensures(
                    (&self.modules@[i],),
                    false,
                )),
    {
        let kept = self.kept_mask(filters);
        let mut r: Vec<bool> = Vec::new();
        let mut i: usize = 0;
        while i < kept.len()
            invariant
                kept.len() == self.modules.len(),
                forall|j: int| 0 <= j < kept.len() ==> kept@[j] == self.included(*filters, j),
                forall|j: int| 0 <= j < self.modules.len() ==> predicate.requires((&self.modules@[j],)),
                i <= kept.len(),
                r.len() == i,
                forall|j: int|
                    0 <= j < i ==> (r@[j] ==> self.included(*filters, j) && predicate.ensures(
                        (&self.modules@[j],),
                        true,
                    )) && (!r@[j] && self.included(*filters, j) ==> predicate.ensures(
                        (&self.modules@[j],),
                        false,
                    )),
            decreases kept.len() - i,
        {
            let keep = if kept[i] {
                predicate(&self.modules[i])
            } else {
                false
            };
            r.push(keep);
            i = i + 1;
        }
        ModuleMatches { members: r }
    }

    /// Every module that `filters` keep, as the modules whose imports are to be scanned.
    pub fn flatten_deps(&self, filters: &Filters) -> (r: ModuleDependencies)
        requires
            self.wf(),
        ensures
            r.members.len() == self.modules.len(),
            r@ == self.kept_modules(*filters),
    {
        let r = ModuleDependencies { members: self.kept_mask(filters) };
        assert(r@ =~= self.kept_modules(*filters));
        r
    }

    /// Every struct declared in a kept module.
    pub fn flatten_structs(&self, filters: &Filters) -> (r: StructMatches)
        requires
            self.wf(),
        ensures
            r.members.len() == self.structs.len(),
            r@ == self.kept_structs(*filters),
    {
        let kept = self.kept_mask(filters);
        let mut m: Vec<bool> = Vec::new();
        let mut k: usize = 0;
        while k < self.structs.len()
            invariant
                self.wf(),
                kept.len() == self.modules.len(),
                forall|j: int| 0 <= j < kept.len() ==> kept@[j] == self.included(*filters, j),
                k <= self.structs.len(),
                m.len() == k,
                forall|j: int|
                    0 <= j < k ==> m@[j] == self.included(*filters, self.structs@[j].module as int),
            decreases self.structs.len() - k,
        {
            m.push(kept[self.structs[k].module]);
            k = k + 1;
        }
        let r = StructMatches { members: m };
        assert(r@ =~= self.kept_structs(*filters));
        r
    }

    /// Every enum declared in a kept module.
    pub fn flatten_enums(&self, filters: &Filters) -> (r: EnumMatches)
        requires
            self.wf(),
        ensures
            r.members.len() == self.enums.len(),
            r@ == self.kept_enums(*filters),
    {
        let kept = self.kept_mask(filters);
        let mut m: Vec<bool> = Vec::new();
        let mut k: usize = 0;
        while k < self.enums.len()
            invariant
                self.wf(),
                kept.len() == self.modules.len(),
                forall|j: int| 0 <= j < kept.len() ==> kept@[j] == self.included(*filters, j),
                k <= self.enums.len(),
                m.len() == k,
                forall|j: int|
                    0 <= j < k ==> m@[j] == self.included(*filters, self.enums@[j].module as int),
            decreases self.enums.len() - k,
        {
            m.push(kept[self.enums[k].module]);
            k = k + 1;
        }
        let r = EnumMatches { members: m };
        assert(r@ =~= self.kept_enums(*filters));
        r
    }

    /// Every impl block declared in a kept module.
    pub fn flatten_impls(&self, filters: &Filters) -> (r: ImplMatchesTODO)
        requires
            self.wf(),
        ensures
            r.members.len() == self.impls.len(),
            r@ == self.kept_impls(*filters),
    {
        let kept = self.kept_mask(filters);
        let mut m: Vec<bool> = Vec::new();
        let mut k: usize = 0;
        while k < self.impls.len()
            invariant
                self.wf(),
                kept.len() == self.modules.len(),
                forall|j: int| 0 <= j < kept.len() ==> kept@[j] == self.included(*filters, j),
                k <= self.impls.len(),
                m.len() == k,
                forall|j: int|
                    0 <= j < k ==> m@[j] == self.included(*filters, self.impls@[j].module as int),
            decreases self.impls.len() - k,
        {
            m.push(kept[self.impls[k].module]);
            k = k + 1;
        }
        let r = ImplMatchesTODO { members: m };
        assert(r@ =~= self.kept_impls(*filters));
        r
    }
}

/// A module that carries an excluded tag is left out by every flattening together with all
/// that lies inside it: its modules, their structs, enums and impl blocks, and their imports.
pub proof fn lemma_excluded_subtree(tree: &ModuleTree, filters: Filters, j: int, k: int)
    requires
        tree.wf(),
        0 <= j < tree.modules@.len(),
        excluded(filters, tree.modules@[j].cfg_attr@),
        tree.is_descendant(k, j),
    ensures
        !tree.kept_modules(filters).contains(k),
        forall|s: int|
            0 <= s < tree.structs@.len() && tree.structs@[s].module == k ==> !tree.kept_structs(
                filters,
            ).contains(s),
        forall|e: int|
            0 <= e < tree.enums@.len() && tree.enums@[e].module == k ==> !tree.kept_enums(
                filters,
            ).contains(e),
        forall|b: int|
            0 <= b < tree.impls@.len() && tree.impls@[b].module == k ==> !tree.kept_impls(
                filters,
            ).contains(b),
    decreases k,
{
    if k != j {
        lemma_excluded_subtree(tree, filters, j, tree.modules@[k].parent as int);
    }
}

} // verus!

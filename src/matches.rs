//! Sets of declarations of one index, each held as a membership mask over the index's arena.
use vstd::prelude::*;
use crate::ast::{simple_name_of_self_ty, Enum, Impl, Struct};
use crate::tree::{Module, ModuleTree};

verus! {

/// The positions that a mask selects.
pub open spec fn mask_set(m: Seq<bool>) -> Set<int> {
    Set::new(|i: int| 0 <= i < m.len() && m[i])
}

/// Element-wise disjunction of two masks of one length.
pub fn union_masks(a: &Vec<bool>, b: &Vec<bool>) -> (r: Vec<bool>)
    requires
        a.len() == b.len(),
    ensures
        r.len() == a.len(),
        forall|i: int| 0 <= i < r.len() ==> r@[i] == (a@[i] || b@[i]),
        mask_set(r@) == mask_set(a@).union(mask_set(b@)),
{
    let mut r: Vec<bool> = Vec::new();
    let mut i: usize = 0;
    while i < a.len()
        invariant
            a.len() == b.len(),
            i <= a.len(),
            r.len() == i,
            forall|j: int| 0 <= j < i ==> r@[j] == (a@[j] || b@[j]),
        decreases a.len() - i,
    {
        r.push(a[i] || b[i]);
        i = i + 1;
    }
    assert(mask_set(r@) =~= mask_set(a@).union(mask_set(b@)));
    r
}

/// A set of structs of one index.
#[derive(Debug)]
pub struct StructMatches {
    pub members: Vec<bool>,
}

impl View for StructMatches {
    type V = Set<int>;

    open spec fn view(&self) -> Set<int> {
        mask_set(self.members@)
    }
}

impl StructMatches {
    /// The members of this set on which `predicate` holds.
    pub fn structs_that<P: Fn(&Struct) -> bool>(&self, tree: &ModuleTree, predicate: P) -> (r:
        StructMatches)
        requires
            self.members.len() == tree.structs.len(),
            forall|k: int| 0 <= k < tree.structs.len() ==> predicate.requires((&tree.structs@[k],)),
        ensures
            r.members.len() == self.members.len(),
            forall|k: int|
                0 <= k < r.members.len() ==> (r.members@[k] ==> self.members@[k]
                    && predicate.ensures((&tree.structs@[k],), true)) && (!r.members@[k]
                    && self.members@[k] ==> predicate.ensures((&tree.structs@[k],), false)),
    {
        let mut r: Vec<bool> = Vec::new();
        let mut i: usize = 0;
        while i < self.members.len()
            invariant
                self.members.len() == tree.structs.len(),
                forall|k: int| 0 <= k < tree.structs.len() ==> predicate.requires((&tree.structs@[k],)),
                i <= self.members.len(),
                r.len() == i,
                forall|k: int|
                    0 <= k < i ==> (r@[k] ==> self.members@[k] && predicate.ensures(
                        (&tree.structs@[k],),
                        true,
                    )) && (!r@[k] && self.members@[k] ==> predicate.ensures(
                        (&tree.structs@[k],),
                        false,
                    )),
            decreases self.members.len() - i,
        {
            let keep = if self.members[i] {
                predicate(&tree.structs[i])
            } else {
                false
            };
            r.push(keep);
            i = i + 1;
        }
        StructMatches { members: r }
    }

    /// Adds the members of `other` (a set of the same index).
    pub fn extends(&mut self, other: StructMatches)
        requires
            old(self).members.len() == other.members.len(),
        ensures
            final(self).members.len() == other.members.len(),
            final(self)@ == old(self)@.union(other@),
    {
        self.members = union_masks(&self.members, &other.members);
    }
}

/// A set of enums of one index.
#[derive(Debug)]
pub struct EnumMatches {
    pub members: Vec<bool>,
}

impl View for EnumMatches {
    type V = Set<int>;

    open spec fn view(&self) -> Set<int> {
        mask_set(self.members@)
    }
}

impl EnumMatches {
    /// The members of this set on which `predicate` holds.
    pub fn enums_that<P: Fn(&Enum) -> bool>(&self, tree: &ModuleTree, predicate: P) -> (r:
        EnumMatches)
        requires
            self.members.len() == tree.enums.len(),
            forall|k: int| 0 <= k < tree.enums.len() ==> predicate.requires((&tree.enums@[k],)),
        ensures
            r.members.len() == self.members.len(),
            forall|k: int|
                0 <= k < r.members.len() ==> (r.members@[k] ==> self.members@[k]
                    && predicate.ensures((&tree.enums@[k],), true)) && (!r.members@[k]
                    && self.members@[k] ==> predicate.ensures((&tree.enums@[k],), false)),
    {
        let mut r: Vec<bool> = Vec::new();
        let mut i: usize = 0;
        while i < self.members.len()
            invariant
                self.members.len() == tree.enums.len(),
                forall|k: int| 0 <= k < tree.enums.len() ==> predicate.requires((&tree.enums@[k],)),
                i <= self.members.len(),
                r.len() == i,
                forall|k: int|
                    0 <= k < i ==> (r@[k] ==> self.members@[k] && predicate.ensures(
                        (&tree.enums@[k],),
                        true,
                    )) && (!r@[k] && self.members@[k] ==> predicate.ensures(
                        (&tree.enums@[k],),
                        false,
                    )),
            decreases self.members.len() - i,
        {
            let keep = if self.members[i] {
                predicate(&tree.enums[i])
            } else {
                false
            };
            r.push(keep);
            i = i + 1;
        }
        EnumMatches { members: r }
    }

    /// Adds the members of `other` (a set of the same index).
    pub fn extends(&mut self, other: EnumMatches)
        requires
            old(self).members.len() == other.members.len(),
        ensures
            final(self).members.len() == other.members.len(),
            final(self)@ == old(self)@.union(other@),
    {
        self.members = union_masks(&self.members, &other.members);
    }
}

/// A set of modules of one index.
#[derive(Debug)]
pub struct ModuleMatches {
    pub members: Vec<bool>,
}

impl View for ModuleMatches {
    type V = Set<int>;

    open spec fn view(&self) -> Set<int> {
        mask_set(self.members@)
    }
}

impl ModuleMatches {
    /// Adds the members of `other` (a set of the same index).
    pub fn extend(&mut self, other: ModuleMatches)
        requires
            old(self).members.len() == other.members.len(),
        ensures
            final(self).members.len() == other.members.len(),
            final(self)@ == old(self)@.union(other@),
    {
        self.members = union_masks(&self.members, &other.members);
    }
}

/// The modules whose imports are to be scanned, as a set of one index.
#[derive(Debug)]
pub struct ModuleDependencies {
    pub members: Vec<bool>,
}

impl View for ModuleDependencies {
    type V = Set<int>;

    open spec fn view(&self) -> Set<int> {
        mask_set(self.members@)
    }
}

/// The simple names of the self types of the selected blocks among the first `k`, in order.
pub open spec fn self_ty_names(impls: Seq<Impl>, members: Seq<bool>, k: int) -> Seq<Seq<char>>
    decreases k,
{
    if k <= 0 {
        Seq::empty()
    } else if members[k - 1] {
        self_ty_names(impls, members, k - 1).push(simple_name_of_self_ty(impls[k - 1]))
    } else {
        self_ty_names(impls, members, k - 1)
    }
}

/// A set of impl blocks of one index.
#[derive(Debug)]
pub struct ImplMatchesTODO {
    pub members: Vec<bool>,
}

impl View for ImplMatchesTODO {
    type V = Set<int>;

    open spec fn view(&self) -> Set<int> {
        mask_set(self.members@)
    }
}

impl ImplMatchesTODO {
    /// The members of this set on which `predicate` holds.
    pub fn impl_that<P: Fn(&Impl) -> bool>(&self, tree: &ModuleTree, predicate: P) -> (r:
        ImplMatchesTODO)
        requires
            self.members.len() == tree.impls.len(),
            forall|k: int| 0 <= k < tree.impls.len() ==> predicate.requires((&tree.impls@[k],)),
        ensures
            r.members.len() == self.members.len(),
            forall|k: int|
                0 <= k < r.members.len() ==> (r.members@[k] ==> self.members@[k]
                    && predicate.ensures((&tree.impls@[k],), true)) && (!r.members@[k]
                    && self.members@[k] ==> predicate.ensures((&tree.impls@[k],), false)),
    {
        let mut r: Vec<bool> = Vec::new();
        let mut i: usize = 0;
        while i < self.members.len()
            invariant
                self.members.len() == tree.impls.len(),
                forall|k: int| 0 <= k < tree.impls.len() ==> predicate.requires((&tree.impls@[k],)),
                i <= self.members.len(),
                r.len() == i,
                forall|k: int|
                    0 <= k < i ==> (r@[k] ==> self.members@[k] && predicate.ensures(
                        (&tree.impls@[k],),
                        true,
                    )) && (!r@[k] && self.members@[k] ==> predicate.ensures(
                        (&tree.impls@[k],),
                        false,
                    )),
            decreases self.members.len() - i,
        {
            let keep = if self.members[i] {
                predicate(&tree.impls[i])
            } else {
                false
            };
            r.push(keep);
            i = i + 1;
        }
        ImplMatchesTODO { members: r }
    }

    /// The simple names of the types that the member blocks are for, in arena order.
    pub fn types<'a>(&self, tree: &'a ModuleTree) -> (r: Vec<&'a str>)
        requires
            self.members.len() == tree.impls.len(),
        ensures
            r@.map_values(|s: &str| s@) == self_ty_names(tree.impls@, self.members@, self.members@.len() as int),
    {
        let mut r: Vec<&'a str> = Vec::new();
        let mut i: usize = 0;
        while i < self.members.len()
            invariant
                self.members.len() == tree.impls.len(),
                i <= self.members.len(),
                r@.map_values(|s: &str| s@) == self_ty_names(tree.impls@, self.members@, i as int),
            decreases self.members.len() - i,
        {
            if self.members[i] {
                let name = tree.impls[i].self_ty.name();
                r.push(name);
            }
            i = i + 1;
            assert(r@.map_values(|s: &str| s@) =~= self_ty_names(tree.impls@, self.members@, i as int));
        }
        r
    }

    pub fn is_empty(&self) -> (r: bool)
        ensures
            r == (self@ == Set::<int>::empty()),
    {
        let mut i: usize = 0;
        while i < self.members.len()
            invariant
                i <= self.members.len(),
                forall|j: int| 0 <= j < i ==> !self.members@[j],
            decreases self.members.len() - i,
        {
            if self.members[i] {
                assert(self@.contains(i as int));
                return false;
            }
            i = i + 1;
        }
        assert(self@ =~= Set::<int>::empty());
        true
    }
}

} // verus!

//! Rules over the declaration index: conditions narrow a universe of declarations, then
//! assertions are checked against every member of what remains.
use vstd::prelude::*;
use crate::ast::impl_provides;
use crate::matches::ImplMatchesTODO;
use crate::tree::ModuleTree;
use crate::Filters;

pub mod enums;
pub mod modules;
pub mod structs;

verus! {

/// Some impl block of a kept module implements, for a type named `ident`, a trait whose path
/// holds `t`. This is a name heuristic, not type resolution.
pub open spec fn implements(tree: &ModuleTree, filters: Filters, ident: Seq<char>, t: Seq<char>) -> bool {
    exists|b: int| #[trigger] tree.kept_impls(filters).contains(b) && impl_provides(tree.impls@[b], ident, t)
}

/// Whether a block of `impls` (the kept impl blocks of `tree`) implements `t` for `ident`.
pub fn implements_exec(tree: &ModuleTree, impls: &ImplMatchesTODO, ident: &str, t: &str) -> (r: bool)
    requires
        impls.members.len() == tree.impls.len(),
    ensures
        r == exists|b: int| #[trigger] impls@.contains(b) && impl_provides(tree.impls@[b], ident@, t@),
{
    let mut b: usize = 0;
    while b < impls.members.len()
        invariant
            impls.members.len() == tree.impls.len(),
            forall|j: int| 0 <= j < b ==> !(#[trigger] impls@.contains(j) && impl_provides(tree.impls@[j], ident@, t@)),
        decreases impls.members.len() - b,
    {
        if impls.members[b] && tree.impls[b].provides(ident, t) {
            assert(impls@.contains(b as int));
            return true;
        }
        b = b + 1;
    }
    false
}

} // verus!

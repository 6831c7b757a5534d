//! An architecture-rule engine over a crate's declaration index.
use vstd::prelude::*;

pub mod assertion_result;
pub mod ast;
pub mod layer_rule;
pub mod matches;
pub mod pattern;
pub mod rule;
pub mod text;
pub mod tree;

verus! {

/// Which tagged modules (by build-conditional tag, such as `test`) to leave out of a rule.
#[derive(Debug)]
pub struct Filters {
    pub exclude_cfg: Vec<String>,
}

/// One of the tags `cfg_attr` is excluded by `filters`.
pub open spec fn excluded(filters: Filters, cfg_attr: Seq<String>) -> bool {
    exists|i: int, j: int|
        0 <= i < cfg_attr.len() && 0 <= j < filters.exclude_cfg@.len() && cfg_attr[i]@
            == filters.exclude_cfg@[j]@
}

impl Filters {
    /// Filters that exclude nothing.
    pub fn default() -> (r: Filters)
        ensures
            r.exclude_cfg@.len() == 0,
    {
        Filters { exclude_cfg: Vec::new() }
    }

    /// Also excludes the modules tagged `test`.
    pub fn exclude_test(self) -> (r: Filters)
        ensures
            r.exclude_cfg@.len() == self.exclude_cfg@.len() + 1,
            r.exclude_cfg@.subrange(0, self.exclude_cfg@.len() as int) == self.exclude_cfg@,
            r.exclude_cfg@.last()@ == seq!['t', 'e', 's', 't'],
    {
        proof {
            reveal_strlit("test");
        }
        let t = String::from_str("test");
        assert(t@ =~= seq!['t', 'e', 's', 't']);
        self.exclude_cfg(&t)
    }

    /// Also excludes the modules tagged `cfg_attr`.
    pub fn exclude_cfg(self, cfg_attr: &str) -> (r: Filters)
        ensures
            r.exclude_cfg@.len() == self.exclude_cfg@.len() + 1,
            r.exclude_cfg@.subrange(0, self.exclude_cfg@.len() as int) == self.exclude_cfg@,
            r.exclude_cfg@.last()@ == cfg_attr@,
    {
        let mut v = self.exclude_cfg;
        v.push(String::from_str(cfg_attr));
        assert(v@.subrange(0, self.exclude_cfg@.len() as int) =~= self.exclude_cfg@);
        Filters { exclude_cfg: v }
    }

    /// Whether `module` is kept, that is carries none of the excluded tags.
    pub fn filter(&self, module: &tree::Module) -> (r: bool)
        ensures
            r == !excluded(*self, module.cfg_attr@),
    {
        let mut i: usize = 0;
        while i < module.cfg_attr.len()
            invariant
                forall|a: int, b: int|
                    0 <= a < i && 0 <= b < self.exclude_cfg@.len() ==> module.cfg_attr@[a]@
                        != self.exclude_cfg@[b]@,
            decreases module.cfg_attr.len() - i,
        {
            let mut j: usize = 0;
            while j < self.exclude_cfg.len()
                invariant
                    i < module.cfg_attr.len(),
                    forall|a: int, b: int|
                        0 <= a < i && 0 <= b < self.exclude_cfg@.len() ==> module.cfg_attr@[a]@
                            != self.exclude_cfg@[b]@,
                    forall|b: int| 0 <= b < j ==> module.cfg_attr@[i as int]@ != self.exclude_cfg@[b]@,
                decreases self.exclude_cfg.len() - j,
            {
                if text::str_eq(module.cfg_attr[i].as_str(), self.exclude_cfg[j].as_str()) {
                    return false;
                }
                j = j + 1;
            }
            i = i + 1;
        }
        true
    }
}

} // verus!

pub use rule::modules::Modules;
pub use rule::structs::Structs;
pub use tree::ModuleTree;

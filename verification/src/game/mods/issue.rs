//! The issues found with one active mod.
use crate::collections::{clone_strings, Duplicate};
use vstd::prelude::*;

verus! {

/// What is wrong with an active mod.
#[derive(Debug)]
pub struct ModIssue {
    pub mod_id: String,
    pub missing_dependencies: Vec<String>,
    /// Dependencies that load after this mod.
    pub dependencies_after: Vec<String>,
    /// Load relations of this mod that the active list breaks.
    pub load_order_violations: Vec<String>,
}

/// An issue as text: the mod's id, its missing dependencies, its dependencies
/// that load after it, and its load order violations.
pub type IssueView = (Seq<char>, Seq<Seq<char>>, Seq<Seq<char>>, Seq<Seq<char>>);

impl ModIssue {
    /// The issue as text.
    pub open spec fn view_of(&self) -> IssueView {
        (
            self.mod_id@,
            self.missing_dependencies.deep_view(),
            self.dependencies_after.deep_view(),
            self.load_order_violations.deep_view(),
        )
    }
}

/// An issue holds the text it is paired with.
pub open spec fn issue_rel() -> spec_fn(ModIssue, IssueView) -> bool {
    |v: ModIssue, w: IssueView| v.view_of() == w
}

impl Duplicate for ModIssue {
    open spec fn same(&self, other: &Self) -> bool {
        self.view_of() == other.view_of()
    }

    fn duplicate(&self) -> (r: Self) {
        ModIssue {
            mod_id: self.mod_id.clone(),
            missing_dependencies: clone_strings(&self.missing_dependencies),
            dependencies_after: clone_strings(&self.dependencies_after),
            load_order_violations: clone_strings(&self.load_order_violations),
        }
    }
}

} // verus!

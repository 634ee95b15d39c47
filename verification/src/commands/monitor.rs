//! The goals of every workspace on one dashboard.
use vstd::prelude::*;
use crate::monitor::model::{GoalRecord, GoalView};
use crate::order::{Ranked, alike, is_ranked, rank, str_lt, lemma_str_lt_asym, lemma_str_lt_neg_trans};
use crate::text::{chars_of, owned};

verus! {

/// A goal with the workspace it belongs to.
pub struct GoalDashboardItem {
    pub profile_id: String,
    pub workspace_name: String,
    pub workspace_path: String,
    pub goal: GoalRecord,
}

/// A dashboard entry for a workspace's goal.
pub fn item(profile_id: &str, workspace_name: &str, workspace_path: &str, goal: GoalRecord) -> (r:
    GoalDashboardItem)
    ensures
        r.profile_id@ == profile_id@,
        r.workspace_name@ == workspace_name@,
        r.workspace_path@ == workspace_path@,
        r.goal@ == goal@,
{
    GoalDashboardItem {
        profile_id: owned(profile_id),
        workspace_name: owned(workspace_name),
        workspace_path: owned(workspace_path),
        goal,
    }
}

impl Ranked for GoalDashboardItem {
    open spec fn precedes(&self, other: &Self) -> bool {
        !str_lt(self.goal.updated_at@, other.goal.updated_at@)
    }

    proof fn lemma_precedes_total(a: &Self, b: &Self) {
        lemma_str_lt_asym(a.goal.updated_at@, b.goal.updated_at@);
    }

    proof fn lemma_precedes_trans(a: &Self, b: &Self, c: &Self) {
        if str_lt(a.goal.updated_at@, c.goal.updated_at@) {
            lemma_str_lt_neg_trans(a.goal.updated_at@, b.goal.updated_at@, c.goal.updated_at@);
        }
    }

    fn precedes_exec(&self, other: &Self) -> (r: bool) {
        let a = chars_of(self.goal.updated_at.as_str());
        let b = chars_of(other.goal.updated_at.as_str());
        !crate::order::str_less(&a, &b)
    }
}

/// Orders the goals of all workspaces most recently updated first; goals
/// updated at the same time keep their order.
pub fn dashboard_order(items: Vec<GoalDashboardItem>) -> (r: Vec<GoalDashboardItem>)
    ensures
        is_ranked(r@),
        r@.to_multiset() == items@.to_multiset(),
        forall|x: GoalDashboardItem| #[trigger] alike(r@, x) == alike(items@, x),
{
    rank(items)
}

} // verus!

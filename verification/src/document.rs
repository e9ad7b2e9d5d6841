//! A plan taken apart into its parts and put back together, as a stored or
//! exported document needs it.
use vstd::prelude::*;

use crate::ids::{PlanId, WorkItemId};
use crate::edges::{edges_in_order, edges_sorted};
use crate::keyed::{has_key, is_sorted, keys_sorted, locate};
use crate::model::{Decision, Milestone, Project, WorkItem};
use crate::plan::{parts_well_formed, Plan};

verus! {

impl Plan {
    /// The work items, in identifier order.
    pub fn work_items(&self) -> (r: &Vec<WorkItem>)
        ensures
            r@ == self.items(),
    {
        proof {
            self.reveal_fields();
        }
        &self.work_items
    }

    /// The prerequisite edges as `(dependent, prerequisite)` pairs.
    pub fn dependencies(&self) -> (r: &Vec<(WorkItemId, WorkItemId)>)
        ensures
            r@ == self.deps(),
    {
        proof {
            self.reveal_fields();
        }
        &self.dependencies
    }

    /// The projects, in identifier order.
    pub fn projects(&self) -> (r: &Vec<Project>)
        ensures
            r@ == self.project_list(),
    {
        proof {
            self.reveal_fields();
        }
        &self.projects
    }

    /// The milestones, in identifier order.
    pub fn milestones(&self) -> (r: &Vec<Milestone>)
        ensures
            r@ == self.milestone_list(),
    {
        proof {
            self.reveal_fields();
        }
        &self.milestones
    }

    /// The decisions, in identifier order.
    pub fn decisions(&self) -> (r: &Vec<Decision>)
        ensures
            r@ == self.decision_list(),
    {
        proof {
            self.reveal_fields();
        }
        &self.decisions
    }

    /// Puts a plan together from its parts; refuses parts that do not fit
    /// together. Each collection must come in strictly increasing order of
    /// identifier, as a keyed map or set hands it out, so no identifier and
    /// no prerequisite edge occurs twice; each milestone's linked work items
    /// likewise. Every prerequisite edge must join two work items of the
    /// plan: the plan's operations follow each edge to the work items it
    /// joins, so an edge to a work item the plan does not hold is refused
    /// here rather than carried along.
    pub fn from_parts(
        id: PlanId,
        title: String,
        work_items: Vec<WorkItem>,
        dependencies: Vec<(WorkItemId, WorkItemId)>,
        projects: Vec<Project>,
        milestones: Vec<Milestone>,
        decisions: Vec<Decision>,
    ) -> (r: Option<Plan>)
        ensures
            r is Some <==> parts_well_formed(
                work_items@,
                dependencies@,
                projects@,
                milestones@,
                decisions@,
            ),
            r matches Some(p) ==> {
                &&& p.wf()
                &&& p.plan_id() == id
                &&& p.plan_title() == title@
                &&& p.items() == work_items@
                &&& p.deps() == dependencies@
                &&& p.project_list() == projects@
                &&& p.milestone_list() == milestones@
                &&& p.decision_list() == decisions@
            },
    {
        if !is_sorted(&work_items) || !is_sorted(&projects) || !is_sorted(&milestones)
            || !is_sorted(&decisions) || !edges_in_order(&dependencies) {
            return None;
        }
        let mut m: usize = 0;
        while m < milestones.len()
            invariant
                m <= milestones@.len(),
                forall|x: int| 0 <= x < m ==> keys_sorted(#[trigger] milestones@[x].work_item_ids@),
            decreases milestones.len() - m,
        {
            if !is_sorted(&milestones[m].work_item_ids) {
                return None;
            }
            m = m + 1;
        }
        let mut k: usize = 0;
        while k < dependencies.len()
            invariant
                keys_sorted(work_items@),
                edges_sorted(dependencies@),
                k <= dependencies@.len(),
                forall|x: int|
                    #![trigger dependencies@[x]]
                    0 <= x < k ==> has_key(work_items@, dependencies@[x].0@) && has_key(
                        work_items@,
                        dependencies@[x].1@,
                    ),
            decreases dependencies.len() - k,
        {
            let (_, dependent_found) = locate(&work_items, dependencies[k].0.as_str());
            let (_, prerequisite_found) = locate(&work_items, dependencies[k].1.as_str());
            if !dependent_found || !prerequisite_found {
                assert(dependencies@[k as int] == dependencies@[k as int]);
                return None;
            }
            k = k + 1;
        }
        let plan = Plan {
            id,
            title,
            work_items,
            dependencies,
            projects,
            milestones,
            decisions,
        };
        proof {
            plan.reveal_fields();
        }
        Some(plan)
    }
}

} // verus!

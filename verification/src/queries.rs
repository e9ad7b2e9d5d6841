//! Read-only projections of a plan, in identifier order.
use vstd::prelude::*;

use crate::ids::WorkItemId;
use crate::keyed::{has_key, locate};
use crate::model::{
    AcceptanceCriterion, Milestone, MilestoneSummary, VerificationGap, VerificationGapReason,
    VerificationResult, WorkItem, WorkItemStatus, WorkItemSummary,
};
use crate::plan::{item_of, Plan};

verus! {

/// The compact view of a work item.
pub open spec fn summary_of(item: WorkItem) -> WorkItemSummary {
    WorkItemSummary {
        id: item.id,
        title: item.title,
        status: item.status,
        revision: item.revision,
        criteria_count: item.criteria@.len() as usize,
    }
}

/// The summaries of blocked work, in order.
pub open spec fn blocked_only(summaries: Seq<WorkItemSummary>) -> Seq<WorkItemSummary>
    decreases summaries.len(),
{
    if summaries.len() == 0 {
        seq![]
    } else {
        let rest = blocked_only(summaries.drop_last());
        if summaries.last().status == WorkItemStatus::Blocked {
            rest.push(summaries.last())
        } else {
            rest
        }
    }
}

/// Why criterion `c` of a work item at `revision` cannot prove completion,
/// judged by its latest verification; none when it can.
pub open spec fn gap_reason(c: AcceptanceCriterion, revision: u64) -> Option<
    VerificationGapReason,
> {
    if c.verifications@.len() == 0 {
        Some(VerificationGapReason::MissingVerification)
    } else {
        let latest = c.verifications@.last();
        if latest.evidence@.len() == 0 {
            Some(VerificationGapReason::MissingEvidence)
        } else if latest.subject_revision != revision {
            Some(VerificationGapReason::StaleVerification)
        } else if latest.result != VerificationResult::Pass {
            Some(VerificationGapReason::NonPassingVerification)
        } else {
            None
        }
    }
}

/// The gaps of the criteria `criteria` of `item`, in order.
pub open spec fn criterion_gaps(item: WorkItem, criteria: Seq<AcceptanceCriterion>) -> Seq<
    VerificationGap,
>
    decreases criteria.len(),
{
    if criteria.len() == 0 {
        seq![]
    } else {
        let rest = criterion_gaps(item, criteria.drop_last());
        match gap_reason(criteria.last(), item.revision) {
            Some(reason) => rest.push(
                VerificationGap {
                    work_item_id: item.id,
                    criterion_id: criteria.last().id,
                    reason,
                },
            ),
            None => rest,
        }
    }
}

/// The gaps of every criterion of the work items, item by item.
pub open spec fn plan_gaps(items: Seq<WorkItem>) -> Seq<VerificationGap>
    decreases items.len(),
{
    if items.len() == 0 {
        seq![]
    } else {
        plan_gaps(items.drop_last()) + criterion_gaps(items.last(), items.last().criteria@)
    }
}

/// How many of `ids` name a work item that is completed.
pub open spec fn completed_count(items: Seq<WorkItem>, ids: Seq<WorkItemId>) -> nat
    decreases ids.len(),
{
    if ids.len() == 0 {
        0
    } else {
        completed_count(items, ids.drop_last()) + if has_key(items, ids.last()@) && item_of(
            items,
            ids.last()@,
        ).status == WorkItemStatus::Completed {
            1nat
        } else {
            0nat
        }
    }
}

/// The progress of milestone `m`, derived from the work items.
pub open spec fn milestone_summary_of(items: Seq<WorkItem>, m: Milestone) -> MilestoneSummary {
    let total = m.work_item_ids@.len();
    let done = completed_count(items, m.work_item_ids@);
    MilestoneSummary {
        id: m.id,
        project_id: m.project_id,
        title: m.title,
        total_work_items: total as usize,
        completed_work_items: done as usize,
        complete: total > 0 && done == total,
    }
}

/// No more of `ids` are counted completed than there are identifiers.
pub proof fn lemma_completed_count_bound(items: Seq<WorkItem>, ids: Seq<WorkItemId>)
    ensures
        completed_count(items, ids) <= ids.len(),
    decreases ids.len(),
{
    if ids.len() > 0 {
        lemma_completed_count_bound(items, ids.drop_last());
    }
}

impl Plan {
    /// A summary of every work item, in identifier order.
    pub fn work_item_summaries(&self) -> (r: Vec<WorkItemSummary>)
        ensures
            r@ == self.items().map_values(|item: WorkItem| summary_of(item)),
    {
        proof {
            self.reveal_fields();
        }
        let mut summaries: Vec<WorkItemSummary> = Vec::new();
        let mut i: usize = 0;
        while i < self.work_items.len()
            invariant
                self.items() == self.work_items@,
                i <= self.work_items@.len(),
                summaries@ == self.work_items@.take(i as int).map_values(
                    |item: WorkItem| summary_of(item),
                ),
            decreases self.work_items.len() - i,
        {
            let item = &self.work_items[i];
            summaries.push(
                WorkItemSummary {
                    id: item.id.clone(),
                    title: item.title.clone(),
                    status: item.status,
                    revision: item.revision,
                    criteria_count: item.criteria.len(),
                },
            );
            assert(self.work_items@.take(i + 1) =~= self.work_items@.take(i as int).push(*item));
            i = i + 1;
        }
        assert(self.work_items@.take(i as int) =~= self.work_items@);
        summaries
    }

    /// The summaries of the work explicitly blocked, in identifier order.
    pub fn blocked_work_item_summaries(&self) -> (r: Vec<WorkItemSummary>)
        ensures
            r@ == blocked_only(self.items().map_values(|item: WorkItem| summary_of(item))),
    {
        let all = self.work_item_summaries();
        let mut blocked: Vec<WorkItemSummary> = Vec::new();
        let mut i: usize = 0;
        while i < all.len()
            invariant
                i <= all@.len(),
                blocked@ == blocked_only(all@.take(i as int)),
            decreases all.len() - i,
        {
            assert(all@.take(i + 1).drop_last() =~= all@.take(i as int));
            let summary = &all[i];
            if summary.status == WorkItemStatus::Blocked {
                blocked.push(
                    WorkItemSummary {
                        id: summary.id.clone(),
                        title: summary.title.clone(),
                        status: summary.status,
                        revision: summary.revision,
                        criteria_count: summary.criteria_count,
                    },
                );
            }
            i = i + 1;
        }
        assert(all@.take(i as int) =~= all@);
        blocked
    }

    /// One gap for each criterion whose latest verification is missing, has
    /// no evidence, is stale, or did not pass; item by item in identifier
    /// order, criteria in the order they were added.
    pub fn verification_gaps(&self) -> (r: Vec<VerificationGap>)
        ensures
            r@ == plan_gaps(self.items()),
    {
        proof {
            self.reveal_fields();
        }
        let items = &self.work_items;
        let mut gaps: Vec<VerificationGap> = Vec::new();
        let mut i: usize = 0;
        while i < items.len()
            invariant
                i <= items@.len(),
                gaps@ == plan_gaps(items@.take(i as int)),
            decreases items.len() - i,
        {
            let item = &items[i];
            let mut c: usize = 0;
            while c < item.criteria.len()
                invariant
                    i < items@.len(),
                    *item == items@[i as int],
                    c <= item.criteria@.len(),
                    gaps@ == plan_gaps(items@.take(i as int)) + criterion_gaps(
                        *item,
                        item.criteria@.take(c as int),
                    ),
                decreases item.criteria.len() - c,
            {
                let criterion = &item.criteria[c];
                let n = criterion.verifications.len();
                let reason = if n == 0 {
                    Some(VerificationGapReason::MissingVerification)
                } else {
                    let latest = &criterion.verifications[n - 1];
                    if latest.evidence.len() == 0 {
                        Some(VerificationGapReason::MissingEvidence)
                    } else if latest.subject_revision != item.revision {
                        Some(VerificationGapReason::StaleVerification)
                    } else if latest.result != VerificationResult::Pass {
                        Some(VerificationGapReason::NonPassingVerification)
                    } else {
                        None
                    }
                };
                assert(item.criteria@.take(c + 1).drop_last() =~= item.criteria@.take(c as int));
                assert(reason == gap_reason(*criterion, item.revision));
                if let Some(reason) = reason {
                    gaps.push(
                        VerificationGap {
                            work_item_id: item.id.clone(),
                            criterion_id: criterion.id.clone(),
                            reason,
                        },
                    );
                }
                c = c + 1;
            }
            assert(item.criteria@.take(c as int) =~= item.criteria@);
            assert(items@.take(i + 1).drop_last() =~= items@.take(i as int));
            i = i + 1;
        }
        assert(items@.take(i as int) =~= items@);
        gaps
    }

    /// How many of `ids` name completed work.
    fn count_completed(&self, ids: &Vec<WorkItemId>) -> (r: usize)
        requires
            self.wf(),
        ensures
            r == completed_count(self.items(), ids@),
    {
        proof {
            self.reveal_fields();
        }
        let mut done: usize = 0;
        let mut k: usize = 0;
        while k < ids.len()
            invariant
                self.wf(),
                self.items() == self.work_items@,
                k <= ids@.len(),
                done == completed_count(self.items(), ids@.take(k as int)),
            decreases ids.len() - k,
        {
            proof {
                lemma_completed_count_bound(self.items(), ids@.take(k as int));
            }
            assert(ids@.take(k + 1).drop_last() =~= ids@.take(k as int));
            let (j, found) = locate(&self.work_items, ids[k].as_str());
            if found && self.work_items[j].status == WorkItemStatus::Completed {
                done = done + 1;
            }
            k = k + 1;
        }
        assert(ids@.take(k as int) =~= ids@);
        done
    }

    /// The progress of every milestone, in identifier order; a milestone is
    /// complete when it has linked work and all of it is completed.
    pub fn milestone_summaries(&self) -> (r: Vec<MilestoneSummary>)
        requires
            self.wf(),
        ensures
            r@ == self.milestone_list().map_values(
                |m: Milestone| milestone_summary_of(self.items(), m),
            ),
    {
        proof {
            self.reveal_fields();
        }
        let mut summaries: Vec<MilestoneSummary> = Vec::new();
        let mut i: usize = 0;
        while i < self.milestones.len()
            invariant
                self.wf(),
                self.milestone_list() == self.milestones@,
                i <= self.milestones@.len(),
                summaries@ == self.milestones@.take(i as int).map_values(
                    |m: Milestone| milestone_summary_of(self.items(), m),
                ),
            decreases self.milestones.len() - i,
        {
            let milestone = &self.milestones[i];
            let total = milestone.work_item_ids.len();
            let done = self.count_completed(&milestone.work_item_ids);
            proof {
                lemma_completed_count_bound(self.items(), milestone.work_item_ids@);
            }
            summaries.push(
                MilestoneSummary {
                    id: milestone.id.clone(),
                    project_id: milestone.project_id.clone(),
                    title: milestone.title.clone(),
                    total_work_items: total,
                    completed_work_items: done,
                    complete: total > 0 && done == total,
                },
            );
            assert(self.milestones@.take(i + 1) =~= self.milestones@.take(i as int).push(
                *milestone,
            ));
            i = i + 1;
        }
        assert(self.milestones@.take(i as int) =~= self.milestones@);
        summaries
    }
}

} // verus!

//! Properties that hold of the plan as a whole, across its operations and
//! projections.
use vstd::prelude::*;

use crate::graph::lemma_reaches_refl;
use crate::ids::{MilestoneId, WorkItemId};
use crate::keyed::{has_key, key_index, keys_sorted, lemma_key_index, Keyed};
use crate::lifecycle::{criterion_verified, open_prerequisite, unverified_criterion};
use crate::model::{
    AcceptanceCriterion, Milestone, PlanError, VerificationGap, VerificationResult, WorkItem,
    WorkItemStatus, WorkItemSummary,
};
use crate::criteria::{verification_at, verification_ids_unique};
use crate::plan::{
    bump_where, bumped, dep_edge, depends_on, impacted, item_of, parts_well_formed, revisable_where,
    Plan,
};
use crate::queries::{
    blocked_only, completed_count, criterion_gaps, gap_reason, lemma_completed_count_bound,
    milestone_summary_of, plan_gaps, summary_of,
};
use crate::sound::completion_proven;
use crate::text::text_lt;

verus! {

/// Work completes only with proof: when `complete` accepts a work item, the
/// item was neither completed nor blocked, every work item it directly
/// depends on was completed, and it had at least one criterion, each of
/// whose latest verification passed with evidence on the item's current
/// revision.
pub proof fn law_completion_requires_proof(plan: Plan, id: WorkItemId)
    requires
        plan.wf(),
        plan.complete_refusal(id) is None,
    ensures
        has_key(plan.items(), id@),
        item_of(plan.items(), id@).status != WorkItemStatus::Completed,
        item_of(plan.items(), id@).status != WorkItemStatus::Blocked,
        item_of(plan.items(), id@).criteria@.len() > 0,
        forall|c: int|
            0 <= c < item_of(plan.items(), id@).criteria@.len() ==> criterion_verified(
                #[trigger] item_of(plan.items(), id@).criteria@[c],
                item_of(plan.items(), id@).revision,
            ),
        forall|j: int|
            0 <= j < plan.items().len() && #[trigger] dep_edge(plan.deps())(
                id@,
                plan.items()[j].id@,
            ) ==> plan.items()[j].status == WorkItemStatus::Completed,
{
    let items = plan.items();
    let item = item_of(items, id@);
    assert forall|c: int| 0 <= c < item.criteria@.len() implies criterion_verified(
        #[trigger] item.criteria@[c],
        item.revision,
    ) by {
        if !criterion_verified(item.criteria@[c], item.revision) {
            assert(unverified_criterion(item, c));
        }
    }
    assert forall|j: int|
        0 <= j < items.len() && #[trigger] dep_edge(plan.deps())(
            id@,
            items[j].id@,
        ) implies items[j].status == WorkItemStatus::Completed by {
        if items[j].status != WorkItemStatus::Completed {
            assert(open_prerequisite(items, plan.deps(), id@, j));
        }
    }
}

/// A change reaching a work item moves it to the next revision and returns
/// it to planned when it was completed; any other status stays.
pub proof fn law_change_reopens(item: WorkItem)
    requires
        item.revision < u64::MAX,
    ensures
        bumped(item).revision == item.revision + 1,
        bumped(item).status != WorkItemStatus::Completed,
        item.status != WorkItemStatus::Completed ==> bumped(item).status == item.status,
        bumped(item).id == item.id,
        bumped(item).title == item.title,
        bumped(item).criteria == item.criteria,
{
}

/// A change of a work item reaches the item itself and every work item that
/// depends on it, directly or through other work; completed work among
/// them is reopened and nothing else moves.
pub proof fn law_change_reaches_dependents(
    items: Seq<WorkItem>,
    deps: Seq<(WorkItemId, WorkItemId)>,
    root: Seq<char>,
    i: int,
)
    requires
        0 <= i < items.len(),
        forall|j: int| 0 <= j < items.len() ==> (#[trigger] items[j]).revision < u64::MAX,
    ensures
        items[i].id@ == root ==> impacted(items, deps, root)(i),
        forall|j: int|
            0 <= j < items.len() && #[trigger] dep_edge(deps)(items[j].id@, items[i].id@)
                && impacted(items, deps, root)(i) ==> impacted(items, deps, root)(j),
        impacted(items, deps, root)(i) ==> bump_where(items, impacted(items, deps, root))[i]
            == bumped(items[i]),
        !impacted(items, deps, root)(i) ==> bump_where(items, impacted(items, deps, root))[i]
            == items[i],
{
    if items[i].id@ == root {
        lemma_reaches_refl(dep_edge(deps), root);
    }
    assert forall|j: int|
        0 <= j < items.len() && #[trigger] dep_edge(deps)(items[j].id@, items[i].id@)
            && impacted(items, deps, root)(i) implies impacted(items, deps, root)(j) by {
        lemma_reaches_refl(dep_edge(deps), items[j].id@);
        crate::graph::lemma_reaches_step(dep_edge(deps), items[j].id@, items[j].id@, items[i].id@);
        crate::graph::lemma_reaches_trans(dep_edge(deps), items[j].id@, items[i].id@, root);
    }
}

/// A criterion leaves no gap exactly when its latest verification passed,
/// with evidence, on the work item's revision: the condition `complete`
/// asks of every criterion.
pub proof fn law_no_gap_iff_verified(c: AcceptanceCriterion, revision: u64)
    ensures
        gap_reason(c, revision) is None <==> criterion_verified(c, revision),
{
}

/// The criteria of a work item leave no verification gap exactly when each
/// of them is verified on the item's revision.
pub proof fn law_no_gaps_iff_verified(item: WorkItem, criteria: Seq<AcceptanceCriterion>)
    ensures
        criterion_gaps(item, criteria).len() == 0 <==> forall|c: int|
            0 <= c < criteria.len() ==> criterion_verified(#[trigger] criteria[c], item.revision),
    decreases criteria.len(),
{
    if criteria.len() > 0 {
        let rest = criteria.drop_last();
        law_no_gaps_iff_verified(item, rest);
        if forall|c: int|
            0 <= c < criteria.len() ==> criterion_verified(#[trigger] criteria[c], item.revision) {
            assert forall|c: int| 0 <= c < rest.len() implies criterion_verified(
                #[trigger] rest[c],
                item.revision,
            ) by {
                assert(rest[c] == criteria[c]);
            }
            assert(criterion_verified(criteria.last(), item.revision));
        }
        if criterion_gaps(item, criteria).len() == 0 {
            assert(gap_reason(criteria.last(), item.revision) is None);
            assert forall|c: int| 0 <= c < criteria.len() implies criterion_verified(
                #[trigger] criteria[c],
                item.revision,
            ) by {
                if c < rest.len() {
                    assert(rest[c] == criteria[c]);
                }
            }
        }
    }
}

/// A milestone is complete exactly when it has linked work and every linked
/// work item exists and is completed.
pub proof fn law_milestone_completion(items: Seq<WorkItem>, m: Milestone)
    requires
        m.work_item_ids@.len() <= usize::MAX,
    ensures
        milestone_summary_of(items, m).complete <==> (m.work_item_ids@.len() > 0 && forall|k: int|
            0 <= k < m.work_item_ids@.len() ==> has_key(items, (#[trigger] m.work_item_ids@[k])@)
                && item_of(items, m.work_item_ids@[k]@).status == WorkItemStatus::Completed),
{
    lemma_all_completed(items, m.work_item_ids@);
    lemma_completed_count_bound(items, m.work_item_ids@);
}

proof fn lemma_all_completed(items: Seq<WorkItem>, ids: Seq<WorkItemId>)
    ensures
        completed_count(items, ids) == ids.len() <==> forall|k: int|
            0 <= k < ids.len() ==> has_key(items, (#[trigger] ids[k])@) && item_of(
                items,
                ids[k]@,
            ).status == WorkItemStatus::Completed,
    decreases ids.len(),
{
    if ids.len() > 0 {
        let rest = ids.drop_last();
        lemma_all_completed(items, rest);
        lemma_completed_count_bound(items, rest);
        if completed_count(items, ids) == ids.len() {
            assert forall|k: int| 0 <= k < ids.len() implies has_key(items, (#[trigger] ids[k])@)
                && item_of(items, ids[k]@).status == WorkItemStatus::Completed by {
                if k < rest.len() {
                    assert(rest[k] == ids[k]);
                }
            }
        }
        if forall|k: int|
            0 <= k < ids.len() ==> has_key(items, (#[trigger] ids[k])@) && item_of(
                items,
                ids[k]@,
            ).status == WorkItemStatus::Completed {
            assert forall|k: int| 0 <= k < rest.len() implies has_key(items, (#[trigger] rest[k])@)
                && item_of(items, rest[k]@).status == WorkItemStatus::Completed by {
                assert(rest[k] == ids[k]);
            }
            assert(has_key(items, ids.last()@));
        }
    }
}

/// Work item summaries come in strictly increasing identifier order, so no
/// work item is listed twice.
pub proof fn law_summaries_ordered(plan: Plan, summaries: Seq<WorkItemSummary>)
    requires
        plan.wf(),
        summaries == plan.items().map_values(|item: WorkItem| summary_of(item)),
    ensures
        forall|i: int, j: int|
            0 <= i < j < summaries.len() ==> text_lt(
                (#[trigger] summaries[i]).id@,
                (#[trigger] summaries[j]).id@,
            ),
{
    assert forall|i: int, j: int| 0 <= i < j < summaries.len() implies text_lt(
        (#[trigger] summaries[i]).id@,
        (#[trigger] summaries[j]).id@,
    ) by {
        assert(summaries[i].id == plan.items()[i].id);
        assert(summaries[j].id == plan.items()[j].id);
        assert(keys_sorted(plan.items()));
        assert(text_lt(plan.items()[i].key(), plan.items()[j].key()));
    }
}

/// A change that adds no verification, so that every verification after it
/// stands where it stood before, keeps verification identifiers unique.
pub proof fn law_no_new_verification_keeps_ids_unique(before: Seq<WorkItem>, after: Seq<WorkItem>)
    requires
        verification_ids_unique(before),
        forall|i: int, c: int, v: int|
            #[trigger] verification_at(after, i, c, v) ==> verification_at(before, i, c, v)
                && after[i].criteria@[c].verifications@[v] == before[i].criteria@[c].verifications@[v],
    ensures
        verification_ids_unique(after),
{
    assert forall|i1: int, c1: int, v1: int, i2: int, c2: int, v2: int|
        #![trigger after[i1].criteria@[c1].verifications@[v1], after[i2].criteria@[c2].verifications@[v2]]
        verification_at(after, i1, c1, v1) && verification_at(after, i2, c2, v2) && (i1, c1, v1)
            != (i2, c2, v2) implies after[i1].criteria@[c1].verifications@[v1].id@
        != after[i2].criteria@[c2].verifications@[v2].id@ by {
        assert(verification_at(before, i1, c1, v1));
        assert(verification_at(before, i2, c2, v2));
        assert(before[i1].criteria@[c1].verifications@[v1].id@
            != before[i2].criteria@[c2].verifications@[v2].id@);
    }
}

/// The parts a plan gives out fit back together, so a plan taken apart and
/// put back with `from_parts` is the same plan.
pub proof fn law_parts_fit_back(plan: Plan)
    requires
        plan.wf(),
    ensures
        parts_well_formed(
            plan.items(),
            plan.deps(),
            plan.project_list(),
            plan.milestone_list(),
            plan.decision_list(),
        ),
{
}

/// Along any run of operations that starts from a sound plan (as
/// `Plan::new` makes one), each plan following the one before by one of the
/// plan's operations, whether it succeeded or was refused: every plan keeps
/// the identity of the first and is sound.
pub proof fn law_runs_stay_sound(run: Seq<Plan>)
    requires
        run.len() > 0,
        run[0].sound(),
        forall|k: int| 0 <= k < run.len() - 1 ==> #[trigger] run[k + 1].follows(&run[k]),
    ensures
        forall|k: int|
            0 <= k < run.len() ==> (#[trigger] run[k]).sound() && run[k].plan_id()
                == run[0].plan_id(),
    decreases run.len(),
{
    if run.len() > 1 {
        let shorter = run.drop_last();
        assert forall|k: int| 0 <= k < shorter.len() - 1 implies #[trigger] shorter[k + 1].follows(
            &shorter[k],
        ) by {
            assert(shorter[k + 1] == run[k + 1] && shorter[k] == run[k]);
            assert(run[k + 1].follows(&run[k]));
        }
        law_runs_stay_sound(shorter);
        let n = run.len() - 1;
        assert(shorter[n - 1] == run[n - 1]);
        let last = n - 1;
        assert(run[last + 1].follows(&run[last]));
        assert(last + 1 == n);
        assert forall|k: int| 0 <= k < run.len() implies (#[trigger] run[k]).sound()
            && run[k].plan_id() == run[0].plan_id() by {
            if k < n {
                assert(shorter[k] == run[k]);
            }
        }
    }
}

/// What a sound plan guarantees: no work item depends on itself through one
/// or more prerequisites; verification identifiers are distinct across the
/// plan; each verification names its criterion, carries its attempt number
/// (1, 2, ...) and, when it passed, cites evidence; and each completed work
/// item has criteria with no verification gap and completed prerequisites.
pub proof fn law_sound_plan(plan: Plan)
    requires
        plan.sound(),
    ensures
        forall|a: Seq<char>, b: Seq<char>|
            #[trigger] dep_edge(plan.deps())(a, b) ==> !depends_on(plan.deps(), b, a),
        verification_ids_unique(plan.items()),
        forall|i: int, c: int, v: int|
            #![trigger plan.items()[i].criteria@[c].verifications@[v]]
            verification_at(plan.items(), i, c, v) ==> {
                let x = plan.items()[i].criteria@[c].verifications@[v];
                &&& x.attempt == v + 1
                &&& x.criterion_id@ == plan.items()[i].criteria@[c].id@
                &&& x.result == VerificationResult::Pass ==> x.evidence@.len() > 0
            },
        forall|i: int|
            #![trigger plan.items()[i]]
            0 <= i < plan.items().len() && plan.items()[i].status == WorkItemStatus::Completed ==> {
                &&& plan.items()[i].criteria@.len() > 0
                &&& criterion_gaps(plan.items()[i], plan.items()[i].criteria@).len() == 0
                &&& forall|j: int|
                    0 <= j < plan.items().len() && #[trigger] dep_edge(plan.deps())(
                        plan.items()[i].id@,
                        plan.items()[j].id@,
                    ) ==> plan.items()[j].status == WorkItemStatus::Completed
            },
{
    let items = plan.items();
    assert forall|i: int|
        #![trigger items[i]]
        0 <= i < items.len() && items[i].status == WorkItemStatus::Completed implies criterion_gaps(
        items[i],
        items[i].criteria@,
    ).len() == 0 by {
        assert(completion_proven(items, plan.deps(), i));
        law_no_gaps_iff_verified(items[i], items[i].criteria@);
    }
}

/// Completion accepts proven work whatever stage it is at: a work item that
/// is planned or in progress, whose direct prerequisites are all completed,
/// and which has criteria whose latest verifications all passed, cite
/// evidence and are pinned to its current revision, is not refused.
pub proof fn law_proven_work_completes(plan: Plan, id: WorkItemId)
    requires
        plan.wf(),
        has_key(plan.items(), id@),
        item_of(plan.items(), id@).status == WorkItemStatus::Planned || item_of(
            plan.items(),
            id@,
        ).status == WorkItemStatus::InProgress,
        forall|j: int|
            0 <= j < plan.items().len() && #[trigger] dep_edge(plan.deps())(
                id@,
                plan.items()[j].id@,
            ) ==> plan.items()[j].status == WorkItemStatus::Completed,
        item_of(plan.items(), id@).criteria@.len() > 0,
        forall|c: int|
            0 <= c < item_of(plan.items(), id@).criteria@.len() ==> {
                let v = (#[trigger] item_of(plan.items(), id@).criteria@[c]).verifications@;
                &&& v.len() > 0
                &&& v.last().result == VerificationResult::Pass
                &&& v.last().subject_revision == item_of(plan.items(), id@).revision
                &&& v.last().evidence@.len() > 0
            },
    ensures
        plan.complete_refusal(id) is None,
{
    let items = plan.items();
    let item = item_of(items, id@);
    assert forall|j: int| !#[trigger] open_prerequisite(items, plan.deps(), id@, j) by {
        if 0 <= j < items.len() && dep_edge(plan.deps())(id@, items[j].id@) {
            assert(items[j].status == WorkItemStatus::Completed);
        }
    }
    assert forall|c: int| !#[trigger] unverified_criterion(item, c) by {
        if 0 <= c < item.criteria@.len() {
            assert(item.criteria@[c] == item.criteria@[c]);
        }
    }
}

/// The blocked listing holds exactly the summaries whose status is blocked,
/// in the order they were given: each listed summary is blocked, and each
/// blocked summary is listed.
pub proof fn law_blocked_listing_is_exact(s: Seq<WorkItemSummary>)
    ensures
        blocked_only(s) == s.filter(|x: WorkItemSummary| x.status == WorkItemStatus::Blocked),
        forall|k: int|
            0 <= k < blocked_only(s).len() ==> (#[trigger] blocked_only(s)[k]).status
                == WorkItemStatus::Blocked,
        forall|i: int|
            0 <= i < s.len() && s[i].status == WorkItemStatus::Blocked ==> blocked_only(
                s,
            ).contains(#[trigger] s[i]),
    decreases s.len(),
{
    let pred = |x: WorkItemSummary| x.status == WorkItemStatus::Blocked;
    reveal(Seq::filter);
    if s.len() > 0 {
        law_blocked_listing_is_exact(s.drop_last());
    }
    assert(blocked_only(s) == s.filter(pred));
    assert forall|k: int| 0 <= k < blocked_only(s).len() implies (#[trigger] blocked_only(
        s,
    )[k]).status == WorkItemStatus::Blocked by {
        s.lemma_filter_pred(pred, k);
    }
    assert forall|i: int|
        0 <= i < s.len() && s[i].status == WorkItemStatus::Blocked implies blocked_only(
        s,
    ).contains(#[trigger] s[i]) by {
        s.lemma_filter_contains(pred, i);
    }
}

/// The gaps of one work item's criteria: a gap for each criterion that has a
/// gap reason, naming the item, the criterion and the reason, and nothing
/// else.
proof fn lemma_criterion_gaps_exact(item: WorkItem, criteria: Seq<AcceptanceCriterion>)
    ensures
        forall|c: int|
            0 <= c < criteria.len() && (#[trigger] gap_reason(criteria[c], item.revision)) is Some
                ==> criterion_gaps(item, criteria).contains(
                VerificationGap {
                    work_item_id: item.id,
                    criterion_id: criteria[c].id,
                    reason: gap_reason(criteria[c], item.revision)->0,
                },
            ),
        forall|g: VerificationGap|
            #[trigger] criterion_gaps(item, criteria).contains(g) ==> exists|c: int|
                0 <= c < criteria.len() && #[trigger] gap_reason(criteria[c], item.revision)
                    == Some(g.reason) && g.work_item_id == item.id && g.criterion_id
                    == criteria[c].id,
    decreases criteria.len(),
{
    if criteria.len() > 0 {
        let rest = criteria.drop_last();
        lemma_criterion_gaps_exact(item, rest);
        let before = criterion_gaps(item, rest);
        let after = criterion_gaps(item, criteria);
        let n = criteria.len() - 1;
        assert forall|c: int|
            0 <= c < criteria.len() && (#[trigger] gap_reason(criteria[c], item.revision)) is Some
                implies after.contains(
            VerificationGap {
                work_item_id: item.id,
                criterion_id: criteria[c].id,
                reason: gap_reason(criteria[c], item.revision)->0,
            },
        ) by {
            let g = VerificationGap {
                work_item_id: item.id,
                criterion_id: criteria[c].id,
                reason: gap_reason(criteria[c], item.revision)->0,
            };
            if c < n {
                assert(rest[c] == criteria[c]);
                assert(gap_reason(rest[c], item.revision) is Some);
                assert(before.contains(g));
                let k = choose|k: int| 0 <= k < before.len() && before[k] == g;
                assert(after[k] == before[k]);
            } else {
                assert(after[after.len() - 1] == g);
            }
        }
        assert forall|g: VerificationGap| #[trigger] after.contains(g) implies exists|c: int|
            0 <= c < criteria.len() && #[trigger] gap_reason(criteria[c], item.revision) == Some(
                g.reason,
            ) && g.work_item_id == item.id && g.criterion_id == criteria[c].id by {
            let k = choose|k: int| 0 <= k < after.len() && after[k] == g;
            if k < before.len() {
                assert(after[k] == before[k]);
                assert(before.contains(g));
                let c = choose|c: int|
                    0 <= c < rest.len() && #[trigger] gap_reason(rest[c], item.revision) == Some(
                        g.reason,
                    ) && g.work_item_id == item.id && g.criterion_id == rest[c].id;
                assert(rest[c] == criteria[c]);
                assert(gap_reason(criteria[c], item.revision) == Some(g.reason));
            } else {
                assert(gap_reason(criteria[n], item.revision) == Some(g.reason));
            }
        }
    }
}

/// The gap report covers every work item whatever its status: each criterion
/// of each work item that has a gap reason gives a gap naming the item, the
/// criterion and the reason, and every reported gap is such a gap.
pub proof fn law_gaps_cover_every_criterion(items: Seq<WorkItem>)
    ensures
        forall|i: int, c: int|
            0 <= i < items.len() && 0 <= c < items[i].criteria@.len() && (#[trigger] gap_reason(
                items[i].criteria@[c],
                items[i].revision,
            )) is Some ==> plan_gaps(items).contains(
                VerificationGap {
                    work_item_id: items[i].id,
                    criterion_id: items[i].criteria@[c].id,
                    reason: gap_reason(items[i].criteria@[c], items[i].revision)->0,
                },
            ),
        forall|g: VerificationGap|
            #[trigger] plan_gaps(items).contains(g) ==> exists|i: int, c: int|
                0 <= i < items.len() && 0 <= c < items[i].criteria@.len() && #[trigger] gap_reason(
                    items[i].criteria@[c],
                    items[i].revision,
                ) == Some(g.reason) && g.work_item_id == items[i].id && g.criterion_id
                    == items[i].criteria@[c].id,
    decreases items.len(),
{
    if items.len() > 0 {
        let rest = items.drop_last();
        let n = items.len() - 1;
        law_gaps_cover_every_criterion(rest);
        let last = items[n];
        lemma_criterion_gaps_exact(last, last.criteria@);
        let head = plan_gaps(rest);
        let tail = criterion_gaps(last, last.criteria@);
        let all = plan_gaps(items);
        assert(all == head + tail);
        assert forall|i: int, c: int|
            0 <= i < items.len() && 0 <= c < items[i].criteria@.len() && (#[trigger] gap_reason(
                items[i].criteria@[c],
                items[i].revision,
            )) is Some implies all.contains(
            VerificationGap {
                work_item_id: items[i].id,
                criterion_id: items[i].criteria@[c].id,
                reason: gap_reason(items[i].criteria@[c], items[i].revision)->0,
            },
        ) by {
            let g = VerificationGap {
                work_item_id: items[i].id,
                criterion_id: items[i].criteria@[c].id,
                reason: gap_reason(items[i].criteria@[c], items[i].revision)->0,
            };
            if i < n {
                assert(rest[i] == items[i]);
                assert(gap_reason(rest[i].criteria@[c], rest[i].revision) is Some);
                assert(head.contains(g));
                let k = choose|k: int| 0 <= k < head.len() && head[k] == g;
                assert(all[k] == head[k]);
            } else {
                assert(gap_reason(last.criteria@[c], last.revision) is Some);
                assert(tail.contains(g));
                let k = choose|k: int| 0 <= k < tail.len() && tail[k] == g;
                assert(all[head.len() + k] == tail[k]);
            }
        }
        assert forall|g: VerificationGap| #[trigger] all.contains(g) implies exists|i: int, c: int|
            0 <= i < items.len() && 0 <= c < items[i].criteria@.len() && #[trigger] gap_reason(
                items[i].criteria@[c],
                items[i].revision,
            ) == Some(g.reason) && g.work_item_id == items[i].id && g.criterion_id
                == items[i].criteria@[c].id by {
            let k = choose|k: int| 0 <= k < all.len() && all[k] == g;
            if k < head.len() {
                assert(all[k] == head[k]);
                assert(head.contains(g));
                let (i, c) = choose|i: int, c: int|
                    0 <= i < rest.len() && 0 <= c < rest[i].criteria@.len() && #[trigger] gap_reason(
                        rest[i].criteria@[c],
                        rest[i].revision,
                    ) == Some(g.reason) && g.work_item_id == rest[i].id && g.criterion_id
                        == rest[i].criteria@[c].id;
                assert(rest[i] == items[i]);
                assert(gap_reason(items[i].criteria@[c], items[i].revision) == Some(g.reason));
            } else {
                assert(all[k] == tail[k - head.len()]);
                assert(tail.contains(g));
                let c = choose|c: int|
                    0 <= c < last.criteria@.len() && #[trigger] gap_reason(
                        last.criteria@[c],
                        last.revision,
                    ) == Some(g.reason) && g.work_item_id == last.id && g.criterion_id
                        == last.criteria@[c].id;
                assert(gap_reason(items[n].criteria@[c], items[n].revision) == Some(g.reason));
            }
        }
    }
}

/// A milestone counts as completed exactly those of its linked identifiers
/// that name a completed work item, wherever they stand among the links.
pub proof fn law_completed_count_counts_every_link(items: Seq<WorkItem>, ids: Seq<WorkItemId>)
    ensures
        completed_count(items, ids) == ids.filter(
            |x: WorkItemId|
                has_key(items, x@) && item_of(items, x@).status == WorkItemStatus::Completed,
        ).len(),
    decreases ids.len(),
{
    reveal(Seq::filter);
    if ids.len() > 0 {
        law_completed_count_counts_every_link(items, ids.drop_last());
    }
}

/// A milestone's summary reports its identity, its number of linked work
/// items, and the number of those that name a completed work item, wherever
/// they stand among the links; it is complete exactly when it has links and
/// all of them are counted.
pub proof fn law_milestone_summary_counts(items: Seq<WorkItem>, m: Milestone)
    ensures
        milestone_summary_of(items, m).id == m.id,
        milestone_summary_of(items, m).project_id == m.project_id,
        milestone_summary_of(items, m).title == m.title,
        milestone_summary_of(items, m).total_work_items == m.work_item_ids@.len() as usize,
        milestone_summary_of(items, m).completed_work_items == m.work_item_ids@.filter(
            |x: WorkItemId|
                has_key(items, x@) && item_of(items, x@).status == WorkItemStatus::Completed,
        ).len() as usize,
        milestone_summary_of(items, m).complete == (m.work_item_ids@.len() > 0 && m.work_item_ids@.filter(
            |x: WorkItemId|
                has_key(items, x@) && item_of(items, x@).status == WorkItemStatus::Completed,
        ).len() == m.work_item_ids@.len()),
{
    law_completed_count_counts_every_link(items, m.work_item_ids@);
}

/// A work item's summary reports its identifier, title, status, revision and
/// number of criteria.
pub proof fn law_summary_reports_the_item(item: WorkItem)
    ensures
        summary_of(item).id == item.id,
        summary_of(item).title == item.title,
        summary_of(item).status == item.status,
        summary_of(item).revision == item.revision,
        summary_of(item).criteria_count == item.criteria@.len() as usize,
{
}

/// Linking a work item to a milestone is refused as already linked exactly
/// when that milestone already lists it, whatever other milestones list; and
/// when it does not, the link is accepted unless a revision cannot advance.
pub proof fn law_link_refused_only_by_the_same_milestone(
    plan: Plan,
    milestone_id: MilestoneId,
    work_item_id: WorkItemId,
)
    requires
        plan.wf(),
        has_key(plan.items(), work_item_id@),
        has_key(plan.milestone_list(), milestone_id@),
    ensures
        plan.link_work_item_refusal(milestone_id, work_item_id) == Some(
            PlanError::WorkItemAlreadyLinked(work_item_id),
        ) <==> exists|k: int|
            0 <= k < plan.milestone_list().len() && plan.milestone_list()[k].id@ == milestone_id@
                && has_key(#[trigger] plan.milestone_list()[k].work_item_ids@, work_item_id@),
        !(exists|k: int|
            0 <= k < plan.milestone_list().len() && plan.milestone_list()[k].id@ == milestone_id@
                && has_key(#[trigger] plan.milestone_list()[k].work_item_ids@, work_item_id@))
            && revisable_where(
            plan.items(),
            impacted(plan.items(), plan.deps(), work_item_id@),
        ) ==> plan.link_work_item_refusal(milestone_id, work_item_id) is None,
{
    let ms = plan.milestone_list();
    let m = key_index(ms, milestone_id@);
    assert(ms[m].key() == milestone_id@);
    assert forall|k: int|
        0 <= k < ms.len() && ms[k].id@ == milestone_id@ implies k == m by {
        lemma_key_index(ms, milestone_id@, k);
    }
}

} // verus!

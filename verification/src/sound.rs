//! What every plan built by its operations satisfies: prerequisites without
//! cycles, verifications with distinct identifiers numbered by attempt, and
//! completed work that is proven.
use vstd::prelude::*;

use crate::criteria::{dependents, verification_at, verification_ids_unique};
use crate::graph::{lemma_reaches_refl, lemma_reaches_step, lemma_reaches_trans};
use crate::keyed::{keys_sorted, Keyed};
use crate::lifecycle::criterion_verified;
use crate::model::{Verification, VerificationResult, WorkItem, WorkItemStatus};
use crate::plan::{acyclic, dep_edge, depends_on, impacted, Plan};
use crate::ids::WorkItemId;

verus! {

/// Every verification of a criterion names that criterion, is numbered by
/// its attempt (1, 2, ...), and, when it passed, cites evidence.
pub open spec fn attempts_numbered(items: Seq<WorkItem>) -> bool {
    forall|i: int, c: int, v: int|
        #![trigger items[i].criteria@[c].verifications@[v]]
        verification_at(items, i, c, v) ==> {
            let x = items[i].criteria@[c].verifications@[v];
            &&& x.attempt == v + 1
            &&& x.criterion_id@ == items[i].criteria@[c].id@
            &&& x.result == VerificationResult::Pass ==> x.evidence@.len() > 0
        }
}

/// The work item at `i` has criteria, each verified on its revision, and
/// every work item it directly depends on is completed.
pub open spec fn completion_proven(
    items: Seq<WorkItem>,
    deps: Seq<(WorkItemId, WorkItemId)>,
    i: int,
) -> bool {
    &&& items[i].criteria@.len() > 0
    &&& forall|c: int|
        0 <= c < items[i].criteria@.len() ==> criterion_verified(
            #[trigger] items[i].criteria@[c],
            items[i].revision,
        )
    &&& forall|j: int|
        0 <= j < items.len() && #[trigger] dep_edge(deps)(items[i].id@, items[j].id@)
            ==> items[j].status == WorkItemStatus::Completed
}

/// Every completed work item is proven.
pub open spec fn completion_justified(
    items: Seq<WorkItem>,
    deps: Seq<(WorkItemId, WorkItemId)>,
) -> bool {
    forall|i: int|
        #![trigger items[i]]
        0 <= i < items.len() && items[i].status == WorkItemStatus::Completed ==> completion_proven(
            items,
            deps,
            i,
        )
}

impl Plan {
    /// The plan is well formed, its prerequisites have no cycle, its
    /// verifications have distinct identifiers and are numbered by attempt,
    /// and its completed work is proven.
    pub open spec fn sound(&self) -> bool {
        &&& self.wf()
        &&& acyclic(self.deps())
        &&& verification_ids_unique(self.items())
        &&& attempts_numbered(self.items())
        &&& completion_justified(self.items(), self.deps())
    }

    /// The plan can come from `before` by one operation: it keeps the plan's
    /// identity and keeps a sound plan sound.
    pub open spec fn follows(&self, before: &Plan) -> bool {
        &&& self.plan_id() == before.plan_id()
        &&& before.sound() ==> self.sound()
    }
}

/// Work items whose criteria stay the same keep attempts numbered.
pub proof fn lemma_same_criteria_keep_attempts(before: Seq<WorkItem>, after: Seq<WorkItem>)
    requires
        attempts_numbered(before),
        after.len() == before.len(),
        forall|i: int| 0 <= i < before.len() ==> (#[trigger] after[i]).criteria == before[i].criteria,
    ensures
        attempts_numbered(after),
{
    assert forall|i: int, c: int, v: int|
        #![trigger after[i].criteria@[c].verifications@[v]]
        verification_at(after, i, c, v) implies {
        let x = after[i].criteria@[c].verifications@[v];
        &&& x.attempt == v + 1
        &&& x.criterion_id@ == after[i].criteria@[c].id@
        &&& x.result == VerificationResult::Pass ==> x.evidence@.len() > 0
    } by {
        assert(after[i].criteria == before[i].criteria);
        assert(verification_at(before, i, c, v));
        assert(before[i].criteria@[c].verifications@[v] == before[i].criteria@[c].verifications@[v]);
    }
}

/// Completed work stays proven when each work item completed afterwards was
/// the same before, and each of its prerequisites afterwards was one before
/// and stays completed if it was.
pub proof fn lemma_justified_kept(
    items: Seq<WorkItem>,
    deps: Seq<(WorkItemId, WorkItemId)>,
    after: Seq<WorkItem>,
    deps2: Seq<(WorkItemId, WorkItemId)>,
)
    requires
        completion_justified(items, deps),
        after.len() == items.len(),
        forall|i: int| 0 <= i < items.len() ==> (#[trigger] after[i]).id == items[i].id,
        forall|i: int|
            0 <= i < items.len() && (#[trigger] after[i]).status == WorkItemStatus::Completed
                ==> after[i] == items[i],
        forall|i: int, j: int|
            0 <= i < items.len() && 0 <= j < items.len() && after[i].status
                == WorkItemStatus::Completed && #[trigger] dep_edge(deps2)(
                items[i].id@,
                items[j].id@,
            ) ==> dep_edge(deps)(items[i].id@, items[j].id@) && (items[j].status
                == WorkItemStatus::Completed ==> after[j].status == WorkItemStatus::Completed),
    ensures
        completion_justified(after, deps2),
{
    assert forall|i: int|
        0 <= i < after.len() && after[i].status == WorkItemStatus::Completed implies #[trigger] completion_proven(
        after,
        deps2,
        i,
    ) by {
        assert(after[i] == items[i]);
        assert(items[i].status == WorkItemStatus::Completed);
        assert(completion_proven(items, deps, i));
        assert forall|j: int|
            0 <= j < after.len() && #[trigger] dep_edge(deps2)(
                after[i].id@,
                after[j].id@,
            ) implies after[j].status == WorkItemStatus::Completed by {
            assert(after[j].id == items[j].id);
            assert(dep_edge(deps2)(items[i].id@, items[j].id@));
            assert(dep_edge(deps)(items[i].id@, items[j].id@));
        }
    }
}

/// Completed work stays proven through a change that moves the selected
/// work items to a new revision (reopening completed ones), touches only
/// the work item at `w` besides, leaves `w` not completed, and adds edges
/// only from `w`; provided the selection takes in every work item that
/// depends directly on a selected one, or on `w` when `w` was completed.
pub proof fn lemma_bump_justified(
    items: Seq<WorkItem>,
    deps: Seq<(WorkItemId, WorkItemId)>,
    after: Seq<WorkItem>,
    deps2: Seq<(WorkItemId, WorkItemId)>,
    sel: spec_fn(int) -> bool,
    w: int,
)
    requires
        completion_justified(items, deps),
        keys_sorted(items),
        0 <= w < items.len(),
        after.len() == items.len(),
        forall|i: int| 0 <= i < items.len() ==> (#[trigger] after[i]).id == items[i].id,
        forall|i: int|
            0 <= i < items.len() && #[trigger] sel(i) ==> after[i].status
                != WorkItemStatus::Completed,
        forall|i: int| 0 <= i < items.len() && !sel(i) && i != w ==> #[trigger] after[i] == items[i],
        after[w].status != WorkItemStatus::Completed,
        forall|a: Seq<char>, b: Seq<char>|
            #[trigger] dep_edge(deps2)(a, b) ==> dep_edge(deps)(a, b) || a == items[w].id@,
        forall|i: int, j: int|
            0 <= i < items.len() && 0 <= j < items.len() && i != w && #[trigger] dep_edge(deps)(
                items[i].id@,
                items[j].id@,
            ) && (sel(j) || (j == w && items[w].status == WorkItemStatus::Completed)) ==> sel(i),
    ensures
        completion_justified(after, deps2),
{
    assert forall|i: int|
        0 <= i < items.len() && (#[trigger] after[i]).status == WorkItemStatus::Completed implies after[i]
        == items[i] by {
        if sel(i) {
            assert(after[i].status != WorkItemStatus::Completed);
        }
    }
    assert forall|i: int, j: int|
        0 <= i < items.len() && 0 <= j < items.len() && after[i].status
            == WorkItemStatus::Completed && #[trigger] dep_edge(deps2)(
            items[i].id@,
            items[j].id@,
        ) implies dep_edge(deps)(items[i].id@, items[j].id@) && (items[j].status
        == WorkItemStatus::Completed ==> after[j].status == WorkItemStatus::Completed) by {
        assert(i != w);
        if sel(i) {
            assert(after[i].status != WorkItemStatus::Completed);
        }
        assert(items[i].key() != items[w].key()) by {
            crate::text::lemma_text_order();
            if i < w {
                assert(crate::text::text_lt(items[i].key(), items[w].key()));
            } else {
                assert(crate::text::text_lt(items[w].key(), items[i].key()));
            }
        }
        assert(dep_edge(deps)(items[i].id@, items[j].id@));
        if items[j].status == WorkItemStatus::Completed {
            if sel(j) || j == w {
                assert(sel(i));
            } else {
                assert(after[j] == items[j]);
            }
        }
    }
    lemma_justified_kept(items, deps, after, deps2);
}

/// Moving one work item that is not completed to another status keeps a
/// sound plan sound, provided it moves to completed only when proven.
pub proof fn lemma_status_sound(before: Plan, after: Plan, i: int, status: WorkItemStatus)
    requires
        before.sound(),
        after.wf(),
        after.same_but_items(&before),
        0 <= i < before.items().len(),
        after.items() == before.items().update(i, WorkItem { status, ..before.items()[i] }),
        before.items()[i].status != WorkItemStatus::Completed,
        status == WorkItemStatus::Completed ==> completion_proven(before.items(), before.deps(), i),
    ensures
        after.sound(),
{
    let items = before.items();
    let deps = before.deps();
    let next = after.items();
    crate::criteria::lemma_same_criteria_keep_ids_unique(items, next);
    lemma_same_criteria_keep_attempts(items, next);
    assert forall|a: int|
        0 <= a < next.len() && next[a].status == WorkItemStatus::Completed implies #[trigger] completion_proven(
        next,
        deps,
        a,
    ) by {
        if a == i {
            assert(completion_proven(items, deps, i));
        } else {
            assert(next[a] == items[a]);
            assert(completion_proven(items, deps, a));
        }
        assert forall|c: int| 0 <= c < next[a].criteria@.len() implies criterion_verified(
            #[trigger] next[a].criteria@[c],
            next[a].revision,
        ) by {
            assert(next[a].criteria == items[a].criteria);
            assert(criterion_verified(items[a].criteria@[c], items[a].revision));
        }
        assert forall|j: int|
            0 <= j < next.len() && #[trigger] dep_edge(deps)(
                next[a].id@,
                next[j].id@,
            ) implies next[j].status == WorkItemStatus::Completed by {
            assert(next[j].id == items[j].id);
            assert(dep_edge(deps)(items[a].id@, items[j].id@));
            assert(items[j].status == WorkItemStatus::Completed);
            assert(j != i);
            assert(next[j] == items[j]);
        }
    }
}

/// The work items a change of the work item at `w` reaches take in every
/// work item that depends directly on one of them.
pub proof fn lemma_impacted_closed(items: Seq<WorkItem>, deps: Seq<(WorkItemId, WorkItemId)>, w: int)
    requires
        0 <= w < items.len(),
    ensures
        impacted(items, deps, items[w].id@)(w),
        forall|i: int, j: int|
            0 <= i < items.len() && 0 <= j < items.len() && i != w && #[trigger] dep_edge(deps)(
                items[i].id@,
                items[j].id@,
            ) && (impacted(items, deps, items[w].id@)(j) || (j == w && items[w].status
                == WorkItemStatus::Completed)) ==> impacted(items, deps, items[w].id@)(i),
{
    let root = items[w].id@;
    lemma_reaches_refl(dep_edge(deps), root);
    assert forall|i: int, j: int|
        0 <= i < items.len() && 0 <= j < items.len() && i != w && #[trigger] dep_edge(deps)(
            items[i].id@,
            items[j].id@,
        ) && (impacted(items, deps, root)(j) || (j == w && items[w].status
            == WorkItemStatus::Completed)) implies impacted(items, deps, root)(i) by {
        assert(depends_on(deps, items[j].id@, root));
        lemma_reaches_refl(dep_edge(deps), items[i].id@);
        lemma_reaches_step(dep_edge(deps), items[i].id@, items[i].id@, items[j].id@);
        lemma_reaches_trans(dep_edge(deps), items[i].id@, items[j].id@, root);
    }
}

/// The work items that depend on the one at `w` take in every other work
/// item that depends directly on one of them or on `w`.
pub proof fn lemma_dependents_closed(items: Seq<WorkItem>, deps: Seq<(WorkItemId, WorkItemId)>, w: int)
    requires
        0 <= w < items.len(),
        keys_sorted(items),
    ensures
        forall|i: int, j: int|
            0 <= i < items.len() && 0 <= j < items.len() && i != w && #[trigger] dep_edge(deps)(
                items[i].id@,
                items[j].id@,
            ) && (dependents(items, deps, items[w].id@)(j) || (j == w && items[w].status
                == WorkItemStatus::Completed)) ==> dependents(items, deps, items[w].id@)(i),
{
    let root = items[w].id@;
    lemma_reaches_refl(dep_edge(deps), root);
    assert forall|i: int, j: int|
        0 <= i < items.len() && 0 <= j < items.len() && i != w && #[trigger] dep_edge(deps)(
            items[i].id@,
            items[j].id@,
        ) && (dependents(items, deps, root)(j) || (j == w && items[w].status
            == WorkItemStatus::Completed)) implies dependents(items, deps, root)(i) by {
        assert(depends_on(deps, items[j].id@, root));
        lemma_reaches_refl(dep_edge(deps), items[i].id@);
        lemma_reaches_step(dep_edge(deps), items[i].id@, items[i].id@, items[j].id@);
        lemma_reaches_trans(dep_edge(deps), items[i].id@, items[j].id@, root);
        assert(items[i].key() != items[w].key()) by {
            crate::text::lemma_text_order();
            if i < w {
                assert(crate::text::text_lt(items[i].key(), items[w].key()));
            } else {
                assert(crate::text::text_lt(items[w].key(), items[i].key()));
            }
        }
    }
}

/// A change that moves the selected work items to a new revision, touches
/// only the work item at `w` besides and leaves it not completed, adds edges
/// only from `w`, and keeps the prerequisites acyclic and the verifications
/// distinct and numbered, keeps a sound plan sound; provided the selection
/// takes in every work item that depends directly on a selected one, or on
/// `w` when `w` was completed.
pub proof fn lemma_change_sound(before: Plan, after: Plan, sel: spec_fn(int) -> bool, w: int)
    requires
        before.sound(),
        after.wf(),
        acyclic(after.deps()),
        verification_ids_unique(after.items()),
        attempts_numbered(after.items()),
        0 <= w < before.items().len(),
        after.items().len() == before.items().len(),
        forall|i: int|
            0 <= i < before.items().len() ==> (#[trigger] after.items()[i]).id
                == before.items()[i].id,
        forall|i: int|
            0 <= i < before.items().len() && #[trigger] sel(i) ==> after.items()[i].status
                != WorkItemStatus::Completed,
        forall|i: int|
            0 <= i < before.items().len() && !sel(i) && i != w ==> #[trigger] after.items()[i]
                == before.items()[i],
        after.items()[w].status != WorkItemStatus::Completed,
        forall|a: Seq<char>, b: Seq<char>|
            #[trigger] dep_edge(after.deps())(a, b) ==> dep_edge(before.deps())(a, b) || a
                == before.items()[w].id@,
        forall|i: int, j: int|
            0 <= i < before.items().len() && 0 <= j < before.items().len() && i != w
                && #[trigger] dep_edge(before.deps())(
                before.items()[i].id@,
                before.items()[j].id@,
            ) && (sel(j) || (j == w && before.items()[w].status == WorkItemStatus::Completed))
                ==> sel(i),
    ensures
        after.sound(),
{
    lemma_bump_justified(before.items(), before.deps(), after.items(), after.deps(), sel, w);
}

/// Adding a criterion with no verifications to the work item at `w` keeps
/// verifications numbered.
pub proof fn lemma_attempts_new_criterion(before: Seq<WorkItem>, after: Seq<WorkItem>, w: int)
    requires
        attempts_numbered(before),
        after.len() == before.len(),
        0 <= w < before.len(),
        forall|i: int| 0 <= i < before.len() && i != w ==> (#[trigger] after[i]).criteria == before[i].criteria,
        after[w].criteria@.len() == before[w].criteria@.len() + 1,
        forall|c: int| 0 <= c < before[w].criteria@.len() ==> #[trigger] after[w].criteria@[c] == before[w].criteria@[c],
        after[w].criteria@.last().verifications@.len() == 0,
    ensures
        attempts_numbered(after),
{
    assert forall|i: int, c: int, v: int|
        #![trigger after[i].criteria@[c].verifications@[v]]
        verification_at(after, i, c, v) implies {
        let x = after[i].criteria@[c].verifications@[v];
        &&& x.attempt == v + 1
        &&& x.criterion_id@ == after[i].criteria@[c].id@
        &&& x.result == VerificationResult::Pass ==> x.evidence@.len() > 0
    } by {
        if i != w {
            assert(after[i].criteria == before[i].criteria);
        } else {
            assert(c < before[w].criteria@.len());
            assert(after[w].criteria@[c] == before[w].criteria@[c]);
        }
        assert(verification_at(before, i, c, v));
        assert(before[i].criteria@[c].verifications@[v] == before[i].criteria@[c].verifications@[v]);
    }
}

/// Appending to criterion `c` of the work item at `w` a verification that
/// names the criterion, is numbered as the next attempt and, when it passed,
/// cites evidence keeps verifications numbered.
pub proof fn lemma_attempts_append(
    before: Seq<WorkItem>,
    after: Seq<WorkItem>,
    w: int,
    c: int,
    added: Verification,
)
    requires
        attempts_numbered(before),
        after.len() == before.len(),
        0 <= w < before.len(),
        0 <= c < before[w].criteria@.len(),
        forall|i: int| 0 <= i < before.len() && i != w ==> (#[trigger] after[i]).criteria == before[i].criteria,
        after[w].criteria@.len() == before[w].criteria@.len(),
        forall|d: int| 0 <= d < before[w].criteria@.len() && d != c ==> #[trigger] after[w].criteria@[d] == before[w].criteria@[d],
        after[w].criteria@[c].id == before[w].criteria@[c].id,
        after[w].criteria@[c].verifications@ == before[w].criteria@[c].verifications@.push(added),
        added.attempt == before[w].criteria@[c].verifications@.len() + 1,
        added.criterion_id@ == before[w].criteria@[c].id@,
        added.result == VerificationResult::Pass ==> added.evidence@.len() > 0,
    ensures
        attempts_numbered(after),
{
    let n = before[w].criteria@[c].verifications@.len();
    assert forall|i: int, d: int, v: int|
        #![trigger after[i].criteria@[d].verifications@[v]]
        verification_at(after, i, d, v) implies {
        let x = after[i].criteria@[d].verifications@[v];
        &&& x.attempt == v + 1
        &&& x.criterion_id@ == after[i].criteria@[d].id@
        &&& x.result == VerificationResult::Pass ==> x.evidence@.len() > 0
    } by {
        if i != w {
            assert(after[i].criteria == before[i].criteria);
            assert(verification_at(before, i, d, v));
            assert(before[i].criteria@[d].verifications@[v] == before[i].criteria@[d].verifications@[v]);
        } else if d != c {
            assert(after[w].criteria@[d] == before[w].criteria@[d]);
            assert(verification_at(before, i, d, v));
            assert(before[i].criteria@[d].verifications@[v] == before[i].criteria@[d].verifications@[v]);
        } else if v < n {
            assert(after[w].criteria@[c].verifications@[v] == before[w].criteria@[c].verifications@[v]);
            assert(verification_at(before, w, c, v));
            assert(before[w].criteria@[c].verifications@[v] == before[w].criteria@[c].verifications@[v]);
        } else {
            assert(after[w].criteria@[c].verifications@[v] == added);
        }
    }
}

} // verus!

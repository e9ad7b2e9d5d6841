//! Acceptance criteria and the revision-pinned verification attempts
//! recorded against them.
use vstd::prelude::*;

use crate::ids::{CriterionId, VerificationId, WorkItemId};
use crate::keyed::{has_key, key_index, lemma_key_index, locate, Keyed};
use crate::model::{
    AcceptanceCriterion, PlanError, Verification, VerificationInput, VerificationResult, WorkItem,
    WorkItemStatus,
};
use crate::plan::{
    bump_where, depends_on, impacted, item_of, lemma_selection_agree, lemma_wf_same_keys,
    revisable_where, Plan,
};
use crate::sound::{
    lemma_attempts_append, lemma_attempts_new_criterion, lemma_change_sound,
    lemma_dependents_closed, lemma_impacted_closed,
};
use crate::text::{blank, is_blank};

verus! {

/// Some verification anywhere in the plan already has identifier `id`.
pub open spec fn verification_id_taken(items: Seq<WorkItem>, id: Seq<char>) -> bool {
    exists|i: int, c: int, v: int|
        0 <= i < items.len() && 0 <= c < items[i].criteria@.len() && 0 <= v
            < items[i].criteria@[c].verifications@.len()
            && (#[trigger] items[i].criteria@[c].verifications@[v]).id@ == id
}

/// `(i, c, v)` locates a verification: of work item `i`, criterion `c`,
/// attempt `v`.
pub open spec fn verification_at(items: Seq<WorkItem>, i: int, c: int, v: int) -> bool {
    &&& 0 <= i < items.len()
    &&& 0 <= c < items[i].criteria@.len()
    &&& 0 <= v < items[i].criteria@[c].verifications@.len()
}

/// No two verifications in the plan share an identifier.
pub open spec fn verification_ids_unique(items: Seq<WorkItem>) -> bool {
    forall|i1: int, c1: int, v1: int, i2: int, c2: int, v2: int|
        #![trigger items[i1].criteria@[c1].verifications@[v1], items[i2].criteria@[c2].verifications@[v2]]
        verification_at(items, i1, c1, v1) && verification_at(items, i2, c2, v2) && (i1, c1, v1)
            != (i2, c2, v2) ==> items[i1].criteria@[c1].verifications@[v1].id@
            != items[i2].criteria@[c2].verifications@[v2].id@
}

/// Changes that keep every work item's criteria keep verification
/// identifiers unique.
pub proof fn lemma_same_criteria_keep_ids_unique(before: Seq<WorkItem>, after: Seq<WorkItem>)
    requires
        verification_ids_unique(before),
        after.len() == before.len(),
        forall|i: int| 0 <= i < before.len() ==> (#[trigger] after[i]).criteria == before[i].criteria,
    ensures
        verification_ids_unique(after),
{
    assert forall|a: int, c: int, v: int| #[trigger] verification_at(after, a, c, v) implies verification_at(
        before,
        a,
        c,
        v,
    ) && after[a].criteria@[c].verifications@[v] == before[a].criteria@[c].verifications@[v] by {
        assert(after[a].criteria == before[a].criteria);
    }
    crate::laws::law_no_new_verification_keeps_ids_unique(before, after);
}

/// Appending a verification whose identifier is not taken, and changing
/// nothing else about verifications, keeps identifiers unique.
pub proof fn lemma_append_keeps_ids_unique(
    before: Seq<WorkItem>,
    after: Seq<WorkItem>,
    i: int,
    c: int,
    added: Verification,
)
    requires
        verification_ids_unique(before),
        !verification_id_taken(before, added.id@),
        after.len() == before.len(),
        0 <= i < before.len(),
        0 <= c < before[i].criteria@.len(),
        forall|j: int| 0 <= j < before.len() && j != i ==> (#[trigger] after[j]).criteria == before[j].criteria,
        after[i].criteria@.len() == before[i].criteria@.len(),
        forall|d: int|
            0 <= d < before[i].criteria@.len() && d != c ==> (#[trigger] after[i].criteria@[d]).verifications
                == before[i].criteria@[d].verifications,
        after[i].criteria@[c].verifications@ == before[i].criteria@[c].verifications@.push(added),
    ensures
        verification_ids_unique(after),
{
    let n = before[i].criteria@[c].verifications@.len();
    assert forall|i1: int, c1: int, v1: int|
        #[trigger] verification_at(after, i1, c1, v1) && !(i1 == i && c1 == c && v1 == n) implies
        verification_at(before, i1, c1, v1) && after[i1].criteria@[c1].verifications@[v1]
            == before[i1].criteria@[c1].verifications@[v1] by {
        if i1 != i {
            assert(after[i1].criteria == before[i1].criteria);
        } else if c1 != c {
            assert(after[i].criteria@[c1].verifications == before[i].criteria@[c1].verifications);
        }
    }
    assert forall|i1: int, c1: int, v1: int, i2: int, c2: int, v2: int|
        #![trigger after[i1].criteria@[c1].verifications@[v1], after[i2].criteria@[c2].verifications@[v2]]
        verification_at(after, i1, c1, v1) && verification_at(after, i2, c2, v2) && (i1, c1, v1)
            != (i2, c2, v2) implies after[i1].criteria@[c1].verifications@[v1].id@
        != after[i2].criteria@[c2].verifications@[v2].id@ by {
        let new1 = i1 == i && c1 == c && v1 == n;
        let new2 = i2 == i && c2 == c && v2 == n;
        assert(verification_at(after, i1, c1, v1));
        assert(verification_at(after, i2, c2, v2));
        if new1 {
            assert(after[i1].criteria@[c1].verifications@[v1] == added);
            assert(before[i2].criteria@[c2].verifications@[v2].id@ != added.id@);
        } else if new2 {
            assert(after[i2].criteria@[c2].verifications@[v2] == added);
            assert(before[i1].criteria@[c1].verifications@[v1].id@ != added.id@);
        } else {
            assert(before[i1].criteria@[c1].verifications@[v1].id@
                != before[i2].criteria@[c2].verifications@[v2].id@);
        }
    }
}

/// The position of the first criterion with identifier `id`.
pub open spec fn criterion_position(criteria: Seq<AcceptanceCriterion>, id: Seq<char>) -> int {
    choose|c: int|
        0 <= c < criteria.len() && (#[trigger] criteria[c]).id@ == id && forall|x: int|
            0 <= x < c ==> criteria[x].id@ != id
}

/// The work items that depend on `root`, other than `root` itself.
pub open spec fn dependents(
    items: Seq<WorkItem>,
    deps: Seq<(crate::ids::WorkItemId, crate::ids::WorkItemId)>,
    root: Seq<char>,
) -> spec_fn(int) -> bool {
    |i: int| depends_on(deps, items[i].id@, root) && items[i].id@ != root
}

/// The verification that `record_verification` appends for `input`, as the
/// attempt after `previous` earlier ones.
pub open spec fn recorded(input: VerificationInput, previous: nat) -> Verification {
    Verification {
        id: input.id,
        criterion_id: input.criterion_id,
        subject_revision: input.subject_revision,
        evidence: input.evidence,
        result: input.result,
        verifier: input.verifier,
        attempt: (previous + 1) as u64,
    }
}

/// The position of the first criterion with identifier `id`, if any.
fn find_criterion(criteria: &Vec<AcceptanceCriterion>, id: &CriterionId) -> (r: Option<usize>)
    ensures
        r is None <==> !has_key(criteria@, id@),
        r matches Some(c) ==> c == criterion_position(criteria@, id@) && c < criteria@.len()
            && criteria@[c as int].id@ == id@,
{
    let mut c: usize = 0;
    while c < criteria.len()
        invariant
            c <= criteria@.len(),
            forall|x: int| 0 <= x < c ==> (#[trigger] criteria@[x]).id@ != id@,
        decreases criteria.len() - c,
    {
        if criteria[c].id.same_as(id) {
            proof {
                assert(criteria@[c as int].key() == id@);
                let p = criterion_position(criteria@, id@);
                assert(0 <= p < criteria@.len() && criteria@[p].id@ == id@ && forall|x: int|
                    0 <= x < p ==> criteria@[x].id@ != id@);
                if p < c {
                    assert(criteria@[p].id@ != id@);
                }
                if c < p {
                    assert(criteria@[c as int].id@ != id@);
                }
            }
            return Some(c);
        }
        c = c + 1;
    }
    proof {
        if has_key(criteria@, id@) {
            let x = choose|x: int| 0 <= x < criteria@.len() && #[trigger] criteria@[x].key() == id@;
            assert(criteria@[x].id@ != id@);
        }
    }
    None
}

impl Plan {
    /// Why `add_criterion` refuses, if it does.
    pub open spec fn add_criterion_refusal(
        &self,
        work_item: WorkItemId,
        id: CriterionId,
        statement: Seq<char>,
    ) -> Option<PlanError> {
        let items = self.items();
        if blank(statement) {
            Some(PlanError::EmptyText("criterion statement"))
        } else if !has_key(items, work_item@) {
            Some(PlanError::WorkItemNotFound(work_item))
        } else if !revisable_where(items, impacted(items, self.deps(), work_item@)) {
            Some(PlanError::RevisionOverflow)
        } else if has_key(item_of(items, work_item@).criteria@, id@) {
            Some(PlanError::DuplicateCriterion(id))
        } else {
            None
        }
    }

    /// Adds an acceptance criterion to a work item. The item and everything
    /// that depends on it move to a new revision.
    pub fn add_criterion(&mut self, work_item: &WorkItemId, id: CriterionId, statement: String) -> (r:
        Result<(), PlanError>)
        requires
            old(self).wf(),
        ensures
            final(self).wf(),
            match old(self).add_criterion_refusal(*work_item, id, statement@) {
                Some(e) => r == Err::<(), PlanError>(e) && *final(self) == *old(self),
                None => {
                    let bumped = bump_where(
                        old(self).items(),
                        impacted(old(self).items(), old(self).deps(), work_item@),
                    );
                    let i = key_index(old(self).items(), work_item@);
                    let criteria = final(self).items()[i].criteria@;
                    &&& r is Ok
                    &&& final(self).same_but_items(old(self))
                    &&& final(self).items() == bumped.update(
                        i,
                        WorkItem { criteria: final(self).items()[i].criteria, ..bumped[i] },
                    )
                    &&& criteria == bumped[i].criteria@.push(criteria.last())
                    &&& criteria.last().id == id
                    &&& criteria.last().statement == statement
                    &&& criteria.last().verifications@.len() == 0
                },
            },
            verification_ids_unique(old(self).items()) ==> verification_ids_unique(
                final(self).items(),
            ),
            final(self).follows(old(self)),
    {
        proof {
            self.reveal_fields();
        }
        if is_blank(statement.as_str()) {
            return Err(PlanError::EmptyText("criterion statement"));
        }
        let (i, found) = locate(&self.work_items, work_item.as_str());
        if !found {
            return Err(PlanError::WorkItemNotFound(work_item.clone()));
        }
        let cascade = self.impacted_items(work_item);
        proof {
            lemma_selection_agree(
                self.items(),
                |j: int| has_key(cascade@, self.items()[j].key()),
                impacted(self.items(), self.deps(), work_item@),
            );
        }
        if let Err(e) = self.ensure_revision_capacity(&cascade) {
            return Err(e);
        }
        proof {
            lemma_key_index(self.items(), work_item@, i as int);
        }
        if find_criterion(&self.work_items[i].criteria, &id).is_some() {
            return Err(PlanError::DuplicateCriterion(id));
        }
        self.bump_revisions(&cascade);
        let ghost mid = *self;
        proof {
            self.reveal_fields();
        }
        let mut item = self.work_items.remove(i);
        item.criteria.push(AcceptanceCriterion { id, statement, verifications: Vec::new() });
        self.work_items.insert(i, item);
        proof {
            mid.reveal_fields();
            self.reveal_fields();
            old(self).reveal_fields();
            lemma_key_index(old(self).items(), work_item@, i as int);
            assert(self.items() =~= mid.items().update(
                i as int,
                WorkItem { criteria: self.items()[i as int].criteria, ..mid.items()[i as int] },
            ));
            assert(self.items()[i as int].criteria@ =~= mid.items()[i as int].criteria@.push(
                self.items()[i as int].criteria@.last(),
            ));
            lemma_wf_same_keys(mid, *self);
            if verification_ids_unique(old(self).items()) {
                assert forall|a: int, c: int, v: int|
                    #[trigger] verification_at(self.items(), a, c, v) implies verification_at(
                    old(self).items(),
                    a,
                    c,
                    v,
                ) && self.items()[a].criteria@[c].verifications@[v]
                    == old(self).items()[a].criteria@[c].verifications@[v] by {
                    assert(mid.items()[a].criteria == old(self).items()[a].criteria);
                    if a == i {
                        assert(c < mid.items()[a].criteria@.len());
                        assert(self.items()[a].criteria@[c] == mid.items()[a].criteria@[c]);
                    }
                }
                crate::laws::law_no_new_verification_keeps_ids_unique(
                    old(self).items(),
                    self.items(),
                );
            }
            if old(self).sound() {
                let items = old(self).items();
                lemma_impacted_closed(items, old(self).deps(), i as int);
                assert forall|c: int| 0 <= c < items[i as int].criteria@.len() implies #[trigger] self.items()[i as int].criteria@[c]
                    == items[i as int].criteria@[c] by {
                    assert(mid.items()[i as int].criteria == items[i as int].criteria);
                }
                lemma_attempts_new_criterion(items, self.items(), i as int);
                lemma_change_sound(
                    *old(self),
                    *self,
                    impacted(items, old(self).deps(), work_item@),
                    i as int,
                );
            }
        }
        Ok(())
    }

    /// Whether some verification in the plan already has identifier `id`.
    fn verification_exists(&self, id: &VerificationId) -> (r: bool)
        ensures
            r == verification_id_taken(self.items(), id@),
    {
        proof {
            self.reveal_fields();
        }
        let items = &self.work_items;
        let mut i: usize = 0;
        while i < items.len()
            invariant
                items@ == self.items(),
                i <= items@.len(),
                forall|x: int, c: int, v: int|
                    0 <= x < i && 0 <= c < items@[x].criteria@.len() && 0 <= v
                        < items@[x].criteria@[c].verifications@.len() ==> (
                    #[trigger] items@[x].criteria@[c].verifications@[v]).id@ != id@,
            decreases items.len() - i,
        {
            let criteria = &items[i].criteria;
            let mut c: usize = 0;
            while c < criteria.len()
                invariant
                    items@ == self.items(),
                    i < items@.len(),
                    criteria == items@[i as int].criteria,
                    c <= criteria@.len(),
                    forall|x: int, c: int, v: int|
                        0 <= x < i && 0 <= c < items@[x].criteria@.len() && 0 <= v
                            < items@[x].criteria@[c].verifications@.len() ==> (
                        #[trigger] items@[x].criteria@[c].verifications@[v]).id@ != id@,
                    forall|y: int, v: int|
                        0 <= y < c && 0 <= v < criteria@[y].verifications@.len() ==> (
                        #[trigger] criteria@[y].verifications@[v]).id@ != id@,
                decreases criteria.len() - c,
            {
                let verifications = &criteria[c].verifications;
                let mut v: usize = 0;
                while v < verifications.len()
                    invariant
                        items@ == self.items(),
                        i < items@.len(),
                        criteria == items@[i as int].criteria,
                        c < criteria@.len(),
                        verifications == criteria@[c as int].verifications,
                        v <= verifications@.len(),
                        forall|w: int| 0 <= w < v ==> (#[trigger] verifications@[w]).id@ != id@,
                    decreases verifications.len() - v,
                {
                    if verifications[v].id.same_as(id) {
                        assert(items@[i as int].criteria@[c as int].verifications@[v as int].id@
                            == id@);
                        return true;
                    }
                    v = v + 1;
                }
                c = c + 1;
            }
            i = i + 1;
        }
        false
    }

    /// Why `record_verification` refuses, if it does.
    pub open spec fn record_verification_refusal(
        &self,
        work_item: WorkItemId,
        input: VerificationInput,
    ) -> Option<PlanError> {
        let items = self.items();
        let item = item_of(items, work_item@);
        let c = criterion_position(item.criteria@, input.criterion_id@);
        if blank(input.verifier@) {
            Some(PlanError::EmptyVerifier)
        } else if input.result == VerificationResult::Pass && input.evidence@.len() == 0 {
            Some(PlanError::PassRequiresEvidence)
        } else if verification_id_taken(items, input.id@) {
            Some(PlanError::DuplicateVerification(input.id))
        } else if !has_key(items, work_item@) {
            Some(PlanError::WorkItemNotFound(work_item))
        } else if item.revision != input.subject_revision {
            Some(
                PlanError::StaleVerification {
                    expected: item.revision,
                    actual: input.subject_revision,
                },
            )
        } else if !has_key(item.criteria@, input.criterion_id@) {
            Some(PlanError::CriterionNotFound(input.criterion_id))
        } else if item.status == WorkItemStatus::Completed && !revisable_where(
            items,
            dependents(items, self.deps(), work_item@),
        ) {
            Some(PlanError::RevisionOverflow)
        } else if item.criteria@[c].verifications@.len() >= u64::MAX {
            Some(PlanError::AttemptOverflow)
        } else {
            None
        }
    }

    /// Records a verification attempt for a criterion of a work item, pinned
    /// to the item's current revision. Completed work reopens, and work that
    /// depends on it moves to a new revision and reopens too.
    #[verifier::rlimit(40)]
    #[verifier::spinoff_prover]
    pub fn record_verification(&mut self, work_item: &WorkItemId, input: VerificationInput) -> (r:
        Result<(), PlanError>)
        requires
            old(self).wf(),
        ensures
            final(self).wf(),
            match old(self).record_verification_refusal(*work_item, input) {
                Some(e) => r == Err::<(), PlanError>(e) && *final(self) == *old(self),
                None => {
                    let items = old(self).items();
                    let i = key_index(items, work_item@);
                    let item = items[i];
                    let c = criterion_position(item.criteria@, input.criterion_id@);
                    let criterion = item.criteria@[c];
                    let bumped = if item.status == WorkItemStatus::Completed {
                        bump_where(items, dependents(items, old(self).deps(), work_item@))
                    } else {
                        items
                    };
                    let after = final(self).items()[i];
                    &&& r is Ok
                    &&& final(self).same_but_items(old(self))
                    &&& final(self).items() == bumped.update(
                        i,
                        WorkItem {
                            criteria: after.criteria,
                            status: if item.status == WorkItemStatus::Completed {
                                WorkItemStatus::Planned
                            } else {
                                item.status
                            },
                            ..item
                        },
                    )
                    &&& after.criteria@ == item.criteria@.update(
                        c,
                        AcceptanceCriterion {
                            verifications: after.criteria@[c].verifications,
                            ..criterion
                        },
                    )
                    &&& after.criteria@[c].verifications@ == criterion.verifications@.push(
                        recorded(input, criterion.verifications@.len()),
                    )
                },
            },
            verification_ids_unique(old(self).items()) ==> verification_ids_unique(
                final(self).items(),
            ),
            final(self).follows(old(self)),
    {
        proof {
            self.reveal_fields();
        }
        if is_blank(input.verifier.as_str()) {
            return Err(PlanError::EmptyVerifier);
        }
        if input.result == VerificationResult::Pass && input.evidence.len() == 0 {
            return Err(PlanError::PassRequiresEvidence);
        }
        if self.verification_exists(&input.id) {
            return Err(PlanError::DuplicateVerification(input.id));
        }
        let (i, found) = locate(&self.work_items, work_item.as_str());
        if !found {
            return Err(PlanError::WorkItemNotFound(work_item.clone()));
        }
        proof {
            lemma_key_index(self.items(), work_item@, i as int);
        }
        let item = &self.work_items[i];
        if item.revision != input.subject_revision {
            return Err(
                PlanError::StaleVerification {
                    expected: item.revision,
                    actual: input.subject_revision,
                },
            );
        }
        let c = match find_criterion(&item.criteria, &input.criterion_id) {
            Some(c) => c,
            None => {
                return Err(PlanError::CriterionNotFound(input.criterion_id));
            },
        };
        let completed = item.status == WorkItemStatus::Completed;
        let previous = item.criteria[c].verifications.len();
        let cascade = if completed {
            self.dependents_of(work_item)
        } else {
            Vec::new()
        };
        proof {
            let sel = |j: int| has_key(cascade@, self.items()[j].key());
            if completed {
                lemma_selection_agree(
                    self.items(),
                    sel,
                    dependents(self.items(), self.deps(), work_item@),
                );
            } else {
                assert forall|j: int| 0 <= j < self.items().len() implies !#[trigger] sel(j) by {
                    if sel(j) {
                        let a = choose|a: int| 0 <= a < cascade@.len() && #[trigger] cascade@[a].key() == self.items()[j].key();
                    }
                }
                assert(bump_where(self.items(), sel) =~= self.items());
            }
        }
        if let Err(e) = self.ensure_revision_capacity(&cascade) {
            return Err(e);
        }
        if previous as u64 == u64::MAX {
            return Err(PlanError::AttemptOverflow);
        }
        let attempt = previous as u64 + 1;
        let ghost given = input;
        let VerificationInput { id, criterion_id, subject_revision, evidence, result, verifier } =
            input;
        self.bump_revisions(&cascade);
        let ghost mid = *self;
        proof {
            self.reveal_fields();
            assert(self.items()[i as int] == old(self).items()[i as int]);
        }
        let mut item = self.work_items.remove(i);
        let mut criterion = item.criteria.remove(c);
        criterion.verifications.push(
            Verification { id, criterion_id, subject_revision, evidence, result, verifier, attempt },
        );
        item.criteria.insert(c, criterion);
        if item.status == WorkItemStatus::Completed {
            item.status = WorkItemStatus::Planned;
        }
        self.work_items.insert(i, item);
        proof {
            mid.reveal_fields();
            self.reveal_fields();
            old(self).reveal_fields();
            let after = self.items()[i as int];
            let before = old(self).items()[i as int];
            assert(after.criteria@ =~= before.criteria@.update(
                c as int,
                AcceptanceCriterion {
                    verifications: after.criteria@[c as int].verifications,
                    ..before.criteria@[c as int]
                },
            ));
            assert(self.items() =~= mid.items().update(
                i as int,
                WorkItem {
                    criteria: after.criteria,
                    status: if before.status == WorkItemStatus::Completed {
                        WorkItemStatus::Planned
                    } else {
                        before.status
                    },
                    ..before
                },
            ));
            lemma_wf_same_keys(mid, *self);
            if verification_ids_unique(old(self).items()) {
                let added = self.items()[i as int].criteria@[c as int].verifications@.last();
                assert forall|j: int|
                    0 <= j < old(self).items().len() && j != i implies (#[trigger] self.items()[j]).criteria
                    == old(self).items()[j].criteria by {
                    assert(self.items()[j] == mid.items()[j]);
                }
                assert forall|d: int|
                    0 <= d < old(self).items()[i as int].criteria@.len() && d != c implies (
                    #[trigger] self.items()[i as int].criteria@[d]).verifications
                    == old(self).items()[i as int].criteria@[d].verifications by {
                    assert(self.items()[i as int].criteria@[d] == old(self).items()[i as int].criteria@[d]);
                }
                lemma_append_keeps_ids_unique(
                    old(self).items(),
                    self.items(),
                    i as int,
                    c as int,
                    added,
                );
            }
            if old(self).sound() {
                lemma_recorded_sound(
                    *old(self),
                    *self,
                    i as int,
                    c as int,
                    recorded(given, previous as nat),
                );
            }
        }
        Ok(())
    }
}

/// Recording a verification keeps a sound plan sound.
proof fn lemma_recorded_sound(before: Plan, after: Plan, w: int, c: int, added: Verification)
    requires
        before.sound(),
        after.wf(),
        after.same_but_items(&before),
        verification_ids_unique(after.items()),
        0 <= w < before.items().len(),
        0 <= c < before.items()[w].criteria@.len(),
        after.items() == ({
            let items = before.items();
            let item = items[w];
            let bumped = if item.status == WorkItemStatus::Completed {
                bump_where(items, dependents(items, before.deps(), item.id@))
            } else {
                items
            };
            bumped.update(
                w,
                WorkItem {
                    criteria: after.items()[w].criteria,
                    status: if item.status == WorkItemStatus::Completed {
                        WorkItemStatus::Planned
                    } else {
                        item.status
                    },
                    ..item
                },
            )
        }),
        after.items()[w].criteria@ == before.items()[w].criteria@.update(
            c,
            AcceptanceCriterion {
                verifications: after.items()[w].criteria@[c].verifications,
                ..before.items()[w].criteria@[c]
            },
        ),
        after.items()[w].criteria@[c].verifications@ == before.items()[w].criteria@[c].verifications@.push(
            added,
        ),
        added.attempt == before.items()[w].criteria@[c].verifications@.len() + 1,
        added.criterion_id@ == before.items()[w].criteria@[c].id@,
        added.result == VerificationResult::Pass ==> added.evidence@.len() > 0,
    ensures
        after.sound(),
{
    let items = before.items();
    let deps = before.deps();
    let next = after.items();
    let completed = items[w].status == WorkItemStatus::Completed;
    let sel = if completed {
        dependents(items, deps, items[w].id@)
    } else {
        |j: int| false
    };
    assert forall|j: int| 0 <= j < items.len() && j != w implies (#[trigger] next[j]).criteria
        == items[j].criteria by {
    }
    assert forall|d: int| 0 <= d < items[w].criteria@.len() && d != c implies #[trigger] next[w].criteria@[d]
        == items[w].criteria@[d] by {
    }
    lemma_attempts_append(items, next, w, c, added);
    assert forall|j: int| 0 <= j < items.len() implies (#[trigger] next[j]).id == items[j].id by {
    }
    assert forall|j: int| 0 <= j < items.len() && #[trigger] sel(j) implies next[j].status
        != WorkItemStatus::Completed by {
    }
    assert forall|j: int| 0 <= j < items.len() && !sel(j) && j != w implies #[trigger] next[j]
        == items[j] by {
    }
    if completed {
        lemma_dependents_closed(items, deps, w);
    }
    lemma_change_sound(before, after, sel, w);
}

} // verus!

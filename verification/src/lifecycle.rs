//! The life of a work item: creation, status transitions, prerequisites,
//! revision and completion.
use vstd::prelude::*;

use crate::criteria::{lemma_same_criteria_keep_ids_unique, verification_at, verification_ids_unique};
use crate::graph::{lemma_reaches_step, lemma_reaches_with_edge};
use crate::edges::{edge_position, edge_slot, lemma_edge_insert_sorted};
use crate::ids::WorkItemId;
use crate::keyed::{
    has_key, key_index, lemma_insert_has_key, lemma_insert_sorted, lemma_key_index, locate, slot,
    Keyed,
};
use crate::model::{AcceptanceCriterion, PlanError, VerificationResult, WorkItem, WorkItemStatus};
use crate::plan::{
    acyclic, bump_where, dep_edge, depends_on, impacted, item_of, lemma_selection_agree,
    lemma_wf_new_items, lemma_wf_same_keys, revisable_where, Plan,
};
use crate::sound::{
    completion_proven, lemma_change_sound, lemma_impacted_closed, lemma_same_criteria_keep_attempts,
    lemma_status_sound,
};
use crate::text::{blank, is_blank};

verus! {

/// `item` is what `add_work_item` creates.
pub open spec fn new_work_item(item: WorkItem, id: WorkItemId, title: String) -> bool {
    &&& item.id == id
    &&& item.title == title
    &&& item.status == WorkItemStatus::Planned
    &&& item.revision == 1
    &&& item.criteria@.len() == 0
}

/// The work items with the one named `id` moved to `status`.
pub open spec fn with_status(items: Seq<WorkItem>, id: Seq<char>, status: WorkItemStatus) -> Seq<
    WorkItem,
> {
    items.update(key_index(items, id), WorkItem { status, ..item_of(items, id) })
}

/// The latest verification of `c` passed, with evidence, on `revision`.
pub open spec fn criterion_verified(c: AcceptanceCriterion, revision: u64) -> bool {
    &&& c.verifications@.len() > 0
    &&& c.verifications@.last().result == VerificationResult::Pass
    &&& c.verifications@.last().subject_revision == revision
    &&& c.verifications@.last().evidence@.len() > 0
}

/// The work item at `j` is a direct prerequisite of `id` that is not completed.
pub open spec fn open_prerequisite(
    items: Seq<WorkItem>,
    deps: Seq<(WorkItemId, WorkItemId)>,
    id: Seq<char>,
    j: int,
) -> bool {
    &&& 0 <= j < items.len()
    &&& dep_edge(deps)(id, items[j].id@)
    &&& items[j].status != WorkItemStatus::Completed
}

/// The first open prerequisite of `id` in identifier order.
pub open spec fn first_open_prerequisite(
    items: Seq<WorkItem>,
    deps: Seq<(WorkItemId, WorkItemId)>,
    id: Seq<char>,
) -> int {
    choose|j: int|
        #[trigger] open_prerequisite(items, deps, id, j) && forall|i: int|
            0 <= i < j ==> !open_prerequisite(items, deps, id, i)
}

/// The criterion at `c` of `item` is not verified on the item's revision.
pub open spec fn unverified_criterion(item: WorkItem, c: int) -> bool {
    0 <= c < item.criteria@.len() && !criterion_verified(item.criteria@[c], item.revision)
}

/// The first criterion of `item` that is not verified.
pub open spec fn first_unverified_criterion(item: WorkItem) -> int {
    choose|c: int|
        #[trigger] unverified_criterion(item, c) && forall|i: int|
            0 <= i < c ==> !unverified_criterion(item, i)
}

impl Plan {
    /// Why `add_work_item` refuses, if it does.
    pub open spec fn add_work_item_refusal(&self, id: WorkItemId, title: Seq<char>) -> Option<
        PlanError,
    > {
        if blank(title) {
            Some(PlanError::EmptyText("work item title"))
        } else if has_key(self.items(), id@) {
            Some(PlanError::DuplicateWorkItem(id))
        } else {
            None
        }
    }

    /// Adds a planned work item at revision 1 with no criteria.
    pub fn add_work_item(&mut self, id: WorkItemId, title: String) -> (r: Result<(), PlanError>)
        requires
            old(self).wf(),
        ensures
            final(self).wf(),
            match old(self).add_work_item_refusal(id, title@) {
                Some(e) => r == Err::<(), PlanError>(e) && *final(self) == *old(self),
                None => {
                    let p = slot(old(self).items(), id@);
                    &&& r is Ok
                    &&& final(self).same_but_items(old(self))
                    &&& final(self).items() == old(self).items().insert(p, final(self).items()[p])
                    &&& new_work_item(final(self).items()[p], id, title)
                },
            },
            verification_ids_unique(old(self).items()) ==> verification_ids_unique(
                final(self).items(),
            ),
            final(self).follows(old(self)),
    {
        proof {
            self.reveal_fields();
        }
        if is_blank(title.as_str()) {
            return Err(PlanError::EmptyText("work item title"));
        }
        let (p, found) = locate(&self.work_items, id.as_str());
        if found {
            return Err(PlanError::DuplicateWorkItem(id));
        }
        let ghost before = self.work_items@;
        let item = WorkItem {
            id,
            title,
            status: WorkItemStatus::Planned,
            revision: 1,
            criteria: Vec::new(),
        };
        self.work_items.insert(p, item);
        proof {
            old(self).reveal_fields();
            self.reveal_fields();
            lemma_insert_sorted(before, p as int, self.work_items@[p as int]);
            assert forall|k: Seq<char>| #[trigger] has_key(before, k) implies has_key(
                self.work_items@,
                k,
            ) by {
                lemma_insert_has_key(before, p as int, self.work_items@[p as int], k);
            }
            lemma_wf_new_items(*old(self), *self);
            if verification_ids_unique(before) {
                let after = self.items();
                assert forall|i1: int, c1: int, v1: int, i2: int, c2: int, v2: int|
                    #![trigger after[i1].criteria@[c1].verifications@[v1], after[i2].criteria@[c2].verifications@[v2]]
                    verification_at(after, i1, c1, v1) && verification_at(after, i2, c2, v2) && (
                    i1,
                    c1,
                    v1,
                ) != (i2, c2, v2) implies after[i1].criteria@[c1].verifications@[v1].id@
                    != after[i2].criteria@[c2].verifications@[v2].id@ by {
                    let j1 = if i1 < p { i1 } else { i1 - 1 };
                    let j2 = if i2 < p { i2 } else { i2 - 1 };
                    assert(i1 != p as int && i2 != p as int);
                    assert(after[i1] == before[j1]);
                    assert(after[i2] == before[j2]);
                    assert(verification_at(before, j1, c1, v1));
                    assert(verification_at(before, j2, c2, v2));
                    assert(before[j1].criteria@[c1].verifications@[v1].id@
                        != before[j2].criteria@[c2].verifications@[v2].id@);
                }
            }
        }
        Ok(())
    }

    /// Moves the work item at `i` to `status`.
    fn set_status(&mut self, i: usize, status: WorkItemStatus)
        requires
            old(self).wf(),
            i < old(self).items().len(),
        ensures
            final(self).wf(),
            final(self).same_but_items(old(self)),
            final(self).items() == old(self).items().update(
                i as int,
                WorkItem { status, ..old(self).items()[i as int] },
            ),
            verification_ids_unique(old(self).items()) ==> verification_ids_unique(
                final(self).items(),
            ),
            old(self).sound() && old(self).items()[i as int].status != WorkItemStatus::Completed
                && (status == WorkItemStatus::Completed ==> completion_proven(
                old(self).items(),
                old(self).deps(),
                i as int,
            )) ==> final(self).sound(),
    {
        proof {
            self.reveal_fields();
        }
        let mut item = self.work_items.remove(i);
        item.status = status;
        self.work_items.insert(i, item);
        proof {
            old(self).reveal_fields();
            self.reveal_fields();
            assert(self.items() =~= old(self).items().update(
                i as int,
                WorkItem { status, ..old(self).items()[i as int] },
            ));
            lemma_wf_same_keys(*old(self), *self);
            if verification_ids_unique(old(self).items()) {
                lemma_same_criteria_keep_ids_unique(old(self).items(), self.items());
            }
            if old(self).sound() && old(self).items()[i as int].status != WorkItemStatus::Completed
                && (status == WorkItemStatus::Completed ==> completion_proven(
                old(self).items(),
                old(self).deps(),
                i as int,
            )) {
                lemma_status_sound(*old(self), *self, i as int, status);
            }
        }
    }

    /// Why `start_work` refuses, if it does.
    pub open spec fn start_work_refusal(&self, id: WorkItemId) -> Option<PlanError> {
        if !has_key(self.items(), id@) {
            Some(PlanError::WorkItemNotFound(id))
        } else {
            let from = item_of(self.items(), id@).status;
            if from == WorkItemStatus::Planned || from == WorkItemStatus::InProgress {
                None
            } else {
                Some(PlanError::InvalidTransition { from, to: WorkItemStatus::InProgress })
            }
        }
    }

    /// Starts planned work; starting work in progress keeps it in progress.
    pub fn start_work(&mut self, id: &WorkItemId) -> (r: Result<(), PlanError>)
        requires
            old(self).wf(),
        ensures
            final(self).wf(),
            match old(self).start_work_refusal(*id) {
                Some(e) => r == Err::<(), PlanError>(e) && *final(self) == *old(self),
                None => r is Ok && final(self).same_but_items(old(self)) && final(self).items()
                    == with_status(old(self).items(), id@, WorkItemStatus::InProgress),
            },
            verification_ids_unique(old(self).items()) ==> verification_ids_unique(
                final(self).items(),
            ),
            final(self).follows(old(self)),
    {
        proof {
            self.reveal_fields();
        }
        let (i, found) = locate(&self.work_items, id.as_str());
        if !found {
            return Err(PlanError::WorkItemNotFound(id.clone()));
        }
        let from = self.work_items[i].status;
        match from {
            WorkItemStatus::Planned | WorkItemStatus::InProgress => {
                self.set_status(i, WorkItemStatus::InProgress);
                Ok(())
            },
            _ => Err(PlanError::InvalidTransition { from, to: WorkItemStatus::InProgress }),
        }
    }

    /// Why `block_work` refuses, if it does.
    pub open spec fn block_work_refusal(&self, id: WorkItemId) -> Option<PlanError> {
        if !has_key(self.items(), id@) {
            Some(PlanError::WorkItemNotFound(id))
        } else {
            let from = item_of(self.items(), id@).status;
            if from == WorkItemStatus::Planned || from == WorkItemStatus::InProgress {
                None
            } else {
                Some(PlanError::InvalidTransition { from, to: WorkItemStatus::Blocked })
            }
        }
    }

    /// Marks planned or active work as blocked by an obstacle.
    pub fn block_work(&mut self, id: &WorkItemId) -> (r: Result<(), PlanError>)
        requires
            old(self).wf(),
        ensures
            final(self).wf(),
            match old(self).block_work_refusal(*id) {
                Some(e) => r == Err::<(), PlanError>(e) && *final(self) == *old(self),
                None => r is Ok && final(self).same_but_items(old(self)) && final(self).items()
                    == with_status(old(self).items(), id@, WorkItemStatus::Blocked),
            },
            verification_ids_unique(old(self).items()) ==> verification_ids_unique(
                final(self).items(),
            ),
            final(self).follows(old(self)),
    {
        proof {
            self.reveal_fields();
        }
        let (i, found) = locate(&self.work_items, id.as_str());
        if !found {
            return Err(PlanError::WorkItemNotFound(id.clone()));
        }
        let from = self.work_items[i].status;
        match from {
            WorkItemStatus::Planned | WorkItemStatus::InProgress => {
                self.set_status(i, WorkItemStatus::Blocked);
                Ok(())
            },
            _ => Err(PlanError::InvalidTransition { from, to: WorkItemStatus::Blocked }),
        }
    }

    /// Why `unblock_work` refuses, if it does.
    pub open spec fn unblock_work_refusal(&self, id: WorkItemId) -> Option<PlanError> {
        if !has_key(self.items(), id@) {
            Some(PlanError::WorkItemNotFound(id))
        } else {
            let from = item_of(self.items(), id@).status;
            if from == WorkItemStatus::Blocked {
                None
            } else {
                Some(PlanError::InvalidTransition { from, to: WorkItemStatus::Planned })
            }
        }
    }

    /// Returns blocked work to planned once its obstacle is resolved.
    pub fn unblock_work(&mut self, id: &WorkItemId) -> (r: Result<(), PlanError>)
        requires
            old(self).wf(),
        ensures
            final(self).wf(),
            match old(self).unblock_work_refusal(*id) {
                Some(e) => r == Err::<(), PlanError>(e) && *final(self) == *old(self),
                None => r is Ok && final(self).same_but_items(old(self)) && final(self).items()
                    == with_status(old(self).items(), id@, WorkItemStatus::Planned),
            },
            verification_ids_unique(old(self).items()) ==> verification_ids_unique(
                final(self).items(),
            ),
            final(self).follows(old(self)),
    {
        proof {
            self.reveal_fields();
        }
        let (i, found) = locate(&self.work_items, id.as_str());
        if !found {
            return Err(PlanError::WorkItemNotFound(id.clone()));
        }
        let from = self.work_items[i].status;
        if from != WorkItemStatus::Blocked {
            return Err(PlanError::InvalidTransition { from, to: WorkItemStatus::Planned });
        }
        self.set_status(i, WorkItemStatus::Planned);
        Ok(())
    }

    /// Why `complete` refuses, if it does.
    pub open spec fn complete_refusal(&self, id: WorkItemId) -> Option<PlanError> {
        let items = self.items();
        if !has_key(items, id@) {
            Some(PlanError::WorkItemNotFound(id))
        } else {
            let item = item_of(items, id@);
            if item.status == WorkItemStatus::Completed {
                Some(
                    PlanError::InvalidTransition {
                        from: WorkItemStatus::Completed,
                        to: WorkItemStatus::Completed,
                    },
                )
            } else if item.status == WorkItemStatus::Blocked {
                Some(
                    PlanError::InvalidTransition {
                        from: WorkItemStatus::Blocked,
                        to: WorkItemStatus::Completed,
                    },
                )
            } else if exists|j: int| #[trigger] open_prerequisite(items, self.deps(), id@, j) {
                Some(
                    PlanError::DependencyIncomplete(
                        items[first_open_prerequisite(items, self.deps(), id@)].id,
                    ),
                )
            } else if item.criteria@.len() == 0 {
                Some(PlanError::NoCriteria(id))
            } else if exists|c: int| #[trigger] unverified_criterion(item, c) {
                Some(
                    PlanError::CriterionIncomplete(
                        item.criteria@[first_unverified_criterion(item)].id,
                    ),
                )
            } else {
                None
            }
        }
    }

    /// Decides whether the work item may complete; gives its position when it
    /// may.
    fn completion_decision(&self, id: &WorkItemId) -> (r: Result<usize, PlanError>)
        requires
            self.wf(),
        ensures
            match self.complete_refusal(*id) {
                Some(e) => r == Err::<usize, PlanError>(e),
                None => r matches Ok(i) && i == key_index(self.items(), id@) && i
                    < self.items().len(),
            },
    {
        proof {
            self.reveal_fields();
        }
        let (i, found) = locate(&self.work_items, id.as_str());
        if !found {
            return Err(PlanError::WorkItemNotFound(id.clone()));
        }
        proof {
            lemma_key_index(self.items(), id@, i as int);
        }
        let current = self.work_items[i].status;
        if current == WorkItemStatus::Completed {
            return Err(
                PlanError::InvalidTransition {
                    from: WorkItemStatus::Completed,
                    to: WorkItemStatus::Completed,
                },
            );
        }
        if current == WorkItemStatus::Blocked {
            return Err(
                PlanError::InvalidTransition {
                    from: WorkItemStatus::Blocked,
                    to: WorkItemStatus::Completed,
                },
            );
        }
        let ghost items = self.items();
        let ghost deps = self.deps();
        let mut j: usize = 0;
        while j < self.work_items.len()
            invariant
                items == self.items(),
                deps == self.deps(),
                self.items() == self.work_items@,
                self.wf(),
                has_key(items, id@),
                key_index(items, id@) == i,
                i < items.len(),
                items[i as int].status != WorkItemStatus::Completed,
                items[i as int].status != WorkItemStatus::Blocked,
                j <= items.len(),
                forall|x: int| 0 <= x < j ==> !#[trigger] open_prerequisite(items, deps, id@, x),
            decreases self.work_items.len() - j,
        {
            if self.has_dependency(id, &self.work_items[j].id) && self.work_items[j].status
                != WorkItemStatus::Completed {
                proof {
                    assert(open_prerequisite(items, deps, id@, j as int));
                    let f = first_open_prerequisite(items, deps, id@);
                    assert(open_prerequisite(items, deps, id@, f) && forall|x: int|
                        0 <= x < f ==> !open_prerequisite(items, deps, id@, x));
                    if f < j {
                        assert(!open_prerequisite(items, deps, id@, f));
                    }
                    if j < f {
                        assert(!open_prerequisite(items, deps, id@, j as int));
                    }
                }
                return Err(PlanError::DependencyIncomplete(self.work_items[j].id.clone()));
            }
            j = j + 1;
        }
        let item = &self.work_items[i];
        proof {
            lemma_key_index(items, id@, i as int);
            assert forall|x: int| !#[trigger] open_prerequisite(items, deps, id@, x) by {
                if 0 <= x < items.len() {
                    assert(!open_prerequisite(items, deps, id@, x));
                }
            }
        }
        if item.criteria.len() == 0 {
            return Err(PlanError::NoCriteria(id.clone()));
        }
        let mut c: usize = 0;
        while c < item.criteria.len()
            invariant
                c <= item.criteria@.len(),
                *item == item_of(self.items(), id@),
                has_key(self.items(), id@),
                item.status != WorkItemStatus::Completed,
                item.status != WorkItemStatus::Blocked,
                item.criteria@.len() > 0,
                forall|x: int| !#[trigger] open_prerequisite(self.items(), self.deps(), id@, x),
                forall|x: int| 0 <= x < c ==> !#[trigger] unverified_criterion(*item, x),
            decreases item.criteria.len() - c,
        {
            let criterion = &item.criteria[c];
            let n = criterion.verifications.len();
            let verified = n > 0 && criterion.verifications[n - 1].result
                == VerificationResult::Pass && criterion.verifications[n - 1].subject_revision
                == item.revision && criterion.verifications[n - 1].evidence.len() > 0;
            if !verified {
                proof {
                    assert(unverified_criterion(*item, c as int));
                    let f = first_unverified_criterion(*item);
                    assert(unverified_criterion(*item, f) && forall|x: int|
                        0 <= x < f ==> !unverified_criterion(*item, x));
                    if f < c {
                        assert(!unverified_criterion(*item, f));
                    }
                    if c < f {
                        assert(!unverified_criterion(*item, c as int));
                    }
                }
                return Err(PlanError::CriterionIncomplete(criterion.id.clone()));
            }
            c = c + 1;
        }
        Ok(i)
    }

    /// Completes a work item; only when it is neither completed nor blocked,
    /// every direct prerequisite is completed, and it has criteria whose
    /// latest verifications all passed with evidence on its revision.
    pub fn complete(&mut self, id: &WorkItemId) -> (r: Result<(), PlanError>)
        requires
            old(self).wf(),
        ensures
            final(self).wf(),
            match old(self).complete_refusal(*id) {
                Some(e) => r == Err::<(), PlanError>(e) && *final(self) == *old(self),
                None => r is Ok && final(self).same_but_items(old(self)) && final(self).items()
                    == with_status(old(self).items(), id@, WorkItemStatus::Completed),
            },
            verification_ids_unique(old(self).items()) ==> verification_ids_unique(
                final(self).items(),
            ),
            final(self).follows(old(self)),
    {
        let i = match self.completion_decision(id) {
            Ok(i) => i,
            Err(e) => {
                return Err(e);
            },
        };
        proof {
            if old(self).sound() {
                crate::laws::law_completion_requires_proof(*old(self), *id);
                old(self).reveal_fields();
                let items = old(self).items();
                assert(items[i as int] == item_of(items, id@));
                assert forall|j: int|
                    0 <= j < items.len() && #[trigger] dep_edge(old(self).deps())(
                        items[i as int].id@,
                        items[j].id@,
                    ) implies items[j].status == WorkItemStatus::Completed by {
                    assert(dep_edge(old(self).deps())(id@, items[j].id@));
                }
            }
        }
        self.set_status(i, WorkItemStatus::Completed);
        Ok(())
    }

    /// Why `revise_work_item` refuses, if it does.
    pub open spec fn revise_work_item_refusal(&self, id: WorkItemId, title: Seq<char>) -> Option<
        PlanError,
    > {
        if blank(title) {
            Some(PlanError::EmptyText("work item title"))
        } else if !has_key(self.items(), id@) {
            Some(PlanError::WorkItemNotFound(id))
        } else if !revisable_where(self.items(), impacted(self.items(), self.deps(), id@)) {
            Some(PlanError::RevisionOverflow)
        } else {
            None
        }
    }

    /// Retitles a work item. The item and everything that depends on it move
    /// to a new revision, so proof pinned to the old one no longer counts.
    pub fn revise_work_item(&mut self, id: &WorkItemId, title: String) -> (r: Result<
        (),
        PlanError,
    >)
        requires
            old(self).wf(),
        ensures
            final(self).wf(),
            match old(self).revise_work_item_refusal(*id, title@) {
                Some(e) => r == Err::<(), PlanError>(e) && *final(self) == *old(self),
                None => {
                    let bumped = bump_where(
                        old(self).items(),
                        impacted(old(self).items(), old(self).deps(), id@),
                    );
                    let i = key_index(old(self).items(), id@);
                    &&& r is Ok
                    &&& final(self).same_but_items(old(self))
                    &&& final(self).items() == bumped.update(i, WorkItem { title, ..bumped[i] })
                },
            },
            verification_ids_unique(old(self).items()) ==> verification_ids_unique(
                final(self).items(),
            ),
            final(self).follows(old(self)),
    {
        proof {
            self.reveal_fields();
        }
        if is_blank(title.as_str()) {
            return Err(PlanError::EmptyText("work item title"));
        }
        let (i, found) = locate(&self.work_items, id.as_str());
        if !found {
            return Err(PlanError::WorkItemNotFound(id.clone()));
        }
        let cascade = self.impacted_items(id);
        proof {
            lemma_selection_agree(
                self.items(),
                |j: int| has_key(cascade@, self.items()[j].key()),
                impacted(self.items(), self.deps(), id@),
            );
        }
        if let Err(e) = self.ensure_revision_capacity(&cascade) {
            return Err(e);
        }
        self.bump_revisions(&cascade);
        let ghost mid = *self;
        proof {
            self.reveal_fields();
        }
        let mut item = self.work_items.remove(i);
        item.title = title;
        self.work_items.insert(i, item);
        proof {
            mid.reveal_fields();
            self.reveal_fields();
            old(self).reveal_fields();
            assert(self.items() =~= mid.items().update(
                i as int,
                WorkItem { title, ..mid.items()[i as int] },
            ));
            lemma_wf_same_keys(mid, *self);
            if verification_ids_unique(old(self).items()) {
                lemma_same_criteria_keep_ids_unique(mid.items(), self.items());
            }
            if old(self).sound() {
                let items = old(self).items();
                lemma_key_index(items, id@, i as int);
                lemma_impacted_closed(items, old(self).deps(), i as int);
                lemma_same_criteria_keep_attempts(items, self.items());
                lemma_change_sound(
                    *old(self),
                    *self,
                    impacted(items, old(self).deps(), id@),
                    i as int,
                );
            }
        }
        Ok(())
    }

    /// Why `add_dependency` refuses, if it does.
    pub open spec fn add_dependency_refusal(
        &self,
        work_item: WorkItemId,
        prerequisite: WorkItemId,
    ) -> Option<PlanError> {
        let items = self.items();
        let deps = self.deps();
        if !has_key(items, work_item@) {
            Some(PlanError::WorkItemNotFound(work_item))
        } else if !has_key(items, prerequisite@) {
            Some(PlanError::WorkItemNotFound(prerequisite))
        } else if work_item@ == prerequisite@ {
            Some(PlanError::SelfDependency)
        } else if dep_edge(deps)(work_item@, prerequisite@) {
            Some(PlanError::DuplicateDependency)
        } else if depends_on(deps, prerequisite@, work_item@) {
            Some(PlanError::DependencyCycle)
        } else if !revisable_where(items, impacted(items, deps, work_item@)) {
            Some(PlanError::RevisionOverflow)
        } else {
            None
        }
    }

    /// Makes `work_item` depend on `prerequisite`, refusing an edge that would
    /// close a cycle. The work item and its dependents move to a new revision.
    pub fn add_dependency(&mut self, work_item: &WorkItemId, prerequisite: &WorkItemId) -> (r:
        Result<(), PlanError>)
        requires
            old(self).wf(),
        ensures
            final(self).wf(),
            match old(self).add_dependency_refusal(*work_item, *prerequisite) {
                Some(e) => r == Err::<(), PlanError>(e) && *final(self) == *old(self),
                None => {
                    &&& r is Ok
                    &&& final(self).same_organization(old(self))
                    &&& final(self).deps() == old(self).deps().insert(
                        edge_slot(old(self).deps(), (*work_item, *prerequisite)),
                        (*work_item, *prerequisite),
                    )
                    &&& final(self).items() == bump_where(
                        old(self).items(),
                        impacted(old(self).items(), old(self).deps(), work_item@),
                    )
                },
            },
            acyclic(old(self).deps()) ==> acyclic(final(self).deps()),
            verification_ids_unique(old(self).items()) ==> verification_ids_unique(
                final(self).items(),
            ),
            final(self).follows(old(self)),
    {
        proof {
            self.reveal_fields();
        }
        let (w, found_work) = locate(&self.work_items, work_item.as_str());
        if !found_work {
            return Err(PlanError::WorkItemNotFound(work_item.clone()));
        }
        let (_, found_prerequisite) = locate(&self.work_items, prerequisite.as_str());
        if !found_prerequisite {
            return Err(PlanError::WorkItemNotFound(prerequisite.clone()));
        }
        if work_item.same_as(prerequisite) {
            return Err(PlanError::SelfDependency);
        }
        if self.has_dependency(work_item, prerequisite) {
            return Err(PlanError::DuplicateDependency);
        }
        if self.reachable(prerequisite, work_item) {
            return Err(PlanError::DependencyCycle);
        }
        let cascade = self.impacted_items(work_item);
        proof {
            lemma_selection_agree(
                self.items(),
                |j: int| has_key(cascade@, self.items()[j].key()),
                impacted(self.items(), self.deps(), work_item@),
            );
        }
        if let Err(e) = self.ensure_revision_capacity(&cascade) {
            return Err(e);
        }
        let k = edge_position(&self.dependencies, work_item, prerequisite);
        let ghost before = *self;
        self.dependencies.insert(k, (work_item.clone(), prerequisite.clone()));
        proof {
            before.reveal_fields();
            self.reveal_fields();
            let e = (*work_item, *prerequisite);
            assert(self.deps() == before.deps().insert(k as int, e));
            lemma_edge_insert_sorted(before.deps(), e, k as int);
            assert forall|x: int|
                #![trigger self.deps()[x]]
                0 <= x < self.deps().len() implies has_key(self.items(), self.deps()[x].0@)
                && has_key(self.items(), self.deps()[x].1@) by {
                if x < k {
                    assert(before.deps()[x] == self.deps()[x]);
                } else if x > k {
                    assert(before.deps()[x - 1] == self.deps()[x]);
                }
            }
            lemma_acyclic_insert(before.deps(), k as int, *work_item, *prerequisite);
        }
        self.bump_revisions(&cascade);
        proof {
            if old(self).sound() {
                let items = old(self).items();
                let deps = old(self).deps();
                lemma_key_index(items, work_item@, w as int);
                lemma_impacted_closed(items, deps, w as int);
                lemma_same_criteria_keep_attempts(items, self.items());
                assert forall|a: Seq<char>, b: Seq<char>| #[trigger] dep_edge(self.deps())(
                    a,
                    b,
                ) implies dep_edge(deps)(a, b) || a == items[w as int].id@ by {
                    lemma_dep_edge_insert(deps, k as int, *work_item, *prerequisite, a, b);
                }
                lemma_change_sound(*old(self), *self, impacted(items, deps, work_item@), w as int);
            }
        }
        Ok(())
    }
}

/// The edges after one more `(dependent, prerequisite)` pair, inserted at
/// position `k`.
proof fn lemma_dep_edge_insert(
    deps: Seq<(WorkItemId, WorkItemId)>,
    k: int,
    w: WorkItemId,
    p: WorkItemId,
    a: Seq<char>,
    b: Seq<char>,
)
    requires
        0 <= k <= deps.len(),
    ensures
        dep_edge(deps.insert(k, (w, p)))(a, b) <==> (dep_edge(deps)(a, b) || (a == w@ && b == p@)),
{
    let t = deps.insert(k, (w, p));
    if dep_edge(t)(a, b) {
        let x = choose|x: int| #![trigger t[x]] 0 <= x < t.len() && t[x].0@ == a && t[x].1@ == b;
        if x < k {
            assert(deps[x] == t[x]);
        } else if x > k {
            assert(deps[x - 1] == t[x]);
        }
    }
    if dep_edge(deps)(a, b) {
        let x = choose|x: int|
            #![trigger deps[x]]
            0 <= x < deps.len() && deps[x].0@ == a && deps[x].1@ == b;
        if x < k {
            assert(t[x] == deps[x]);
        } else {
            assert(t[x + 1] == deps[x]);
        }
    }
    if a == w@ && b == p@ {
        assert(t[k] == (w, p));
    }
}

/// Adding an edge whose prerequisite does not already depend on its
/// dependent keeps the prerequisites free of cycles.
pub proof fn lemma_acyclic_insert(
    deps: Seq<(WorkItemId, WorkItemId)>,
    k: int,
    w: WorkItemId,
    p: WorkItemId,
)
    requires
        0 <= k <= deps.len(),
        !depends_on(deps, p@, w@),
    ensures
        acyclic(deps) ==> acyclic(deps.insert(k, (w, p))),
{
    let t = deps.insert(k, (w, p));
    let e_old = dep_edge(deps);
    let e_new = dep_edge(t);
    assert forall|a: Seq<char>, b: Seq<char>| #[trigger] e_new(a, b) <==> (e_old(a, b) || (a
        == w@ && b == p@)) by {
        lemma_dep_edge_insert(deps, k, w, p, a, b);
    }
    if acyclic(deps) {
        assert forall|a: Seq<char>, b: Seq<char>| #[trigger] dep_edge(t)(a, b) implies !depends_on(
            t,
            b,
            a,
        ) by {
            if depends_on(t, b, a) {
                lemma_reaches_with_edge(e_old, e_new, w@, p@, b, a);
                if e_old(a, b) {
                    assert(!depends_on(deps, b, a));
                    lemma_reaches_step(e_old, p@, a, b);
                    crate::graph::lemma_reaches_trans(e_old, p@, b, w@);
                } else {
                    assert(a == w@ && b == p@);
                }
            }
        }
    }
}

} // verus!

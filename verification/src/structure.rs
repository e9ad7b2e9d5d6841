//! Projects, milestones and decisions: structure around the work items that
//! owns no completion of its own.
use vstd::prelude::*;

use crate::criteria::verification_ids_unique;
use crate::ids::{DecisionId, MilestoneId, ProjectId, WorkItemId};
use crate::keyed::{
    has_key, key_index, keys_sorted, lemma_insert_sorted, lemma_key_index, lemma_update_sorted,
    locate, slot, Keyed,
};
use crate::model::{Decision, Milestone, PlanError, Project};
use crate::plan::{bump_where, impacted, lemma_selection_agree, revisable_where, Plan};
use crate::sound::{lemma_change_sound, lemma_impacted_closed, lemma_same_criteria_keep_attempts};
use crate::text::{blank, is_blank};

verus! {

impl Plan {
    /// Both plans have the same identity, title, work items and prerequisites.
    pub open spec fn same_work(&self, other: &Plan) -> bool {
        &&& self.plan_id() == other.plan_id()
        &&& self.plan_title() == other.plan_title()
        &&& self.items() == other.items()
        &&& self.deps() == other.deps()
    }

    /// Why `add_project` refuses, if it does.
    pub open spec fn add_project_refusal(&self, id: ProjectId, title: Seq<char>) -> Option<
        PlanError,
    > {
        if blank(title) {
            Some(PlanError::EmptyText("project title"))
        } else if has_key(self.project_list(), id@) {
            Some(PlanError::DuplicateProject(id))
        } else {
            None
        }
    }

    /// Creates a project with no milestones.
    pub fn add_project(&mut self, id: ProjectId, title: String) -> (r: Result<(), PlanError>)
        requires
            old(self).wf(),
        ensures
            final(self).wf(),
            match old(self).add_project_refusal(id, title@) {
                Some(e) => r == Err::<(), PlanError>(e) && *final(self) == *old(self),
                None => {
                    let p = slot(old(self).project_list(), id@);
                    let project = final(self).project_list()[p];
                    &&& r is Ok
                    &&& final(self).same_work(old(self))
                    &&& final(self).milestone_list() == old(self).milestone_list()
                    &&& final(self).decision_list() == old(self).decision_list()
                    &&& final(self).project_list() == old(self).project_list().insert(p, project)
                    &&& project.id == id
                    &&& project.title == title
                    &&& project.milestone_ids@.len() == 0
                },
            },
            final(self).follows(old(self)),
    {
        proof {
            self.reveal_fields();
        }
        if is_blank(title.as_str()) {
            return Err(PlanError::EmptyText("project title"));
        }
        let (p, found) = locate(&self.projects, id.as_str());
        if found {
            return Err(PlanError::DuplicateProject(id));
        }
        let ghost before = self.projects@;
        self.projects.insert(p, Project { id, title, milestone_ids: Vec::new() });
        proof {
            self.reveal_fields();
            old(self).reveal_fields();
            lemma_insert_sorted(before, p as int, self.projects@[p as int]);
            assert forall|k: int|
                #![trigger self.deps()[k]]
                0 <= k < self.deps().len() implies has_key(self.items(), self.deps()[k].0@)
                && has_key(self.items(), self.deps()[k].1@) by {
                assert(old(self).deps()[k] == self.deps()[k]);
            }
        }
        Ok(())
    }

    /// Why `add_milestone` refuses, if it does.
    pub open spec fn add_milestone_refusal(
        &self,
        project_id: ProjectId,
        id: MilestoneId,
        title: Seq<char>,
    ) -> Option<PlanError> {
        if blank(title) {
            Some(PlanError::EmptyText("milestone title"))
        } else if !has_key(self.project_list(), project_id@) {
            Some(PlanError::ProjectNotFound(project_id))
        } else if has_key(self.milestone_list(), id@) {
            Some(PlanError::DuplicateMilestone(id))
        } else {
            None
        }
    }

    /// Creates a milestone of an existing project, with no linked work.
    pub fn add_milestone(&mut self, project_id: &ProjectId, id: MilestoneId, title: String) -> (r:
        Result<(), PlanError>)
        requires
            old(self).wf(),
        ensures
            final(self).wf(),
            match old(self).add_milestone_refusal(*project_id, id, title@) {
                Some(e) => r == Err::<(), PlanError>(e) && *final(self) == *old(self),
                None => {
                    let m = slot(old(self).milestone_list(), id@);
                    let milestone = final(self).milestone_list()[m];
                    let p = key_index(old(self).project_list(), project_id@);
                    let project = final(self).project_list()[p];
                    &&& r is Ok
                    &&& final(self).same_work(old(self))
                    &&& final(self).decision_list() == old(self).decision_list()
                    &&& final(self).milestone_list() == old(self).milestone_list().insert(
                        m,
                        milestone,
                    )
                    &&& milestone.id == id
                    &&& milestone.project_id == *project_id
                    &&& milestone.title == title
                    &&& milestone.work_item_ids@.len() == 0
                    &&& final(self).project_list() == old(self).project_list().update(
                        p,
                        Project { milestone_ids: project.milestone_ids, ..old(self).project_list()[p] },
                    )
                    &&& project.milestone_ids@ == old(self).project_list()[p].milestone_ids@.push(id)
                },
            },
            final(self).follows(old(self)),
    {
        proof {
            self.reveal_fields();
        }
        if is_blank(title.as_str()) {
            return Err(PlanError::EmptyText("milestone title"));
        }
        let (p, found_project) = locate(&self.projects, project_id.as_str());
        if !found_project {
            return Err(PlanError::ProjectNotFound(project_id.clone()));
        }
        let (m, found_milestone) = locate(&self.milestones, id.as_str());
        if found_milestone {
            return Err(PlanError::DuplicateMilestone(id));
        }
        let ghost before_milestones = self.milestones@;
        let ghost before_projects = self.projects@;
        let linked = id.clone();
        self.milestones.insert(
            m,
            Milestone { id, project_id: project_id.clone(), title, work_item_ids: Vec::new() },
        );
        let mut project = self.projects.remove(p);
        project.milestone_ids.push(linked);
        self.projects.insert(p, project);
        proof {
            self.reveal_fields();
            old(self).reveal_fields();
            lemma_insert_sorted(before_milestones, m as int, self.milestones@[m as int]);
            assert(self.projects@ =~= before_projects.update(p as int, self.projects@[p as int]));
            lemma_update_sorted(before_projects, p as int, self.projects@[p as int]);
            assert forall|x: int|
                0 <= x < self.milestones@.len() implies keys_sorted(
                #[trigger] self.milestones@[x].work_item_ids@,
            ) by {
                if x < m {
                    assert(self.milestones@[x] == before_milestones[x]);
                } else if x > m {
                    assert(self.milestones@[x] == before_milestones[x - 1]);
                }
            }
            assert forall|k: int|
                #![trigger self.deps()[k]]
                0 <= k < self.deps().len() implies has_key(self.items(), self.deps()[k].0@)
                && has_key(self.items(), self.deps()[k].1@) by {
                assert(old(self).deps()[k] == self.deps()[k]);
            }
            lemma_key_index(before_projects, project_id@, p as int);
        }
        Ok(())
    }

    /// Why `link_work_item_to_milestone` refuses, if it does.
    pub open spec fn link_work_item_refusal(
        &self,
        milestone_id: MilestoneId,
        work_item_id: WorkItemId,
    ) -> Option<PlanError> {
        let items = self.items();
        let milestones = self.milestone_list();
        if !has_key(items, work_item_id@) {
            Some(PlanError::WorkItemNotFound(work_item_id))
        } else if !has_key(milestones, milestone_id@) {
            Some(PlanError::MilestoneNotFound(milestone_id))
        } else if has_key(
            milestones[key_index(milestones, milestone_id@)].work_item_ids@,
            work_item_id@,
        ) {
            Some(PlanError::WorkItemAlreadyLinked(work_item_id))
        } else if !revisable_where(items, impacted(items, self.deps(), work_item_id@)) {
            Some(PlanError::RevisionOverflow)
        } else {
            None
        }
    }

    /// Links existing work to a milestone. The work item and everything that
    /// depends on it move to a new revision.
    pub fn link_work_item_to_milestone(
        &mut self,
        milestone_id: &MilestoneId,
        work_item_id: &WorkItemId,
    ) -> (r: Result<(), PlanError>)
        requires
            old(self).wf(),
        ensures
            final(self).wf(),
            match old(self).link_work_item_refusal(*milestone_id, *work_item_id) {
                Some(e) => r == Err::<(), PlanError>(e) && *final(self) == *old(self),
                None => {
                    let m = key_index(old(self).milestone_list(), milestone_id@);
                    let before = old(self).milestone_list()[m];
                    let after = final(self).milestone_list()[m];
                    &&& r is Ok
                    &&& final(self).same_organization_but_milestones(old(self))
                    &&& final(self).deps() == old(self).deps()
                    &&& final(self).items() == bump_where(
                        old(self).items(),
                        impacted(old(self).items(), old(self).deps(), work_item_id@),
                    )
                    &&& final(self).milestone_list() == old(self).milestone_list().update(
                        m,
                        Milestone { work_item_ids: after.work_item_ids, ..before },
                    )
                    &&& after.work_item_ids@ == before.work_item_ids@.insert(
                        slot(before.work_item_ids@, work_item_id@),
                        *work_item_id,
                    )
                },
            },
            verification_ids_unique(old(self).items()) ==> verification_ids_unique(
                final(self).items(),
            ),
            final(self).follows(old(self)),
    {
        proof {
            self.reveal_fields();
        }
        let (w, found_item) = locate(&self.work_items, work_item_id.as_str());
        if !found_item {
            return Err(PlanError::WorkItemNotFound(work_item_id.clone()));
        }
        let (m, found_milestone) = locate(&self.milestones, milestone_id.as_str());
        if !found_milestone {
            return Err(PlanError::MilestoneNotFound(milestone_id.clone()));
        }
        proof {
            assert(keys_sorted(self.milestones@[m as int].work_item_ids@));
        }
        let (slot_at, linked) = locate(&self.milestones[m].work_item_ids, work_item_id.as_str());
        if linked {
            return Err(PlanError::WorkItemAlreadyLinked(work_item_id.clone()));
        }
        let cascade = self.impacted_items(work_item_id);
        proof {
            lemma_selection_agree(
                self.items(),
                |j: int| has_key(cascade@, self.items()[j].key()),
                impacted(self.items(), self.deps(), work_item_id@),
            );
        }
        if let Err(e) = self.ensure_revision_capacity(&cascade) {
            return Err(e);
        }
        let ghost before_milestones = self.milestones@;
        let mut milestone = self.milestones.remove(m);
        let ghost before_ids = milestone.work_item_ids@;
        milestone.work_item_ids.insert(slot_at, work_item_id.clone());
        self.milestones.insert(m, milestone);
        proof {
            self.reveal_fields();
            old(self).reveal_fields();
            assert(self.milestones@ =~= before_milestones.update(
                m as int,
                self.milestones@[m as int],
            ));
            lemma_update_sorted(before_milestones, m as int, self.milestones@[m as int]);
            lemma_insert_sorted(before_ids, slot_at as int, *work_item_id);
            assert forall|x: int|
                0 <= x < self.milestones@.len() implies keys_sorted(
                #[trigger] self.milestones@[x].work_item_ids@,
            ) by {
                if x != m {
                    assert(self.milestones@[x] == before_milestones[x]);
                }
            }
            assert forall|k: int|
                #![trigger self.deps()[k]]
                0 <= k < self.deps().len() implies has_key(self.items(), self.deps()[k].0@)
                && has_key(self.items(), self.deps()[k].1@) by {
                assert(old(self).deps()[k] == self.deps()[k]);
            }
        }
        self.bump_revisions(&cascade);
        proof {
            if old(self).sound() {
                let items = old(self).items();
                lemma_key_index(items, work_item_id@, w as int);
                lemma_impacted_closed(items, old(self).deps(), w as int);
                lemma_same_criteria_keep_attempts(items, self.items());
                lemma_change_sound(
                    *old(self),
                    *self,
                    impacted(items, old(self).deps(), work_item_id@),
                    w as int,
                );
            }
        }
        Ok(())
    }

    /// Both plans have the same identity, title, projects and decisions.
    pub open spec fn same_organization_but_milestones(&self, other: &Plan) -> bool {
        &&& self.plan_id() == other.plan_id()
        &&& self.plan_title() == other.plan_title()
        &&& self.project_list() == other.project_list()
        &&& self.decision_list() == other.decision_list()
    }

    /// Why `record_decision` refuses, if it does.
    pub open spec fn record_decision_refusal(
        &self,
        id: DecisionId,
        question: Seq<char>,
        decision: Seq<char>,
        rationale: Seq<char>,
    ) -> Option<PlanError> {
        if blank(question) {
            Some(PlanError::EmptyText("decision question"))
        } else if blank(decision) {
            Some(PlanError::EmptyText("decision"))
        } else if blank(rationale) {
            Some(PlanError::EmptyText("decision rationale"))
        } else if has_key(self.decision_list(), id@) {
            Some(PlanError::DuplicateDecision(id))
        } else {
            None
        }
    }

    /// Records a decision with its rationale; it changes no work item.
    pub fn record_decision(
        &mut self,
        id: DecisionId,
        question: String,
        decision: String,
        rationale: String,
    ) -> (r: Result<(), PlanError>)
        requires
            old(self).wf(),
        ensures
            final(self).wf(),
            match old(self).record_decision_refusal(id, question@, decision@, rationale@) {
                Some(e) => r == Err::<(), PlanError>(e) && *final(self) == *old(self),
                None => {
                    let d = slot(old(self).decision_list(), id@);
                    &&& r is Ok
                    &&& final(self).same_work(old(self))
                    &&& final(self).project_list() == old(self).project_list()
                    &&& final(self).milestone_list() == old(self).milestone_list()
                    &&& final(self).decision_list() == old(self).decision_list().insert(
                        d,
                        Decision { id, question, decision, rationale },
                    )
                },
            },
            final(self).follows(old(self)),
    {
        proof {
            self.reveal_fields();
        }
        if is_blank(question.as_str()) {
            return Err(PlanError::EmptyText("decision question"));
        }
        if is_blank(decision.as_str()) {
            return Err(PlanError::EmptyText("decision"));
        }
        if is_blank(rationale.as_str()) {
            return Err(PlanError::EmptyText("decision rationale"));
        }
        let (d, found) = locate(&self.decisions, id.as_str());
        if found {
            return Err(PlanError::DuplicateDecision(id));
        }
        let ghost before = self.decisions@;
        self.decisions.insert(d, Decision { id, question, decision, rationale });
        proof {
            self.reveal_fields();
            old(self).reveal_fields();
            lemma_insert_sorted(before, d as int, self.decisions@[d as int]);
            assert forall|k: int|
                #![trigger self.deps()[k]]
                0 <= k < self.deps().len() implies has_key(self.items(), self.deps()[k].0@)
                && has_key(self.items(), self.deps()[k].1@) by {
                assert(old(self).deps()[k] == self.deps()[k]);
            }
        }
        Ok(())
    }
}

} // verus!

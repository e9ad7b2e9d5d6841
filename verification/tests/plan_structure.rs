use mg_plan::{
    CriterionId, DecisionId, EvidenceId, EvidenceRef, MilestoneId, Plan, PlanError, PlanId,
    ProjectId, VerificationId, VerificationInput, VerificationResult, WorkItemId, WorkItemStatus,
};

fn work(value: &str) -> WorkItemId {
    WorkItemId::new(value.to_string()).expect("test IDs are nonempty")
}

fn criterion(value: &str) -> CriterionId {
    CriterionId::new(value.to_string()).expect("test IDs are nonempty")
}

fn evidence() -> EvidenceRef {
    EvidenceRef::new(
        EvidenceId::new("evidence-1".to_string()).expect("test IDs are nonempty"),
        "mg-lab".to_string(),
        "run-1".to_string(),
        "revision-1".to_string(),
        "sha256:abc".to_string(),
    )
    .expect("evidence is complete")
}

fn passing(id: &str, criterion_id: CriterionId, subject_revision: u64) -> VerificationInput {
    VerificationInput {
        id: VerificationId::new(id.to_string()).expect("test IDs are nonempty"),
        criterion_id,
        subject_revision,
        evidence: vec![evidence()],
        result: VerificationResult::Pass,
        verifier: "test".to_owned(),
    }
}

fn rebuilt(plan: &Plan) -> Plan {
    Plan::from_parts(
        plan.id().clone(),
        plan.title().to_string(),
        plan.work_items().clone(),
        plan.dependencies().clone(),
        plan.projects().clone(),
        plan.milestones().clone(),
        plan.decisions().clone(),
    )
    .expect("parts of a plan fit together")
}

#[test]
fn project_milestone_decision_slice_is_derived_and_persistent() {
    let mut plan = Plan::new(
        PlanId::new("plan-structure".to_string()).expect("test IDs are nonempty"),
        "Structured plan".to_string(),
    )
    .expect("plan is valid");
    let work_id = work("work-structure");
    plan.add_work_item(work_id.clone(), "Complete structured work".to_string())
        .expect("work is valid");
    let criterion_id = criterion("criterion-structure");
    plan.add_criterion(&work_id, criterion_id.clone(), "Work is proven".to_string())
        .expect("criterion is valid");
    let project = ProjectId::new("project-1".to_string()).expect("test IDs are nonempty");
    let milestone = MilestoneId::new("milestone-1".to_string()).expect("test IDs are nonempty");
    plan.add_project(project.clone(), "Suite foundation".to_string())
        .expect("project is valid");
    plan.add_milestone(&project, milestone.clone(), "Verified foundation".to_string())
        .expect("milestone is valid");
    plan.link_work_item_to_milestone(&milestone, &work_id)
        .expect("work links");
    plan.record_decision(
        DecisionId::new("decision-1".to_string()).expect("test IDs are nonempty"),
        "Where does milestone completion come from?".to_string(),
        "From work-item status".to_string(),
        "Work items remain the single completion authority".to_string(),
    )
    .expect("decision is valid");

    let incomplete = plan.milestone_summaries();
    assert_eq!(incomplete[0].total_work_items, 1);
    assert_eq!(incomplete[0].completed_work_items, 0);
    assert!(!incomplete[0].complete);
    let revision = plan.work_item(&work_id).expect("work exists").revision;
    plan.record_verification(&work_id, passing("verification-structure", criterion_id, revision))
        .expect("verification is valid");
    plan.complete(&work_id).expect("work completes");
    let complete = plan.milestone_summaries();
    assert!(complete[0].complete);
    assert_eq!(complete[0].completed_work_items, 1);

    let restored = rebuilt(&plan);
    assert_eq!(restored, plan);
    assert!(restored.milestone_summaries()[0].complete);
}

#[test]
fn linking_work_moves_it_and_its_dependents_to_a_new_revision() {
    let mut plan = Plan::new(
        PlanId::new("plan-link".to_string()).unwrap(),
        "Link plan".to_string(),
    )
    .unwrap();
    plan.add_work_item(work("a"), "A".to_string()).unwrap();
    plan.add_work_item(work("b"), "B".to_string()).unwrap();
    plan.add_dependency(&work("b"), &work("a")).unwrap();
    assert_eq!(plan.work_item(&work("a")).unwrap().revision, 1);
    assert_eq!(plan.work_item(&work("b")).unwrap().revision, 2);
    let project = ProjectId::new("p".to_string()).unwrap();
    let milestone = MilestoneId::new("m".to_string()).unwrap();
    plan.add_project(project.clone(), "P".to_string()).unwrap();
    plan.add_milestone(&project, milestone.clone(), "M".to_string()).unwrap();
    plan.link_work_item_to_milestone(&milestone, &work("a")).unwrap();
    assert_eq!(plan.work_item(&work("a")).unwrap().revision, 2);
    assert_eq!(plan.work_item(&work("b")).unwrap().revision, 3);
    assert_eq!(
        plan.link_work_item_to_milestone(&milestone, &work("a")),
        Err(PlanError::WorkItemAlreadyLinked(work("a")))
    );
    assert_eq!(
        plan.link_work_item_to_milestone(&MilestoneId::new("x".to_string()).unwrap(), &work("a")),
        Err(PlanError::MilestoneNotFound(MilestoneId::new("x".to_string()).unwrap()))
    );
    assert_eq!(
        plan.link_work_item_to_milestone(&milestone, &work("zz")),
        Err(PlanError::WorkItemNotFound(work("zz")))
    );
    assert_eq!(plan.projects()[0].milestone_ids, vec![milestone.clone()]);
    assert_eq!(plan.milestones()[0].work_item_ids, vec![work("a")]);
}

#[test]
fn milestone_without_linked_work_is_not_complete() {
    let mut plan = Plan::new(PlanId::new("p".to_string()).unwrap(), "P".to_string()).unwrap();
    let project = ProjectId::new("proj".to_string()).unwrap();
    plan.add_project(project.clone(), "Project".to_string()).unwrap();
    plan.add_milestone(&project, MilestoneId::new("m2".to_string()).unwrap(), "Second".to_string())
        .unwrap();
    plan.add_milestone(&project, MilestoneId::new("m1".to_string()).unwrap(), "First".to_string())
        .unwrap();
    let summaries = plan.milestone_summaries();
    assert_eq!(summaries.len(), 2);
    assert_eq!(summaries[0].id.as_str(), "m1");
    assert_eq!(summaries[1].id.as_str(), "m2");
    assert_eq!(summaries[0].total_work_items, 0);
    assert!(!summaries[0].complete);
}

#[test]
fn structure_refusals_name_the_offending_input() {
    let mut plan = Plan::new(PlanId::new("p".to_string()).unwrap(), "P".to_string()).unwrap();
    let project = ProjectId::new("proj".to_string()).unwrap();
    assert_eq!(
        plan.add_project(project.clone(), "  ".to_string()),
        Err(PlanError::EmptyText("project title"))
    );
    plan.add_project(project.clone(), "Project".to_string()).unwrap();
    assert_eq!(
        plan.add_project(project.clone(), "Again".to_string()),
        Err(PlanError::DuplicateProject(project.clone()))
    );
    let milestone = MilestoneId::new("m".to_string()).unwrap();
    assert_eq!(
        plan.add_milestone(&project, milestone.clone(), "".to_string()),
        Err(PlanError::EmptyText("milestone title"))
    );
    let missing = ProjectId::new("missing".to_string()).unwrap();
    assert_eq!(
        plan.add_milestone(&missing, milestone.clone(), "M".to_string()),
        Err(PlanError::ProjectNotFound(missing))
    );
    plan.add_milestone(&project, milestone.clone(), "M".to_string()).unwrap();
    assert_eq!(
        plan.add_milestone(&project, milestone.clone(), "M".to_string()),
        Err(PlanError::DuplicateMilestone(milestone))
    );
    let decision = DecisionId::new("d".to_string()).unwrap();
    assert_eq!(
        plan.record_decision(decision.clone(), " ".to_string(), "d".to_string(), "r".to_string()),
        Err(PlanError::EmptyText("decision question"))
    );
    assert_eq!(
        plan.record_decision(decision.clone(), "q".to_string(), "\t".to_string(), "r".to_string()),
        Err(PlanError::EmptyText("decision"))
    );
    assert_eq!(
        plan.record_decision(decision.clone(), "q".to_string(), "d".to_string(), "\n".to_string()),
        Err(PlanError::EmptyText("decision rationale"))
    );
    plan.record_decision(decision.clone(), "q".to_string(), "d".to_string(), "r".to_string())
        .unwrap();
    assert_eq!(
        plan.record_decision(decision.clone(), "q".to_string(), "d".to_string(), "r".to_string()),
        Err(PlanError::DuplicateDecision(decision))
    );
}

#[test]
fn decisions_leave_work_untouched() {
    let mut plan = Plan::new(PlanId::new("p".to_string()).unwrap(), "P".to_string()).unwrap();
    plan.add_work_item(work("w"), "W".to_string()).unwrap();
    let before = plan.work_item_summaries();
    plan.record_decision(
        DecisionId::new("d".to_string()).unwrap(),
        "q".to_string(),
        "d".to_string(),
        "r".to_string(),
    )
    .unwrap();
    assert_eq!(plan.work_item_summaries(), before);
    assert_eq!(plan.decisions().len(), 1);
    assert_eq!(
        plan.work_item(&work("w")).unwrap().status,
        WorkItemStatus::Planned
    );
}

#[test]
fn parts_that_do_not_fit_are_refused() {
    let mut plan = Plan::new(PlanId::new("p".to_string()).unwrap(), "P".to_string()).unwrap();
    plan.add_work_item(work("a"), "A".to_string()).unwrap();
    plan.add_work_item(work("b"), "B".to_string()).unwrap();
    let mut reversed = plan.work_items().clone();
    reversed.reverse();
    assert!(Plan::from_parts(
        plan.id().clone(),
        plan.title().to_string(),
        reversed,
        Vec::new(),
        Vec::new(),
        Vec::new(),
        Vec::new(),
    )
    .is_none());
    assert!(Plan::from_parts(
        plan.id().clone(),
        plan.title().to_string(),
        plan.work_items().clone(),
        vec![(work("a"), work("ghost"))],
        Vec::new(),
        Vec::new(),
        Vec::new(),
    )
    .is_none());
    assert_eq!(rebuilt(&plan), plan);
}

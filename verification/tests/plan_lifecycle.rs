use mg_plan::{
    CriterionId, EvidenceId, EvidenceRef, Plan, PlanError, PlanId, VerificationGap,
    VerificationGapReason, VerificationId, VerificationInput, VerificationResult, WorkItemId,
    WorkItemStatus,
};

fn plan_id(value: &str) -> PlanId {
    PlanId::new(value.to_string()).expect("test IDs are nonempty")
}

fn work(value: &str) -> WorkItemId {
    WorkItemId::new(value.to_string()).expect("test IDs are nonempty")
}

fn criterion(value: &str) -> CriterionId {
    CriterionId::new(value.to_string()).expect("test IDs are nonempty")
}

fn verification(value: &str) -> VerificationId {
    VerificationId::new(value.to_string()).expect("test IDs are nonempty")
}

fn evidence() -> EvidenceRef {
    EvidenceRef::new(
        EvidenceId::new("evidence-1".to_string()).expect("test IDs are nonempty"),
        "mg-lab".to_string(),
        "run-1".to_string(),
        "revision-1".to_string(),
        "sha256:abc".to_string(),
    )
    .expect("evidence is complete")
}

fn input(
    id: &str,
    criterion_id: CriterionId,
    subject_revision: u64,
    result: VerificationResult,
    verifier: &str,
) -> VerificationInput {
    VerificationInput {
        id: verification(id),
        criterion_id,
        subject_revision,
        evidence: vec![evidence()],
        result,
        verifier: verifier.to_owned(),
    }
}

fn new_plan(id: &str, title: &str) -> Plan {
    Plan::new(plan_id(id), title.to_string()).expect("plan is valid")
}

#[test]
fn completion_requires_revision_pinned_passing_evidence() {
    let mut plan = new_plan("plan-1", "Ship a verified slice");
    let work_id = work("work-1");
    plan.add_work_item(work_id.clone(), "Implement the slice".to_string())
        .expect("work is valid");
    let criterion_id = criterion("criterion-1");
    plan.add_criterion(&work_id, criterion_id.clone(), "The behavior is demonstrated".to_string())
        .expect("criterion is valid");

    assert_eq!(
        plan.complete(&work_id),
        Err(PlanError::CriterionIncomplete(criterion_id.clone()))
    );
    plan.record_verification(
        &work_id,
        input("verification-1", criterion_id.clone(), 2, VerificationResult::Pass, "human:jeff"),
    )
    .expect("verification is valid");
    plan.complete(&work_id).expect("verified work completes");
    assert_eq!(
        plan.work_item(&work_id).expect("work exists").status,
        WorkItemStatus::Completed
    );
}

#[test]
fn dependencies_reject_cycles_and_incomplete_prerequisites() {
    let mut plan = new_plan("plan-1", "Dependency test");
    let first = work("work-1");
    let second = work("work-2");
    plan.add_work_item(first.clone(), "First".to_string())
        .expect("work is valid");
    plan.add_work_item(second.clone(), "Second".to_string())
        .expect("work is valid");
    plan.add_dependency(&second, &first).expect("edge is valid");
    assert_eq!(
        plan.add_dependency(&first, &second),
        Err(PlanError::DependencyCycle)
    );
    assert_eq!(
        plan.complete(&second),
        Err(PlanError::DependencyIncomplete(first))
    );
}

#[test]
fn revising_work_invalidates_previous_verification_revision() {
    let mut plan = new_plan("plan-1", "Revision test");
    let work_id = work("work-1");
    let criterion_id = criterion("criterion-1");
    plan.add_work_item(work_id.clone(), "Original".to_string())
        .expect("work is valid");
    plan.add_criterion(&work_id, criterion_id.clone(), "The behavior is demonstrated".to_string())
        .expect("criterion is valid");
    plan.record_verification(
        &work_id,
        input("verification-1", criterion_id.clone(), 2, VerificationResult::Pass, "ci:test"),
    )
    .expect("verification is valid");
    plan.complete(&work_id).expect("work completes before revision");
    plan.revise_work_item(&work_id, "Revised".to_string())
        .expect("revision is valid");
    assert_eq!(plan.work_item(&work_id).expect("work exists").revision, 3);
    assert_eq!(
        plan.complete(&work_id),
        Err(PlanError::CriterionIncomplete(criterion_id))
    );
}

#[test]
fn verification_ids_are_unique_within_a_plan() {
    let mut plan = new_plan("plan-1", "Identity test");
    let work_id = work("work-1");
    let criterion_id = criterion("criterion-1");
    let verification_id = verification("verification-1");
    plan.add_work_item(work_id.clone(), "Work".to_string())
        .expect("work is valid");
    plan.add_criterion(&work_id, criterion_id.clone(), "The behavior is demonstrated".to_string())
        .expect("criterion is valid");
    let make = || VerificationInput {
        id: verification_id.clone(),
        criterion_id: criterion_id.clone(),
        subject_revision: 2,
        evidence: vec![evidence()],
        result: VerificationResult::Pass,
        verifier: "human:jeff".to_owned(),
    };
    plan.record_verification(&work_id, make())
        .expect("first verification is valid");
    assert_eq!(
        plan.record_verification(&work_id, make()),
        Err(PlanError::DuplicateVerification(verification_id))
    );
}

#[test]
fn structural_changes_invalidate_completed_work() {
    let mut plan = new_plan("plan-1", "Structural mutation test");
    let work_id = work("work-1");
    let criterion_id = criterion("criterion-1");
    plan.add_work_item(work_id.clone(), "Work".to_string())
        .expect("work is valid");
    plan.add_criterion(&work_id, criterion_id.clone(), "The behavior is demonstrated".to_string())
        .expect("criterion is valid");
    plan.record_verification(
        &work_id,
        input("verification-1", criterion_id, 2, VerificationResult::Pass, "human:jeff"),
    )
    .expect("verification is valid");
    plan.complete(&work_id).expect("work is complete");
    plan.add_criterion(&work_id, criterion("criterion-2"), "A new condition is demonstrated".to_string())
        .expect("new criterion is valid");
    assert_eq!(plan.work_item(&work_id).expect("work exists").revision, 3);
    assert_eq!(
        plan.work_item(&work_id).expect("work exists").status,
        WorkItemStatus::Planned
    );
    assert_eq!(
        plan.complete(&work_id),
        Err(PlanError::CriterionIncomplete(criterion("criterion-1")))
    );
}

#[test]
fn prerequisite_changes_invalidate_completed_dependents() {
    let mut plan = new_plan("plan-1", "Dependency invalidation test");
    let prerequisite = work("work-1");
    let dependent = work("work-2");
    let criterion_id = criterion("criterion-1");
    plan.add_work_item(prerequisite.clone(), "Prerequisite".to_string())
        .expect("work is valid");
    plan.add_work_item(dependent.clone(), "Dependent".to_string())
        .expect("work is valid");
    plan.add_dependency(&dependent, &prerequisite)
        .expect("dependency is valid");
    plan.add_criterion(&prerequisite, criterion("criterion-1"), "Prerequisite is proven".to_string())
        .expect("criterion is valid");
    plan.record_verification(
        &prerequisite,
        input("verification-1", criterion("criterion-1"), 2, VerificationResult::Pass, "human:jeff"),
    )
    .expect("verification is valid");
    plan.complete(&prerequisite)
        .expect("prerequisite is complete");
    plan.add_criterion(&dependent, criterion_id.clone(), "Dependent is proven".to_string())
        .expect("criterion is valid");
    plan.record_verification(
        &dependent,
        input("verification-2", criterion_id, 4, VerificationResult::Pass, "human:jeff"),
    )
    .expect("verification is valid");
    plan.complete(&dependent).expect("dependent is complete");
    plan.revise_work_item(&prerequisite, "Revised prerequisite".to_string())
        .expect("revision is valid");
    assert_eq!(
        plan.work_item(&dependent).expect("dependent exists").status,
        WorkItemStatus::Planned
    );
    assert_eq!(
        plan.complete(&dependent),
        Err(PlanError::DependencyIncomplete(prerequisite))
    );
}

#[test]
fn revising_blocked_work_preserves_blocked_state() {
    let mut plan = new_plan("plan-1", "Blocked revision test");
    let work_id = work("work-1");
    plan.add_work_item(work_id.clone(), "Work".to_string())
        .expect("work is valid");
    plan.block_work(&work_id).expect("work blocks");
    plan.revise_work_item(&work_id, "Revised work".to_string())
        .expect("revision is valid");
    assert_eq!(
        plan.work_item(&work_id).expect("work exists").status,
        WorkItemStatus::Blocked
    );
}

#[test]
fn blocked_work_cannot_complete_until_unblocked() {
    let mut plan = new_plan("plan-1", "Transition test");
    let work_id = work("work-1");
    plan.add_work_item(work_id.clone(), "Work".to_string())
        .expect("work is valid");
    plan.start_work(&work_id).expect("work starts");
    plan.block_work(&work_id).expect("work blocks");
    assert_eq!(
        plan.complete(&work_id),
        Err(PlanError::InvalidTransition {
            from: WorkItemStatus::Blocked,
            to: WorkItemStatus::Completed,
        })
    );
    plan.unblock_work(&work_id).expect("work unblocks");
    assert_eq!(plan.start_work(&work_id), Ok(()));
}

#[test]
fn reopening_completed_prerequisite_reopens_completed_dependents() {
    let mut plan = new_plan("plan-1", "Verification dependency test");
    let prerequisite = work("work-1");
    let dependent = work("work-2");
    let prerequisite_criterion = criterion("criterion-1");
    let dependent_criterion = criterion("criterion-2");
    plan.add_work_item(prerequisite.clone(), "Prerequisite".to_string())
        .expect("work is valid");
    plan.add_work_item(dependent.clone(), "Dependent".to_string())
        .expect("work is valid");
    plan.add_dependency(&dependent, &prerequisite)
        .expect("dependency is valid");
    plan.add_criterion(
        &prerequisite,
        prerequisite_criterion.clone(),
        "Prerequisite is proven".to_string(),
    )
    .expect("criterion is valid");
    plan.record_verification(
        &prerequisite,
        input("verification-1", prerequisite_criterion, 2, VerificationResult::Pass, "human:jeff"),
    )
    .expect("verification is valid");
    plan.complete(&prerequisite)
        .expect("prerequisite is complete");
    plan.add_criterion(
        &dependent,
        dependent_criterion.clone(),
        "Dependent is proven".to_string(),
    )
    .expect("criterion is valid");
    plan.record_verification(
        &dependent,
        input("verification-2", dependent_criterion.clone(), 4, VerificationResult::Pass, "human:jeff"),
    )
    .expect("verification is valid");
    plan.complete(&dependent).expect("dependent is complete");
    plan.record_verification(
        &prerequisite,
        input("verification-3", criterion("criterion-1"), 2, VerificationResult::Fail, "ci:test"),
    )
    .expect("verification is valid");
    assert_eq!(
        plan.work_item(&prerequisite)
            .expect("prerequisite exists")
            .status,
        WorkItemStatus::Planned
    );
    assert_eq!(
        plan.work_item(&dependent).expect("dependent exists").status,
        WorkItemStatus::Planned
    );
    assert_eq!(
        plan.work_item(&dependent)
            .expect("dependent exists")
            .revision,
        5
    );
}

#[test]
fn new_nonpassing_verification_reopens_completed_work() {
    let mut plan = new_plan("plan-1", "Verification status test");
    let work_id = work("work-1");
    let criterion_id = criterion("criterion-1");
    plan.add_work_item(work_id.clone(), "Work".to_string())
        .expect("work is valid");
    plan.add_criterion(&work_id, criterion_id.clone(), "The behavior is demonstrated".to_string())
        .expect("criterion is valid");
    plan.record_verification(
        &work_id,
        input("verification-1", criterion_id.clone(), 2, VerificationResult::Pass, "human:jeff"),
    )
    .expect("verification is valid");
    plan.complete(&work_id).expect("work is complete");
    plan.record_verification(
        &work_id,
        input("verification-2", criterion_id.clone(), 2, VerificationResult::Fail, "ci:test"),
    )
    .expect("verification is valid");
    assert_eq!(
        plan.work_item(&work_id).expect("work exists").status,
        WorkItemStatus::Planned
    );
    assert_eq!(
        plan.complete(&work_id),
        Err(PlanError::CriterionIncomplete(criterion_id))
    );
}

#[test]
fn query_projections_are_deterministic_and_explain_gaps() {
    let mut plan = new_plan("plan-queries", "Query plan");
    let blocked = work("blocked");
    let missing = work("missing");
    let failing = work("failing");
    let stale = work("stale");
    for (work_id, title) in [
        (blocked.clone(), "Blocked"),
        (missing.clone(), "Missing"),
        (failing.clone(), "Failing"),
        (stale.clone(), "Stale"),
    ] {
        plan.add_work_item(work_id, title.to_string()).expect("work is valid");
    }
    plan.block_work(&blocked).expect("work blocks");
    plan.add_criterion(&missing, criterion("missing-criterion"), "Missing proof".to_string())
        .expect("criterion is valid");
    let failing_criterion = criterion("failing-criterion");
    plan.add_criterion(&failing, failing_criterion.clone(), "Failing proof".to_string())
        .expect("criterion is valid");
    plan.record_verification(
        &failing,
        input("failing-verification", failing_criterion, 2, VerificationResult::Fail, "test"),
    )
    .expect("verification is valid");
    let stale_criterion = criterion("stale-criterion");
    plan.add_criterion(&stale, stale_criterion.clone(), "Stale proof".to_string())
        .expect("criterion is valid");
    plan.record_verification(
        &stale,
        input("stale-verification", stale_criterion.clone(), 2, VerificationResult::Pass, "test"),
    )
    .expect("verification is valid");
    plan.revise_work_item(&stale, "Revised stale work".to_string())
        .expect("revision is valid");

    let summaries = plan.work_item_summaries();
    assert_eq!(
        summaries
            .iter()
            .map(|item| item.id.as_str())
            .collect::<Vec<_>>(),
        vec!["blocked", "failing", "missing", "stale"]
    );
    assert_eq!(
        plan.blocked_work_item_summaries()
            .iter()
            .map(|item| item.id.as_str())
            .collect::<Vec<_>>(),
        vec!["blocked"]
    );
    assert_eq!(
        plan.verification_gaps(),
        vec![
            VerificationGap {
                work_item_id: work("failing"),
                criterion_id: criterion("failing-criterion"),
                reason: VerificationGapReason::NonPassingVerification,
            },
            VerificationGap {
                work_item_id: work("missing"),
                criterion_id: criterion("missing-criterion"),
                reason: VerificationGapReason::MissingVerification,
            },
            VerificationGap {
                work_item_id: work("stale"),
                criterion_id: criterion("stale-criterion"),
                reason: VerificationGapReason::StaleVerification,
            },
        ]
    );
}

#[test]
fn passing_verification_requires_evidence() {
    let mut plan = new_plan("plan-1", "Evidence test");
    let work_id = work("work-1");
    let criterion_id = criterion("criterion-1");
    plan.add_work_item(work_id.clone(), "Work".to_string())
        .expect("work is valid");
    plan.add_criterion(&work_id, criterion_id.clone(), "The behavior is demonstrated".to_string())
        .expect("criterion is valid");
    assert_eq!(
        plan.record_verification(
            &work_id,
            VerificationInput {
                id: verification("verification-1"),
                criterion_id,
                subject_revision: 2,
                evidence: Vec::new(),
                result: VerificationResult::Pass,
                verifier: "human:jeff".to_owned(),
            },
        ),
        Err(PlanError::PassRequiresEvidence)
    );
}

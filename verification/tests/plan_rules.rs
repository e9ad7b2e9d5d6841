use mg_plan::{
    decide_import, envelope_producer, envelope_schema, parse_unsigned, parse_verification_result,
    revision_after_write, CriterionId, EvidenceId, ImportRefusal,
    EvidenceRef, Plan, PlanError, PlanId, RevisionRefusal, VerificationGapReason, VerificationId,
    VerificationInput, VerificationResult, WorkItemId, WorkItemStatus,
};

fn work(value: &str) -> WorkItemId {
    WorkItemId::new(value.to_string()).unwrap()
}

fn criterion(value: &str) -> CriterionId {
    CriterionId::new(value.to_string()).unwrap()
}

fn evidence() -> EvidenceRef {
    EvidenceRef::new(
        EvidenceId::new("e".to_string()).unwrap(),
        "producer".to_string(),
        "record".to_string(),
        "rev".to_string(),
        "digest".to_string(),
    )
    .unwrap()
}

fn attempt(id: &str, c: &str, revision: u64, result: VerificationResult) -> VerificationInput {
    VerificationInput {
        id: VerificationId::new(id.to_string()).unwrap(),
        criterion_id: criterion(c),
        subject_revision: revision,
        evidence: vec![evidence()],
        result,
        verifier: "v".to_owned(),
    }
}

fn plan() -> Plan {
    Plan::new(PlanId::new("p".to_string()).unwrap(), "Plan".to_string()).unwrap()
}

#[test]
fn identifiers_refuse_blank_text() {
    assert_eq!(PlanId::new("".to_string()), Err(PlanError::EmptyIdentifier));
    assert_eq!(PlanId::new(" \t\n".to_string()), Err(PlanError::EmptyIdentifier));
    assert_eq!(PlanId::new("\u{00A0}\u{3000}".to_string()), Err(PlanError::EmptyIdentifier));
    assert_eq!(PlanId::new(" x ".to_string()).unwrap().as_str(), " x ");
    assert_eq!(
        Plan::new(PlanId::new("p".to_string()).unwrap(), "\u{2003}".to_string()),
        Err(PlanError::EmptyText("plan title"))
    );
}

#[test]
fn evidence_refuses_any_blank_part() {
    let id = || EvidenceId::new("e".to_string()).unwrap();
    assert_eq!(
        EvidenceRef::new(id(), " ".to_string(), "r".to_string(), "v".to_string(), "d".to_string()),
        Err(PlanError::EmptyEvidenceReference)
    );
    assert_eq!(
        EvidenceRef::new(id(), "p".to_string(), "r".to_string(), "v".to_string(), "".to_string()),
        Err(PlanError::EmptyEvidenceReference)
    );
    let e = EvidenceRef::new(id(), "p".to_string(), "r".to_string(), "v".to_string(), "d".to_string())
        .unwrap();
    assert_eq!(e.id().as_str(), "e");
    assert_eq!(e.producer(), "p");
    assert_eq!(e.source_record(), "r");
    assert_eq!(e.revision(), "v");
    assert_eq!(e.digest(), "d");
}

#[test]
fn work_item_refusals() {
    let mut p = plan();
    assert_eq!(
        p.add_work_item(work("w"), "".to_string()),
        Err(PlanError::EmptyText("work item title"))
    );
    p.add_work_item(work("w"), "W".to_string()).unwrap();
    assert_eq!(
        p.add_work_item(work("w"), "again".to_string()),
        Err(PlanError::DuplicateWorkItem(work("w")))
    );
    assert_eq!(p.start_work(&work("x")), Err(PlanError::WorkItemNotFound(work("x"))));
    assert_eq!(
        p.unblock_work(&work("w")),
        Err(PlanError::InvalidTransition {
            from: WorkItemStatus::Planned,
            to: WorkItemStatus::Planned
        })
    );
    p.start_work(&work("w")).unwrap();
    p.start_work(&work("w")).unwrap();
    assert_eq!(p.work_item(&work("w")).unwrap().status, WorkItemStatus::InProgress);
    p.block_work(&work("w")).unwrap();
    assert_eq!(
        p.block_work(&work("w")),
        Err(PlanError::InvalidTransition {
            from: WorkItemStatus::Blocked,
            to: WorkItemStatus::Blocked
        })
    );
    assert_eq!(
        p.start_work(&work("w")),
        Err(PlanError::InvalidTransition {
            from: WorkItemStatus::Blocked,
            to: WorkItemStatus::InProgress
        })
    );
    assert_eq!(
        p.revise_work_item(&work("w"), " ".to_string()),
        Err(PlanError::EmptyText("work item title"))
    );
    assert_eq!(
        p.revise_work_item(&work("x"), "X".to_string()),
        Err(PlanError::WorkItemNotFound(work("x")))
    );
}

#[test]
fn dependency_refusals() {
    let mut p = plan();
    p.add_work_item(work("a"), "A".to_string()).unwrap();
    p.add_work_item(work("b"), "B".to_string()).unwrap();
    p.add_work_item(work("c"), "C".to_string()).unwrap();
    assert_eq!(p.add_dependency(&work("x"), &work("a")), Err(PlanError::WorkItemNotFound(work("x"))));
    assert_eq!(p.add_dependency(&work("a"), &work("y")), Err(PlanError::WorkItemNotFound(work("y"))));
    assert_eq!(p.add_dependency(&work("a"), &work("a")), Err(PlanError::SelfDependency));
    p.add_dependency(&work("c"), &work("b")).unwrap();
    p.add_dependency(&work("b"), &work("a")).unwrap();
    assert_eq!(p.add_dependency(&work("c"), &work("b")), Err(PlanError::DuplicateDependency));
    // a <- b <- c: making a depend on c closes a cycle through two edges.
    assert_eq!(p.add_dependency(&work("a"), &work("c")), Err(PlanError::DependencyCycle));
    // c reaches a, so c may depend on a directly too.
    p.add_dependency(&work("c"), &work("a")).unwrap();
    // Adding b <- a... revisions: c was bumped by both edges on b and on a and c.
    assert_eq!(p.work_item(&work("a")).unwrap().revision, 1);
    assert_eq!(p.work_item(&work("b")).unwrap().revision, 2);
    assert_eq!(p.work_item(&work("c")).unwrap().revision, 4);
}

#[test]
fn completion_refusals_come_in_order() {
    let mut p = plan();
    p.add_work_item(work("a"), "A".to_string()).unwrap();
    p.add_work_item(work("b"), "B".to_string()).unwrap();
    p.add_work_item(work("c"), "C".to_string()).unwrap();
    p.add_dependency(&work("c"), &work("b")).unwrap();
    p.add_dependency(&work("c"), &work("a")).unwrap();
    assert_eq!(p.complete(&work("x")), Err(PlanError::WorkItemNotFound(work("x"))));
    // The first open prerequisite in identifier order is named.
    assert_eq!(p.complete(&work("c")), Err(PlanError::DependencyIncomplete(work("a"))));
    assert_eq!(p.complete(&work("a")), Err(PlanError::NoCriteria(work("a"))));
    p.add_criterion(&work("a"), criterion("a1"), "first".to_string()).unwrap();
    p.add_criterion(&work("a"), criterion("a2"), "second".to_string()).unwrap();
    assert_eq!(
        p.add_criterion(&work("a"), criterion("a1"), "dup".to_string()),
        Err(PlanError::DuplicateCriterion(criterion("a1")))
    );
    assert_eq!(
        p.add_criterion(&work("a"), criterion("a3"), "".to_string()),
        Err(PlanError::EmptyText("criterion statement"))
    );
    assert_eq!(
        p.add_criterion(&work("q"), criterion("a3"), "x".to_string()),
        Err(PlanError::WorkItemNotFound(work("q")))
    );
    let revision = p.work_item(&work("a")).unwrap().revision;
    assert_eq!(revision, 3);
    p.record_verification(&work("a"), attempt("v2", "a2", revision, VerificationResult::Pass))
        .unwrap();
    assert_eq!(p.complete(&work("a")), Err(PlanError::CriterionIncomplete(criterion("a1"))));
    p.record_verification(&work("a"), attempt("v1", "a1", revision, VerificationResult::Pass))
        .unwrap();
    p.complete(&work("a")).unwrap();
    assert_eq!(
        p.complete(&work("a")),
        Err(PlanError::InvalidTransition {
            from: WorkItemStatus::Completed,
            to: WorkItemStatus::Completed
        })
    );
    assert_eq!(p.complete(&work("c")), Err(PlanError::DependencyIncomplete(work("b"))));
}

#[test]
fn verification_refusals_come_in_order() {
    let mut p = plan();
    p.add_work_item(work("w"), "W".to_string()).unwrap();
    p.add_criterion(&work("w"), criterion("c"), "C".to_string()).unwrap();
    let mut blank = attempt("v", "c", 2, VerificationResult::Pass);
    blank.verifier = "  ".to_string();
    assert_eq!(p.record_verification(&work("w"), blank), Err(PlanError::EmptyVerifier));
    assert_eq!(
        p.record_verification(&work("x"), attempt("v", "c", 2, VerificationResult::Pass)),
        Err(PlanError::WorkItemNotFound(work("x")))
    );
    assert_eq!(
        p.record_verification(&work("w"), attempt("v", "c", 7, VerificationResult::Pass)),
        Err(PlanError::StaleVerification { expected: 2, actual: 7 })
    );
    assert_eq!(
        p.record_verification(&work("w"), attempt("v", "nope", 2, VerificationResult::Pass)),
        Err(PlanError::CriterionNotFound(criterion("nope")))
    );
    let mut empty = attempt("v", "c", 2, VerificationResult::Fail);
    empty.evidence.clear();
    p.record_verification(&work("w"), empty).unwrap();
    p.record_verification(&work("w"), attempt("v2", "c", 2, VerificationResult::Inconclusive))
        .unwrap();
    let item = p.work_item(&work("w")).unwrap();
    assert_eq!(item.criteria[0].verifications.len(), 2);
    assert_eq!(item.criteria[0].verifications[0].attempt, 1);
    assert_eq!(item.criteria[0].verifications[1].attempt, 2);
    assert_eq!(item.revision, 2);
}

#[test]
fn gap_reasons_follow_the_latest_verification() {
    let mut p = plan();
    p.add_work_item(work("w"), "W".to_string()).unwrap();
    p.add_criterion(&work("w"), criterion("c"), "C".to_string()).unwrap();
    let mut no_evidence = attempt("v1", "c", 2, VerificationResult::Fail);
    no_evidence.evidence.clear();
    p.record_verification(&work("w"), no_evidence).unwrap();
    assert_eq!(p.verification_gaps()[0].reason, VerificationGapReason::MissingEvidence);
    p.record_verification(&work("w"), attempt("v2", "c", 2, VerificationResult::Waived))
        .unwrap();
    assert_eq!(p.verification_gaps()[0].reason, VerificationGapReason::NonPassingVerification);
    p.record_verification(&work("w"), attempt("v3", "c", 2, VerificationResult::Pass))
        .unwrap();
    assert!(p.verification_gaps().is_empty());
    p.complete(&work("w")).unwrap();
    assert!(p.blocked_work_item_summaries().is_empty());
    assert_eq!(p.work_item_summaries()[0].criteria_count, 1);
}

#[test]
fn messages_explain_refusals() {
    assert_eq!(PlanError::EmptyIdentifier.message(), "identifier must not be empty");
    assert_eq!(
        PlanError::EmptyText("plan title").message(),
        "plan title: value must not be empty"
    );
    assert_eq!(
        PlanError::WorkItemNotFound(work("w-1")).message(),
        "work item not found: w-1"
    );
    assert_eq!(
        PlanError::StaleVerification { expected: 12, actual: 907 }.message(),
        "verification targets revision 907, expected 12"
    );
    assert_eq!(
        PlanError::StaleVerification { expected: 0, actual: u64::MAX }.message(),
        "verification targets revision 18446744073709551615, expected 0"
    );
    assert_eq!(
        PlanError::InvalidTransition {
            from: WorkItemStatus::InProgress,
            to: WorkItemStatus::Completed
        }
        .message(),
        "invalid work-item transition: in-progress -> completed"
    );
    assert_eq!(WorkItemStatus::Blocked.label(), "blocked");
    assert_eq!(
        PlanError::CriterionIncomplete(criterion("c")).message(),
        "criterion is not verified: c"
    );
}

#[test]
fn numerals_and_result_names_are_read_exactly() {
    assert_eq!(parse_unsigned("0"), Some(0));
    assert_eq!(parse_unsigned("42"), Some(42));
    assert_eq!(parse_unsigned("+7"), Some(7));
    assert_eq!(parse_unsigned("18446744073709551615"), Some(u64::MAX));
    assert_eq!(parse_unsigned("18446744073709551616"), None);
    assert_eq!(parse_unsigned(""), None);
    assert_eq!(parse_unsigned("+"), None);
    assert_eq!(parse_unsigned("-1"), None);
    assert_eq!(parse_unsigned("1 "), None);
    assert_eq!(parse_unsigned("12a"), None);
    assert_eq!(parse_verification_result("pass"), Some(VerificationResult::Pass));
    assert_eq!(parse_verification_result("fail"), Some(VerificationResult::Fail));
    assert_eq!(parse_verification_result("inconclusive"), Some(VerificationResult::Inconclusive));
    assert_eq!(parse_verification_result("waived"), Some(VerificationResult::Waived));
    assert_eq!(parse_verification_result("Pass"), None);
    assert_eq!(parse_verification_result("passed"), None);
}

#[test]
fn stale_writers_are_refused() {
    assert_eq!(revision_after_write(1, 1), Ok(2));
    assert_eq!(
        revision_after_write(1, 2),
        Err(RevisionRefusal::Conflict { expected: 1, actual: 2 })
    );
    assert_eq!(revision_after_write(u64::MAX, u64::MAX), Err(RevisionRefusal::Overflow));
}

#[test]
fn refused_requests_leave_the_plan_unchanged() {
    let mut p = plan();
    p.add_work_item(work("a"), "A".to_string()).unwrap();
    p.add_work_item(work("b"), "B".to_string()).unwrap();
    p.add_dependency(&work("b"), &work("a")).unwrap();
    let before = p.clone();
    assert!(p.add_dependency(&work("a"), &work("b")).is_err());
    assert!(p.complete(&work("b")).is_err());
    assert!(p.add_criterion(&work("a"), criterion("c"), " ".to_string()).is_err());
    assert_eq!(p, before);
}

#[test]
fn a_change_reaches_transitive_dependents() {
    let mut p = plan();
    for id in ["a", "b", "c", "d"] {
        p.add_work_item(work(id), id.to_uppercase()).unwrap();
    }
    p.add_dependency(&work("b"), &work("a")).unwrap();
    p.add_dependency(&work("c"), &work("b")).unwrap();
    let before: Vec<u64> = p.work_item_summaries().iter().map(|s| s.revision).collect();
    p.revise_work_item(&work("a"), "A2".to_string()).unwrap();
    let after: Vec<u64> = p.work_item_summaries().iter().map(|s| s.revision).collect();
    assert_eq!(after[0], before[0] + 1);
    assert_eq!(after[1], before[1] + 1);
    assert_eq!(after[2], before[2] + 1);
    assert_eq!(after[3], before[3]);
    assert_eq!(p.work_item(&work("a")).unwrap().title, "A2");
}

#[test]
fn revisions_that_cannot_advance_are_refused() {
    let item = mg_plan::WorkItem {
        id: work("w"),
        title: "W".to_string(),
        status: WorkItemStatus::Completed,
        revision: u64::MAX,
        criteria: Vec::new(),
    };
    let mut p = Plan::from_parts(
        PlanId::new("p".to_string()).unwrap(),
        "P".to_string(),
        vec![item],
        Vec::new(),
        Vec::new(),
        Vec::new(),
        Vec::new(),
    )
    .unwrap();
    let before = p.clone();
    assert_eq!(
        p.revise_work_item(&work("w"), "W2".to_string()),
        Err(PlanError::RevisionOverflow)
    );
    assert_eq!(
        p.add_criterion(&work("w"), criterion("c"), "C".to_string()),
        Err(PlanError::RevisionOverflow)
    );
    assert_eq!(p, before);
}

#[test]
fn prerequisite_edges_form_an_ordered_set() {
    let mut first = plan();
    let mut second = plan();
    for p in [&mut first, &mut second] {
        for id in ["a", "b", "c"] {
            p.add_work_item(work(id), id.to_uppercase()).unwrap();
        }
    }
    first.add_dependency(&work("c"), &work("a")).unwrap();
    first.add_dependency(&work("b"), &work("a")).unwrap();
    first.add_dependency(&work("c"), &work("b")).unwrap();
    second.add_dependency(&work("b"), &work("a")).unwrap();
    second.add_dependency(&work("c"), &work("a")).unwrap();
    second.add_dependency(&work("c"), &work("b")).unwrap();
    let edges: Vec<(String, String)> = first
        .dependencies()
        .iter()
        .map(|(d, p)| (d.as_str().to_string(), p.as_str().to_string()))
        .collect();
    assert_eq!(
        edges,
        vec![
            ("b".to_string(), "a".to_string()),
            ("c".to_string(), "a".to_string()),
            ("c".to_string(), "b".to_string()),
        ]
    );
    assert_eq!(first.dependencies(), second.dependencies());
}

#[test]
fn unicode_whitespace_alone_is_blank() {
    for blank in ["\u{2003}", "\u{3000}\u{85}", "\u{a0}\t\n", "\u{1680}\u{202f}"] {
        assert_eq!(WorkItemId::new(blank.to_string()), Err(PlanError::EmptyIdentifier));
    }
    for text in ["\u{200b}", "\u{180e}", "x\u{3000}"] {
        assert!(WorkItemId::new(text.to_string()).is_ok());
    }
}

#[test]
fn completed_work_has_no_gap_and_completed_prerequisites() {
    let mut p = plan();
    p.add_work_item(work("a"), "A".to_string()).unwrap();
    p.add_work_item(work("b"), "B".to_string()).unwrap();
    p.add_dependency(&work("b"), &work("a")).unwrap();
    p.add_criterion(&work("a"), criterion("ca"), "A holds".to_string()).unwrap();
    p.add_criterion(&work("b"), criterion("cb"), "B holds".to_string()).unwrap();
    let ra = p.work_item(&work("a")).unwrap().revision;
    p.record_verification(&work("a"), attempt("va", "ca", ra, VerificationResult::Pass)).unwrap();
    p.complete(&work("a")).unwrap();
    let rb = p.work_item(&work("b")).unwrap().revision;
    p.record_verification(&work("b"), attempt("vb", "cb", rb, VerificationResult::Pass)).unwrap();
    p.complete(&work("b")).unwrap();
    assert!(p.verification_gaps().is_empty());
    p.revise_work_item(&work("a"), "A again".to_string()).unwrap();
    assert_eq!(p.work_item(&work("a")).unwrap().status, WorkItemStatus::Planned);
    assert_eq!(p.work_item(&work("b")).unwrap().status, WorkItemStatus::Planned);
    let all_gaps = p.verification_gaps();
    let gaps: Vec<&str> = all_gaps.iter().map(|g| g.work_item_id.as_str()).collect();
    assert_eq!(gaps, vec!["a", "b"]);
}

#[test]
fn imported_envelopes_are_checked_before_they_replace_anything() {
    let schema = envelope_schema();
    let producer = envelope_producer();
    assert_eq!(schema, "mg.plan/1");
    assert_eq!(producer, "mg-plan");
    assert_eq!(decide_import("mg.plan/2", producer, 1, None), Err(ImportRefusal::WrongSchema));
    assert_eq!(decide_import(schema, "mg-lab", 1, None), Err(ImportRefusal::WrongProducer));
    assert_eq!(decide_import(schema, producer, 0, Some(3)), Err(ImportRefusal::RevisionZero));
    assert_eq!(decide_import(schema, producer, 1, None), Ok(1));
    assert_eq!(
        decide_import(schema, producer, 2, None),
        Err(ImportRefusal::NewPlanNotFirst { revision: 2 })
    );
    assert_eq!(decide_import(schema, producer, 3, Some(3)), Ok(4));
    assert_eq!(
        decide_import(schema, producer, 3, Some(4)),
        Err(ImportRefusal::Revision(RevisionRefusal::Conflict { expected: 3, actual: 4 }))
    );
    assert_eq!(
        decide_import(schema, producer, u64::MAX, Some(u64::MAX)),
        Err(ImportRefusal::Revision(RevisionRefusal::Overflow))
    );
}

//! Human-readable explanations of statuses and refusals.
use vstd::prelude::*;
use vstd::string::StringExecFns;

use crate::model::{PlanError, WorkItemStatus};

verus! {

/// The character of decimal digit `d`.
pub open spec fn digit_char(d: nat) -> char {
    (d + 48) as char
}

/// The decimal numeral of `n`, without leading zeros.
pub open spec fn decimal(n: nat) -> Seq<char>
    decreases n,
{
    if n < 10 {
        seq![digit_char(n)]
    } else {
        decimal(n / 10).push(digit_char(n % 10))
    }
}

fn digit_text(d: u64) -> (r: &'static str)
    requires
        d < 10,
    ensures
        r@ == seq![digit_char(d as nat)],
{
    proof {
        reveal_strlit("0");
        reveal_strlit("1");
        reveal_strlit("2");
        reveal_strlit("3");
        reveal_strlit("4");
        reveal_strlit("5");
        reveal_strlit("6");
        reveal_strlit("7");
        reveal_strlit("8");
        reveal_strlit("9");
    }
    match d {
        0 => "0",
        1 => "1",
        2 => "2",
        3 => "3",
        4 => "4",
        5 => "5",
        6 => "6",
        7 => "7",
        8 => "8",
        _ => "9",
    }
}

/// The decimal numeral of `n`.
pub fn decimal_text(n: u64) -> (r: String)
    ensures
        r@ == decimal(n as nat),
    decreases n,
{
    if n < 10 {
        String::from_str(digit_text(n))
    } else {
        let mut text = decimal_text(n / 10);
        text.append(digit_text(n % 10));
        text
    }
}

/// The name a status is shown by.
pub open spec fn status_label(status: WorkItemStatus) -> Seq<char> {
    match status {
        WorkItemStatus::Planned => "planned"@,
        WorkItemStatus::InProgress => "in-progress"@,
        WorkItemStatus::Blocked => "blocked"@,
        WorkItemStatus::Completed => "completed"@,
    }
}

/// The explanation of a refusal.
pub open spec fn refusal_text(error: PlanError) -> Seq<char> {
    match error {
        PlanError::EmptyIdentifier => "identifier must not be empty"@,
        PlanError::EmptyText(field) => field@ + ": value must not be empty"@,
        PlanError::EmptyEvidenceReference => "evidence reference is incomplete"@,
        PlanError::DuplicateWorkItem(id) => "work item already exists: "@ + id@,
        PlanError::DuplicateVerification(id) => "verification already exists: "@ + id@,
        PlanError::WorkItemNotFound(id) => "work item not found: "@ + id@,
        PlanError::CriterionNotFound(id) => "criterion not found: "@ + id@,
        PlanError::DuplicateCriterion(id) => "criterion already exists: "@ + id@,
        PlanError::DuplicateDependency => "dependency already exists"@,
        PlanError::SelfDependency => "work item cannot depend on itself"@,
        PlanError::DependencyCycle => "dependency would create a cycle"@,
        PlanError::NoCriteria(id) => "work item has no acceptance criteria: "@ + id@,
        PlanError::DependencyIncomplete(id) => "dependency is incomplete: "@ + id@,
        PlanError::CriterionIncomplete(id) => "criterion is not verified: "@ + id@,
        PlanError::PassRequiresEvidence => "a passing verification requires evidence"@,
        PlanError::StaleVerification { expected, actual } => "verification targets revision "@
            + decimal(actual as nat) + ", expected "@ + decimal(expected as nat),
        PlanError::RevisionOverflow => "work item revision overflow"@,
        PlanError::AttemptOverflow => "verification attempt overflow"@,
        PlanError::InvalidTransition { from, to } => "invalid work-item transition: "@
            + status_label(from) + " -> "@ + status_label(to),
        PlanError::EmptyVerifier => "verifier must not be empty"@,
        PlanError::DuplicateProject(id) => "project already exists: "@ + id@,
        PlanError::DuplicateMilestone(id) => "milestone already exists: "@ + id@,
        PlanError::DuplicateDecision(id) => "decision already exists: "@ + id@,
        PlanError::ProjectNotFound(id) => "project not found: "@ + id@,
        PlanError::MilestoneNotFound(id) => "milestone not found: "@ + id@,
        PlanError::WorkItemAlreadyLinked(id) => "work item already linked: "@ + id@,
    }
}

/// `lead` followed by `rest`.
fn joined(lead: &str, rest: &str) -> (r: String)
    ensures
        r@ == lead@ + rest@,
{
    let mut text = String::from_str(lead);
    text.append(rest);
    text
}

impl WorkItemStatus {
    /// The name the status is shown by.
    pub fn label(&self) -> (r: &'static str)
        ensures
            r@ == status_label(*self),
    {
        match self {
            WorkItemStatus::Planned => "planned",
            WorkItemStatus::InProgress => "in-progress",
            WorkItemStatus::Blocked => "blocked",
            WorkItemStatus::Completed => "completed",
        }
    }
}

impl PlanError {
    /// Explains the refusal without exposing how the plan is kept.
    pub fn message(&self) -> (r: String)
        ensures
            r@ == refusal_text(*self),
    {
        match self {
            PlanError::EmptyIdentifier => String::from_str("identifier must not be empty"),
            PlanError::EmptyText(field) => joined(field, ": value must not be empty"),
            PlanError::EmptyEvidenceReference => String::from_str(
                "evidence reference is incomplete",
            ),
            PlanError::DuplicateWorkItem(id) => joined("work item already exists: ", id.as_str()),
            PlanError::DuplicateVerification(id) => joined(
                "verification already exists: ",
                id.as_str(),
            ),
            PlanError::WorkItemNotFound(id) => joined("work item not found: ", id.as_str()),
            PlanError::CriterionNotFound(id) => joined("criterion not found: ", id.as_str()),
            PlanError::DuplicateCriterion(id) => joined("criterion already exists: ", id.as_str()),
            PlanError::DuplicateDependency => String::from_str("dependency already exists"),
            PlanError::SelfDependency => String::from_str("work item cannot depend on itself"),
            PlanError::DependencyCycle => String::from_str("dependency would create a cycle"),
            PlanError::NoCriteria(id) => joined(
                "work item has no acceptance criteria: ",
                id.as_str(),
            ),
            PlanError::DependencyIncomplete(id) => joined(
                "dependency is incomplete: ",
                id.as_str(),
            ),
            PlanError::CriterionIncomplete(id) => joined(
                "criterion is not verified: ",
                id.as_str(),
            ),
            PlanError::PassRequiresEvidence => String::from_str(
                "a passing verification requires evidence",
            ),
            PlanError::StaleVerification { expected, actual } => {
                let mut text = String::from_str("verification targets revision ");
                text.append(decimal_text(*actual).as_str());
                text.append(", expected ");
                text.append(decimal_text(*expected).as_str());
                text
            },
            PlanError::RevisionOverflow => String::from_str("work item revision overflow"),
            PlanError::AttemptOverflow => String::from_str("verification attempt overflow"),
            PlanError::InvalidTransition { from, to } => {
                let mut text = String::from_str("invalid work-item transition: ");
                text.append(from.label());
                text.append(" -> ");
                text.append(to.label());
                text
            },
            PlanError::EmptyVerifier => String::from_str("verifier must not be empty"),
            PlanError::DuplicateProject(id) => joined("project already exists: ", id.as_str()),
            PlanError::DuplicateMilestone(id) => joined("milestone already exists: ", id.as_str()),
            PlanError::DuplicateDecision(id) => joined("decision already exists: ", id.as_str()),
            PlanError::ProjectNotFound(id) => joined("project not found: ", id.as_str()),
            PlanError::MilestoneNotFound(id) => joined("milestone not found: ", id.as_str()),
            PlanError::WorkItemAlreadyLinked(id) => joined("work item already linked: ", id.as_str()),
        }
    }
}

} // verus!

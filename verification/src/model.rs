//! The records a plan is made of, the projections it answers with, and the
//! reasons it refuses a request.
use vstd::prelude::*;

use crate::ids::{
    CriterionId, DecisionId, EvidenceId, MilestoneId, ProjectId, VerificationId, WorkItemId,
};
use crate::keyed::Keyed;
use crate::text::{blank, is_blank};

verus! {

/// Where a work item stands in its lifecycle.
#[derive(Clone, Copy, Debug, PartialEq, Eq, Structural)]
pub enum WorkItemStatus {
    Planned,
    InProgress,
    Blocked,
    Completed,
}

/// The outcome a verifier recorded for an acceptance criterion.
#[derive(Clone, Copy, Debug, PartialEq, Eq, Structural)]
pub enum VerificationResult {
    Pass,
    Fail,
    Inconclusive,
    Waived,
}

/// A reference to evidence that its producer owns; the plan keeps only the
/// reference.
#[derive(Clone, Debug, PartialEq, Eq)]
pub struct EvidenceRef {
    id: EvidenceId,
    producer: String,
    source_record: String,
    revision: String,
    digest: String,
}

impl EvidenceRef {
    pub closed spec fn evidence_id(&self) -> EvidenceId {
        self.id
    }

    pub closed spec fn producer_text(&self) -> Seq<char> {
        self.producer@
    }

    pub closed spec fn source_record_text(&self) -> Seq<char> {
        self.source_record@
    }

    pub closed spec fn revision_text(&self) -> Seq<char> {
        self.revision@
    }

    pub closed spec fn digest_text(&self) -> Seq<char> {
        self.digest@
    }

    /// Constructs a reference; each of its texts must not be blank.
    pub fn new(
        id: EvidenceId,
        producer: String,
        source_record: String,
        revision: String,
        digest: String,
    ) -> (r: Result<Self, PlanError>)
        ensures
            (blank(producer@) || blank(source_record@) || blank(revision@) || blank(digest@))
                ==> r == Err::<Self, PlanError>(PlanError::EmptyEvidenceReference),
            !(blank(producer@) || blank(source_record@) || blank(revision@) || blank(digest@))
                ==> (r matches Ok(e) && e.evidence_id() == id && e.producer_text() == producer@
                && e.source_record_text() == source_record@ && e.revision_text() == revision@
                && e.digest_text() == digest@),
    {
        if is_blank(producer.as_str()) || is_blank(source_record.as_str()) || is_blank(
            revision.as_str(),
        ) || is_blank(digest.as_str()) {
            return Err(PlanError::EmptyEvidenceReference);
        }
        Ok(EvidenceRef { id, producer, source_record, revision, digest })
    }

    /// The stable evidence identifier.
    pub fn id(&self) -> (r: &EvidenceId)
        ensures
            *r == self.evidence_id(),
    {
        &self.id
    }

    /// Who produced the evidence.
    pub fn producer(&self) -> (r: &str)
        ensures
            r@ == self.producer_text(),
    {
        self.producer.as_str()
    }

    /// The producer's record that holds the evidence.
    pub fn source_record(&self) -> (r: &str)
        ensures
            r@ == self.source_record_text(),
    {
        self.source_record.as_str()
    }

    /// The revision of the evidence.
    pub fn revision(&self) -> (r: &str)
        ensures
            r@ == self.revision_text(),
    {
        self.revision.as_str()
    }

    /// The digest of the evidence.
    pub fn digest(&self) -> (r: &str)
        ensures
            r@ == self.digest_text(),
    {
        self.digest.as_str()
    }
}

/// One recorded verification attempt, pinned to the revision it examined.
#[derive(Clone, Debug, PartialEq, Eq)]
pub struct Verification {
    pub id: VerificationId,
    pub criterion_id: CriterionId,
    pub subject_revision: u64,
    pub evidence: Vec<EvidenceRef>,
    pub result: VerificationResult,
    pub verifier: String,
    pub attempt: u64,
}

/// What a caller hands in to record a verification attempt.
#[derive(Clone, Debug, PartialEq, Eq)]
pub struct VerificationInput {
    pub id: VerificationId,
    pub criterion_id: CriterionId,
    pub subject_revision: u64,
    pub evidence: Vec<EvidenceRef>,
    pub result: VerificationResult,
    pub verifier: String,
}

/// A condition that must be verified before its work item completes.
#[derive(Clone, Debug, PartialEq, Eq)]
pub struct AcceptanceCriterion {
    pub id: CriterionId,
    pub statement: String,
    pub verifications: Vec<Verification>,
}

/// A unit of planned work.
#[derive(Clone, Debug, PartialEq, Eq)]
pub struct WorkItem {
    pub id: WorkItemId,
    pub title: String,
    pub status: WorkItemStatus,
    pub revision: u64,
    pub criteria: Vec<AcceptanceCriterion>,
}

/// A compact view of a work item.
#[derive(Clone, Debug, PartialEq, Eq)]
pub struct WorkItemSummary {
    pub id: WorkItemId,
    pub title: String,
    pub status: WorkItemStatus,
    pub revision: u64,
    pub criteria_count: usize,
}

/// Why a criterion cannot currently prove completion.
#[derive(Clone, Copy, Debug, PartialEq, Eq, Structural)]
pub enum VerificationGapReason {
    MissingVerification,
    NonPassingVerification,
    StaleVerification,
    MissingEvidence,
}

/// A criterion that cannot currently prove completion, and why.
#[derive(Clone, Debug, PartialEq, Eq)]
pub struct VerificationGap {
    pub work_item_id: WorkItemId,
    pub criterion_id: CriterionId,
    pub reason: VerificationGapReason,
}

/// A container of milestones; it owns no completion of its own.
#[derive(Clone, Debug, PartialEq, Eq)]
pub struct Project {
    pub id: ProjectId,
    pub title: String,
    pub milestone_ids: Vec<MilestoneId>,
}

/// A milestone of a project, linked to existing work items. Its linked
/// identifiers are kept in increasing order, each once.
#[derive(Clone, Debug, PartialEq, Eq)]
pub struct Milestone {
    pub id: MilestoneId,
    pub project_id: ProjectId,
    pub title: String,
    pub work_item_ids: Vec<WorkItemId>,
}

/// A recorded decision with its rationale.
#[derive(Clone, Debug, PartialEq, Eq)]
pub struct Decision {
    pub id: DecisionId,
    pub question: String,
    pub decision: String,
    pub rationale: String,
}

/// Progress of a milestone, derived from the status of its linked work.
#[derive(Clone, Debug, PartialEq, Eq)]
pub struct MilestoneSummary {
    pub id: MilestoneId,
    pub project_id: ProjectId,
    pub title: String,
    pub total_work_items: usize,
    pub completed_work_items: usize,
    pub complete: bool,
}

/// Why the plan refused a request.
#[derive(Clone, Debug, PartialEq, Eq)]
pub enum PlanError {
    EmptyIdentifier,
    EmptyText(&'static str),
    EmptyEvidenceReference,
    DuplicateWorkItem(WorkItemId),
    DuplicateVerification(VerificationId),
    WorkItemNotFound(WorkItemId),
    CriterionNotFound(CriterionId),
    DuplicateCriterion(CriterionId),
    DuplicateDependency,
    SelfDependency,
    DependencyCycle,
    NoCriteria(WorkItemId),
    DependencyIncomplete(WorkItemId),
    CriterionIncomplete(CriterionId),
    PassRequiresEvidence,
    StaleVerification { expected: u64, actual: u64 },
    RevisionOverflow,
    AttemptOverflow,
    InvalidTransition { from: WorkItemStatus, to: WorkItemStatus },
    EmptyVerifier,
    DuplicateProject(ProjectId),
    DuplicateMilestone(MilestoneId),
    DuplicateDecision(DecisionId),
    ProjectNotFound(ProjectId),
    MilestoneNotFound(MilestoneId),
    WorkItemAlreadyLinked(WorkItemId),
}

impl Keyed for WorkItem {
    open spec fn key(&self) -> Seq<char> {
        self.id@
    }

    fn key_text(&self) -> (r: &str) {
        self.id.as_str()
    }
}

impl Keyed for Project {
    open spec fn key(&self) -> Seq<char> {
        self.id@
    }

    fn key_text(&self) -> (r: &str) {
        self.id.as_str()
    }
}

impl Keyed for Milestone {
    open spec fn key(&self) -> Seq<char> {
        self.id@
    }

    fn key_text(&self) -> (r: &str) {
        self.id.as_str()
    }
}

impl Keyed for Decision {
    open spec fn key(&self) -> Seq<char> {
        self.id@
    }

    fn key_text(&self) -> (r: &str) {
        self.id.as_str()
    }
}

impl Keyed for AcceptanceCriterion {
    open spec fn key(&self) -> Seq<char> {
        self.id@
    }

    fn key_text(&self) -> (r: &str) {
        self.id.as_str()
    }
}

} // verus!

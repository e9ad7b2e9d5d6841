//! Durable commitment and verification kernel of a plan: work items,
//! prerequisites, acceptance criteria and revision-pinned verification.
use vstd::prelude::*;

pub mod criteria;
pub mod document;
pub mod edges;
pub mod graph;
pub mod ids;
pub mod keyed;
pub mod laws;
pub mod lifecycle;
pub mod message;
pub mod model;
pub mod parse;
pub mod plan;
pub mod queries;
pub mod sound;
pub mod store;
pub mod structure;
pub mod text;

pub use ids::{
    CriterionId, DecisionId, EvidenceId, MilestoneId, PlanId, ProjectId, VerificationId,
    WorkItemId,
};
pub use parse::{parse_unsigned, parse_verification_result};
pub use plan::Plan;
pub use store::{
    decide_import, envelope_producer, envelope_schema, revision_after_write, ImportRefusal,
    MutationRecord, RevisionRefusal, StoredPlan, FIRST_REVISION,
};
pub use model::{
    AcceptanceCriterion, Decision, EvidenceRef, Milestone, MilestoneSummary, PlanError, Project,
    Verification, VerificationGap, VerificationGapReason, VerificationInput, VerificationResult,
    WorkItem, WorkItemStatus, WorkItemSummary,
};

verus! {
} // verus!

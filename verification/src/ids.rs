//! Opaque, validated identifiers. Each is text that is not blank.
use vstd::prelude::*;

use crate::keyed::Keyed;
use crate::model::PlanError;
use crate::text::{blank, is_blank};

verus! {

/// Identifies a plan.
#[derive(Debug, PartialEq, Eq)]
pub struct PlanId(String);

impl View for PlanId {
    type V = Seq<char>;

    closed spec fn view(&self) -> Seq<char> {
        self.0@
    }
}

impl PlanId {
    /// Constructs the identifier; blank text is refused.
    pub fn new(value: String) -> (r: Result<Self, PlanError>)
        ensures
            blank(value@) ==> r == Err::<Self, PlanError>(PlanError::EmptyIdentifier),
            !blank(value@) ==> (r matches Ok(id) && id@ == value@),
    {
        if is_blank(value.as_str()) {
            return Err(PlanError::EmptyIdentifier);
        }
        Ok(PlanId(value))
    }

    /// The identifier's text.
    pub fn as_str(&self) -> (r: &str)
        ensures
            r@ == self@,
    {
        self.0.as_str()
    }

    /// Whether both identifiers have the same text.
    pub fn same_as(&self, other: &Self) -> (r: bool)
        ensures
            r == (self@ == other@),
    {
        self.0 == other.0
    }
}

impl Clone for PlanId {
    fn clone(&self) -> (r: Self)
        ensures
            r == *self,
    {
        PlanId(self.0.clone())
    }
}

/// Identifies a work item.
#[derive(Debug, PartialEq, Eq)]
pub struct WorkItemId(String);

impl View for WorkItemId {
    type V = Seq<char>;

    closed spec fn view(&self) -> Seq<char> {
        self.0@
    }
}

impl WorkItemId {
    /// Constructs the identifier; blank text is refused.
    pub fn new(value: String) -> (r: Result<Self, PlanError>)
        ensures
            blank(value@) ==> r == Err::<Self, PlanError>(PlanError::EmptyIdentifier),
            !blank(value@) ==> (r matches Ok(id) && id@ == value@),
    {
        if is_blank(value.as_str()) {
            return Err(PlanError::EmptyIdentifier);
        }
        Ok(WorkItemId(value))
    }

    /// The identifier's text.
    pub fn as_str(&self) -> (r: &str)
        ensures
            r@ == self@,
    {
        self.0.as_str()
    }

    /// Whether both identifiers have the same text.
    pub fn same_as(&self, other: &Self) -> (r: bool)
        ensures
            r == (self@ == other@),
    {
        self.0 == other.0
    }
}

impl Clone for WorkItemId {
    fn clone(&self) -> (r: Self)
        ensures
            r == *self,
    {
        WorkItemId(self.0.clone())
    }
}

/// Identifies an acceptance criterion.
#[derive(Debug, PartialEq, Eq)]
pub struct CriterionId(String);

impl View for CriterionId {
    type V = Seq<char>;

    closed spec fn view(&self) -> Seq<char> {
        self.0@
    }
}

impl CriterionId {
    /// Constructs the identifier; blank text is refused.
    pub fn new(value: String) -> (r: Result<Self, PlanError>)
        ensures
            blank(value@) ==> r == Err::<Self, PlanError>(PlanError::EmptyIdentifier),
            !blank(value@) ==> (r matches Ok(id) && id@ == value@),
    {
        if is_blank(value.as_str()) {
            return Err(PlanError::EmptyIdentifier);
        }
        Ok(CriterionId(value))
    }

    /// The identifier's text.
    pub fn as_str(&self) -> (r: &str)
        ensures
            r@ == self@,
    {
        self.0.as_str()
    }

    /// Whether both identifiers have the same text.
    pub fn same_as(&self, other: &Self) -> (r: bool)
        ensures
            r == (self@ == other@),
    {
        self.0 == other.0
    }
}

impl Clone for CriterionId {
    fn clone(&self) -> (r: Self)
        ensures
            r == *self,
    {
        CriterionId(self.0.clone())
    }
}

/// Identifies a verification attempt.
#[derive(Debug, PartialEq, Eq)]
pub struct VerificationId(String);

impl View for VerificationId {
    type V = Seq<char>;

    closed spec fn view(&self) -> Seq<char> {
        self.0@
    }
}

impl VerificationId {
    /// Constructs the identifier; blank text is refused.
    pub fn new(value: String) -> (r: Result<Self, PlanError>)
        ensures
            blank(value@) ==> r == Err::<Self, PlanError>(PlanError::EmptyIdentifier),
            !blank(value@) ==> (r matches Ok(id) && id@ == value@),
    {
        if is_blank(value.as_str()) {
            return Err(PlanError::EmptyIdentifier);
        }
        Ok(VerificationId(value))
    }

    /// The identifier's text.
    pub fn as_str(&self) -> (r: &str)
        ensures
            r@ == self@,
    {
        self.0.as_str()
    }

    /// Whether both identifiers have the same text.
    pub fn same_as(&self, other: &Self) -> (r: bool)
        ensures
            r == (self@ == other@),
    {
        self.0 == other.0
    }
}

impl Clone for VerificationId {
    fn clone(&self) -> (r: Self)
        ensures
            r == *self,
    {
        VerificationId(self.0.clone())
    }
}

/// Identifies a piece of producer-owned evidence.
#[derive(Debug, PartialEq, Eq)]
pub struct EvidenceId(String);

impl View for EvidenceId {
    type V = Seq<char>;

    closed spec fn view(&self) -> Seq<char> {
        self.0@
    }
}

impl EvidenceId {
    /// Constructs the identifier; blank text is refused.
    pub fn new(value: String) -> (r: Result<Self, PlanError>)
        ensures
            blank(value@) ==> r == Err::<Self, PlanError>(PlanError::EmptyIdentifier),
            !blank(value@) ==> (r matches Ok(id) && id@ == value@),
    {
        if is_blank(value.as_str()) {
            return Err(PlanError::EmptyIdentifier);
        }
        Ok(EvidenceId(value))
    }

    /// The identifier's text.
    pub fn as_str(&self) -> (r: &str)
        ensures
            r@ == self@,
    {
        self.0.as_str()
    }

    /// Whether both identifiers have the same text.
    pub fn same_as(&self, other: &Self) -> (r: bool)
        ensures
            r == (self@ == other@),
    {
        self.0 == other.0
    }
}

impl Clone for EvidenceId {
    fn clone(&self) -> (r: Self)
        ensures
            r == *self,
    {
        EvidenceId(self.0.clone())
    }
}

/// Identifies a project.
#[derive(Debug, PartialEq, Eq)]
pub struct ProjectId(String);

impl View for ProjectId {
    type V = Seq<char>;

    closed spec fn view(&self) -> Seq<char> {
        self.0@
    }
}

impl ProjectId {
    /// Constructs the identifier; blank text is refused.
    pub fn new(value: String) -> (r: Result<Self, PlanError>)
        ensures
            blank(value@) ==> r == Err::<Self, PlanError>(PlanError::EmptyIdentifier),
            !blank(value@) ==> (r matches Ok(id) && id@ == value@),
    {
        if is_blank(value.as_str()) {
            return Err(PlanError::EmptyIdentifier);
        }
        Ok(ProjectId(value))
    }

    /// The identifier's text.
    pub fn as_str(&self) -> (r: &str)
        ensures
            r@ == self@,
    {
        self.0.as_str()
    }

    /// Whether both identifiers have the same text.
    pub fn same_as(&self, other: &Self) -> (r: bool)
        ensures
            r == (self@ == other@),
    {
        self.0 == other.0
    }
}

impl Clone for ProjectId {
    fn clone(&self) -> (r: Self)
        ensures
            r == *self,
    {
        ProjectId(self.0.clone())
    }
}

/// Identifies a milestone.
#[derive(Debug, PartialEq, Eq)]
pub struct MilestoneId(String);

impl View for MilestoneId {
    type V = Seq<char>;

    closed spec fn view(&self) -> Seq<char> {
        self.0@
    }
}

impl MilestoneId {
    /// Constructs the identifier; blank text is refused.
    pub fn new(value: String) -> (r: Result<Self, PlanError>)
        ensures
            blank(value@) ==> r == Err::<Self, PlanError>(PlanError::EmptyIdentifier),
            !blank(value@) ==> (r matches Ok(id) && id@ == value@),
    {
        if is_blank(value.as_str()) {
            return Err(PlanError::EmptyIdentifier);
        }
        Ok(MilestoneId(value))
    }

    /// The identifier's text.
    pub fn as_str(&self) -> (r: &str)
        ensures
            r@ == self@,
    {
        self.0.as_str()
    }

    /// Whether both identifiers have the same text.
    pub fn same_as(&self, other: &Self) -> (r: bool)
        ensures
            r == (self@ == other@),
    {
        self.0 == other.0
    }
}

impl Clone for MilestoneId {
    fn clone(&self) -> (r: Self)
        ensures
            r == *self,
    {
        MilestoneId(self.0.clone())
    }
}

/// Identifies a decision.
#[derive(Debug, PartialEq, Eq)]
pub struct DecisionId(String);

impl View for DecisionId {
    type V = Seq<char>;

    closed spec fn view(&self) -> Seq<char> {
        self.0@
    }
}

impl DecisionId {
    /// Constructs the identifier; blank text is refused.
    pub fn new(value: String) -> (r: Result<Self, PlanError>)
        ensures
            blank(value@) ==> r == Err::<Self, PlanError>(PlanError::EmptyIdentifier),
            !blank(value@) ==> (r matches Ok(id) && id@ == value@),
    {
        if is_blank(value.as_str()) {
            return Err(PlanError::EmptyIdentifier);
        }
        Ok(DecisionId(value))
    }

    /// The identifier's text.
    pub fn as_str(&self) -> (r: &str)
        ensures
            r@ == self@,
    {
        self.0.as_str()
    }

    /// Whether both identifiers have the same text.
    pub fn same_as(&self, other: &Self) -> (r: bool)
        ensures
            r == (self@ == other@),
    {
        self.0 == other.0
    }
}

impl Clone for DecisionId {
    fn clone(&self) -> (r: Self)
        ensures
            r == *self,
    {
        DecisionId(self.0.clone())
    }
}

impl Keyed for WorkItemId {
    open spec fn key(&self) -> Seq<char> {
        self@
    }

    fn key_text(&self) -> (r: &str) {
        self.as_str()
    }
}

} // verus!

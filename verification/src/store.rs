//! What the plan store decides, apart from reading and writing: revisions of
//! whole stored plans and the optimistic guard on each write.
use vstd::prelude::*;

use crate::parse::text_equal;
use crate::plan::Plan;

verus! {

/// A plan as stored, with the store's revision of it.
#[derive(Clone, Debug, PartialEq, Eq)]
pub struct StoredPlan {
    pub plan: Plan,
    pub revision: u64,
}

/// One immutable entry of a stored plan's history.
#[derive(Clone, Debug, PartialEq, Eq)]
pub struct MutationRecord {
    pub revision: u64,
    pub document_json: String,
}

/// Why a write of a stored plan is refused.
#[derive(Clone, Copy, Debug, PartialEq, Eq, Structural)]
pub enum RevisionRefusal {
    /// The writer observed `expected`, but the store holds `actual`.
    Conflict { expected: u64, actual: u64 },
    /// The stored revision cannot advance.
    Overflow,
}

/// The revision a newly created plan is stored at.
pub const FIRST_REVISION: u64 = 1;

/// The revision a write produces when the writer observed revision
/// `expected` and the store holds `actual`: a stale writer is refused, and
/// otherwise the revision advances by one.
pub open spec fn revision_outcome(expected: u64, actual: u64) -> Result<u64, RevisionRefusal> {
    if actual != expected {
        Err(RevisionRefusal::Conflict { expected, actual })
    } else if expected == u64::MAX {
        Err(RevisionRefusal::Overflow)
    } else {
        Ok((expected + 1) as u64)
    }
}

/// Decides a guarded write of a stored plan.
pub fn revision_after_write(expected: u64, actual: u64) -> (r: Result<u64, RevisionRefusal>)
    ensures
        r == revision_outcome(expected, actual),
{
    if actual != expected {
        return Err(RevisionRefusal::Conflict { expected, actual });
    }
    if expected == u64::MAX {
        return Err(RevisionRefusal::Overflow);
    }
    Ok(expected + 1)
}

/// A write guarded by the revision the writer read succeeds only for a
/// writer that is current, and then moves the store to the next revision;
/// a second writer that read the same revision is then refused.
pub proof fn law_stale_writer_refused(observed: u64)
    requires
        observed < u64::MAX,
    ensures
        revision_outcome(observed, observed) == Ok::<u64, RevisionRefusal>((observed + 1) as u64),
        revision_outcome(observed, (observed + 1) as u64) == Err::<u64, RevisionRefusal>(
            RevisionRefusal::Conflict { expected: observed, actual: (observed + 1) as u64 },
        ),
{
}

/// The schema an exported plan envelope declares.
pub open spec fn schema_name() -> Seq<char> {
    "mg.plan/1"@
}

/// The producer an exported plan envelope names.
pub open spec fn producer_name() -> Seq<char> {
    "mg-plan"@
}

/// The schema an exported plan envelope declares.
pub fn envelope_schema() -> (r: &'static str)
    ensures
        r@ == schema_name(),
{
    "mg.plan/1"
}

/// The producer an exported plan envelope names.
pub fn envelope_producer() -> (r: &'static str)
    ensures
        r@ == producer_name(),
{
    "mg-plan"
}

/// Why an imported plan envelope is refused.
#[derive(Clone, Copy, Debug, PartialEq, Eq, Structural)]
pub enum ImportRefusal {
    /// The envelope declares another schema.
    WrongSchema,
    /// The envelope names another producer.
    WrongProducer,
    /// The envelope carries revision zero, which no stored plan has.
    RevisionZero,
    /// The plan is not stored yet, and the envelope does not start it at the
    /// first revision.
    NewPlanNotFirst { revision: u64 },
    /// The stored plan is at another revision than the envelope's, or its
    /// revision cannot advance.
    Revision(RevisionRefusal),
}

/// The revision at which an imported plan is stored, given the envelope's
/// schema, producer and revision and the revision of the plan as stored
/// (none when it is not stored yet): an envelope of another schema or
/// producer, or at revision zero, is refused; a new plan must begin at the
/// first revision; an existing plan is replaced only by an envelope at its
/// current revision, which then advances.
pub open spec fn import_outcome(
    schema: Seq<char>,
    producer: Seq<char>,
    revision: u64,
    stored: Option<u64>,
) -> Result<u64, ImportRefusal> {
    if schema != schema_name() {
        Err(ImportRefusal::WrongSchema)
    } else if producer != producer_name() {
        Err(ImportRefusal::WrongProducer)
    } else if revision == 0 {
        Err(ImportRefusal::RevisionZero)
    } else {
        match stored {
            None => if revision == FIRST_REVISION {
                Ok(FIRST_REVISION)
            } else {
                Err(ImportRefusal::NewPlanNotFirst { revision })
            },
            Some(actual) => match revision_outcome(revision, actual) {
                Ok(next) => Ok(next),
                Err(refusal) => Err(ImportRefusal::Revision(refusal)),
            },
        }
    }
}

/// Decides the import of a plan envelope.
pub fn decide_import(schema: &str, producer: &str, revision: u64, stored: Option<u64>) -> (r:
    Result<u64, ImportRefusal>)
    ensures
        r == import_outcome(schema@, producer@, revision, stored),
{
    if !text_equal(schema, envelope_schema()) {
        return Err(ImportRefusal::WrongSchema);
    }
    if !text_equal(producer, envelope_producer()) {
        return Err(ImportRefusal::WrongProducer);
    }
    if revision == 0 {
        return Err(ImportRefusal::RevisionZero);
    }
    match stored {
        None => {
            if revision == FIRST_REVISION {
                Ok(FIRST_REVISION)
            } else {
                Err(ImportRefusal::NewPlanNotFirst { revision })
            }
        },
        Some(actual) => match revision_after_write(revision, actual) {
            Ok(next) => Ok(next),
            Err(refusal) => Err(ImportRefusal::Revision(refusal)),
        },
    }
}

/// Exporting a stored plan and importing the envelope back is accepted
/// exactly while the store is still at the exported revision, and then
/// advances it by one; once the store has moved on, the same envelope is
/// refused as stale.
pub proof fn law_export_import_round_trip(revision: u64)
    requires
        0 < revision < u64::MAX,
    ensures
        import_outcome(schema_name(), producer_name(), revision, Some(revision)) == Ok::<
            u64,
            ImportRefusal,
        >((revision + 1) as u64),
        import_outcome(schema_name(), producer_name(), revision, Some((revision + 1) as u64))
            == Err::<u64, ImportRefusal>(
            ImportRefusal::Revision(
                RevisionRefusal::Conflict { expected: revision, actual: (revision + 1) as u64 },
            ),
        ),
{
}

} // verus!

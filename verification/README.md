# mg-plan

mg-plan owns the commitment-to-proof path of a plan: work items, their
prerequisites, acceptance criteria, producer-owned evidence references,
revision-pinned verification attempts, and completion only after every
criterion passes. Projects, milestones and decisions organize the work
without owning completion of their own.

## Layout

- `src/` is the library, verified with Verus.
  - `plan.rs`: the plan aggregate, its invariant, and the revision cascade
    (a change of a work item reaches it and everything that depends on it).
  - `lifecycle.rs`: adding work, status transitions, prerequisites with
    cycle refusal, revision, completion.
  - `criteria.rs`: acceptance criteria and verification attempts.
  - `structure.rs`: projects, milestones, decisions.
  - `queries.rs`: summaries, blocked work, verification gaps, milestone
    progress.
  - `sound.rs`: what every plan built by the operations satisfies
    (prerequisites without cycles, distinct and numbered verifications,
    proven completed work), and how each kind of change keeps it.
  - `laws.rs`: properties of the plan across operations.
  - `graph.rs`, `keyed.rs`, `edges.rs`, `text.rs`: reachability,
    identifier-ordered collections, the ordered set of prerequisite edges,
    text order and blank text.
  - `ids.rs`, `model.rs`, `message.rs`, `parse.rs`, `document.rs`,
    `store.rs`: identifiers, records, explanations, command input, parts of
    a stored plan, the revision guard of the store, and the decision on an
    imported `mg.plan/1` envelope.
- `app/` is the command-line program: SQLite persistence, the JSON
  document shape, argument handling.
- `tests/` exercises the library.

Every operation states exactly when it refuses and with which error; a
refused request leaves the plan unchanged.

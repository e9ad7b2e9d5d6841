//! The plan aggregate: its state, its invariant, and the revision cascade that
//! reopens work whose prerequisites changed.
use vstd::prelude::*;

use crate::criteria::{lemma_same_criteria_keep_ids_unique, verification_ids_unique};
use crate::graph::{
    lemma_reaches_ends, lemma_reaches_map, lemma_reaches_reversed, listed_edge, reach_marks, reaches, reversed,
};
use crate::edges::edges_sorted;
use crate::ids::{PlanId, WorkItemId};
use crate::keyed::{has_key, key_index, keys_sorted, lemma_key_index, locate, Keyed};
use crate::model::{Decision, Milestone, PlanError, Project, WorkItem, WorkItemStatus};
use crate::text::{blank, is_blank, text_lt};

verus! {

/// A plan: work items with their prerequisites, criteria and verifications,
/// and the projects, milestones and decisions that organize them.
#[derive(Clone, Debug, PartialEq, Eq)]
pub struct Plan {
    pub(crate) id: PlanId,
    pub(crate) title: String,
    pub(crate) work_items: Vec<WorkItem>,
    pub(crate) dependencies: Vec<(WorkItemId, WorkItemId)>,
    pub(crate) projects: Vec<Project>,
    pub(crate) milestones: Vec<Milestone>,
    pub(crate) decisions: Vec<Decision>,
}

/// `(dependent, prerequisite)` pairs read as edges from a dependent to its
/// prerequisite.
pub open spec fn dep_edge(deps: Seq<(WorkItemId, WorkItemId)>) -> spec_fn(Seq<char>, Seq<char>) -> bool {
    |a: Seq<char>, b: Seq<char>|
        exists|k: int| #![trigger deps[k]] 0 <= k < deps.len() && deps[k].0@ == a && deps[k].1@ == b
}

/// `a` is `b`, or depends on `b` through a chain of prerequisites.
pub open spec fn depends_on(deps: Seq<(WorkItemId, WorkItemId)>, a: Seq<char>, b: Seq<char>) -> bool {
    reaches(dep_edge(deps), a, b)
}

/// No prerequisite depends, directly or not, on its dependent.
pub open spec fn acyclic(deps: Seq<(WorkItemId, WorkItemId)>) -> bool {
    forall|a: Seq<char>, b: Seq<char>|
        #[trigger] dep_edge(deps)(a, b) ==> !depends_on(deps, b, a)
}

/// The parts of a plan fit together: each collection keyed by identifier is
/// sorted with no identifier twice, each milestone links each work item at
/// most once, and the prerequisite edges are sorted with no edge twice and
/// join existing work items.
pub open spec fn parts_well_formed(
    items: Seq<WorkItem>,
    deps: Seq<(WorkItemId, WorkItemId)>,
    projects: Seq<Project>,
    milestones: Seq<Milestone>,
    decisions: Seq<Decision>,
) -> bool {
    &&& keys_sorted(items)
    &&& keys_sorted(projects)
    &&& keys_sorted(milestones)
    &&& keys_sorted(decisions)
    &&& forall|m: int|
        0 <= m < milestones.len() ==> keys_sorted(#[trigger] milestones[m].work_item_ids@)
    &&& edges_sorted(deps)
    &&& forall|k: int|
        #![trigger deps[k]]
        0 <= k < deps.len() ==> has_key(items, deps[k].0@) && has_key(items, deps[k].1@)
}

/// A work item after a change it is affected by: its revision advances and
/// completed work returns to planned.
pub open spec fn bumped(item: WorkItem) -> WorkItem {
    WorkItem {
        revision: (item.revision + 1) as u64,
        status: if item.status == WorkItemStatus::Completed {
            WorkItemStatus::Planned
        } else {
            item.status
        },
        ..item
    }
}

/// The work items, with those that `sel` selects bumped.
pub open spec fn bump_where(items: Seq<WorkItem>, sel: spec_fn(int) -> bool) -> Seq<WorkItem> {
    Seq::new(items.len(), |i: int| if sel(i) { bumped(items[i]) } else { items[i] })
}

/// Every work item that `sel` selects has room for one more revision.
pub open spec fn revisable_where(items: Seq<WorkItem>, sel: spec_fn(int) -> bool) -> bool {
    forall|i: int| 0 <= i < items.len() && #[trigger] sel(i) ==> items[i].revision < u64::MAX
}

/// The work items a change of `root` reaches: `root` itself and everything
/// that depends on it.
pub open spec fn impacted(
    items: Seq<WorkItem>,
    deps: Seq<(WorkItemId, WorkItemId)>,
    root: Seq<char>,
) -> spec_fn(int) -> bool {
    |i: int| depends_on(deps, items[i].id@, root)
}

/// The work item with identifier `id`.
pub open spec fn item_of(items: Seq<WorkItem>, id: Seq<char>) -> WorkItem {
    items[key_index(items, id)]
}

impl Plan {
    pub closed spec fn plan_id(&self) -> PlanId {
        self.id
    }

    pub closed spec fn plan_title(&self) -> Seq<char> {
        self.title@
    }

    /// The work items, in increasing order of identifier.
    pub closed spec fn items(&self) -> Seq<WorkItem> {
        self.work_items@
    }

    /// The prerequisite edges as `(dependent, prerequisite)` pairs.
    pub closed spec fn deps(&self) -> Seq<(WorkItemId, WorkItemId)> {
        self.dependencies@
    }

    /// The projects, in increasing order of identifier.
    pub closed spec fn project_list(&self) -> Seq<Project> {
        self.projects@
    }

    /// The milestones, in increasing order of identifier.
    pub closed spec fn milestone_list(&self) -> Seq<Milestone> {
        self.milestones@
    }

    /// The decisions, in increasing order of identifier.
    pub closed spec fn decision_list(&self) -> Seq<Decision> {
        self.decisions@
    }

    /// The plan's invariant: each collection keyed by identifier is sorted
    /// with no identifier twice, and prerequisites join existing work items.
    pub open spec fn wf(&self) -> bool {
        parts_well_formed(
            self.items(),
            self.deps(),
            self.project_list(),
            self.milestone_list(),
            self.decision_list(),
        )
    }

    /// What the accessors above read.
    pub(crate) proof fn reveal_fields(&self)
        ensures
            self.plan_id() == self.id,
            self.plan_title() == self.title@,
            self.items() == self.work_items@,
            self.deps() == self.dependencies@,
            self.project_list() == self.projects@,
            self.milestone_list() == self.milestones@,
            self.decision_list() == self.decisions@,
    {
    }

    /// Both plans have the same identity, title, projects, milestones and
    /// decisions.
    pub open spec fn same_organization(&self, other: &Plan) -> bool {
        &&& self.plan_id() == other.plan_id()
        &&& self.plan_title() == other.plan_title()
        &&& self.project_list() == other.project_list()
        &&& self.milestone_list() == other.milestone_list()
        &&& self.decision_list() == other.decision_list()
    }

    /// Everything but the work items is the same in both plans.
    pub open spec fn same_but_items(&self, other: &Plan) -> bool {
        &&& self.same_organization(other)
        &&& self.deps() == other.deps()
    }

    /// Whether `dependent` names `prerequisite` directly.
    pub(crate) fn has_dependency(&self, dependent: &WorkItemId, prerequisite: &WorkItemId) -> (r:
        bool)
        ensures
            r == dep_edge(self.deps())(dependent@, prerequisite@),
    {
        let mut k: usize = 0;
        while k < self.dependencies.len()
            invariant
                k <= self.deps().len(),
                forall|m: int|
                    #![trigger self.deps()[m]]
                    0 <= m < k ==> !(self.deps()[m].0@ == dependent@ && self.deps()[m].1@
                        == prerequisite@),
            decreases self.dependencies.len() - k,
        {
            if self.dependencies[k].0.same_as(dependent) && self.dependencies[k].1.same_as(
                prerequisite,
            ) {
                assert(self.deps()[k as int] == self.deps()[k as int]);
                return true;
            }
            k = k + 1;
        }
        false
    }

    /// Creates an empty plan; its title must not be blank.
    pub fn new(id: PlanId, title: String) -> (r: Result<Plan, PlanError>)
        ensures
            blank(title@) ==> r == Err::<Plan, PlanError>(PlanError::EmptyText("plan title")),
            !blank(title@) ==> (r matches Ok(p) && p.sound() && p.plan_id() == id && p.plan_title()
                == title@ && p.items().len() == 0 && p.deps().len() == 0
                && p.project_list().len() == 0 && p.milestone_list().len() == 0
                && p.decision_list().len() == 0),
    {
        if is_blank(title.as_str()) {
            return Err(PlanError::EmptyText("plan title"));
        }
        let plan = Plan {
                id,
                title,
                work_items: Vec::new(),
                dependencies: Vec::new(),
                projects: Vec::new(),
            milestones: Vec::new(),
            decisions: Vec::new(),
        };
        proof {
            plan.reveal_fields();
            assert(acyclic(plan.deps()));
        }
        Ok(plan)
    }

    /// The stable plan identifier.
    pub fn id(&self) -> (r: &PlanId)
        ensures
            *r == self.plan_id(),
    {
        &self.id
    }

    /// The plan title.
    pub fn title(&self) -> (r: &str)
        ensures
            r@ == self.plan_title(),
    {
        self.title.as_str()
    }

    /// The work item with the given identifier.
    pub fn work_item(&self, id: &WorkItemId) -> (r: Result<&WorkItem, PlanError>)
        requires
            self.wf(),
        ensures
            has_key(self.items(), id@) ==> (r matches Ok(item) && *item == item_of(
                self.items(),
                id@,
            )),
            !has_key(self.items(), id@) ==> r == Err::<&WorkItem, PlanError>(
                PlanError::WorkItemNotFound(*id),
            ),
    {
        let (i, found) = locate(&self.work_items, id.as_str());
        if !found {
            return Err(PlanError::WorkItemNotFound(id.clone()));
        }
        Ok(&self.work_items[i])
    }

    /// Index-numbered prerequisite edges: from dependent to prerequisite, or
    /// turned around when `backwards`.
    fn index_edges(&self, backwards: bool) -> (edges: Vec<(usize, usize)>)
        requires
            self.wf(),
        ensures
            forall|k: int|
                0 <= k < edges@.len() ==> (#[trigger] edges@[k]).0 < self.items().len()
                    && edges@[k].1 < self.items().len(),
            forall|i: int, j: int|
                0 <= i < self.items().len() && 0 <= j < self.items().len() ==> (
                #[trigger] listed_edge(edges@)(i, j) <==> if backwards {
                    dep_edge(self.deps())(self.items()[j].key(), self.items()[i].key())
                } else {
                    dep_edge(self.deps())(self.items()[i].key(), self.items()[j].key())
                }),
    {
        let mut edges: Vec<(usize, usize)> = Vec::new();
        let mut k: usize = 0;
        while k < self.dependencies.len()
            invariant
                self.wf(),
                k <= self.deps().len(),
                edges@.len() == k,
                forall|m: int|
                    #![trigger edges@[m]]
                    0 <= m < k ==> {
                        let a = key_index(self.items(), self.deps()[m].0@);
                        let b = key_index(self.items(), self.deps()[m].1@);
                        &&& 0 <= a < self.items().len()
                        &&& 0 <= b < self.items().len()
                        &&& self.items()[a].key() == self.deps()[m].0@
                        &&& self.items()[b].key() == self.deps()[m].1@
                        &&& (edges@[m].0 as int, edges@[m].1 as int) == if backwards {
                            (b, a)
                        } else {
                            (a, b)
                        }
                    },
            decreases self.dependencies.len() - k,
        {
            let (a, found_a) = locate(&self.work_items, self.dependencies[k].0.as_str());
            let (b, found_b) = locate(&self.work_items, self.dependencies[k].1.as_str());
            assert(self.deps()[k as int] == self.deps()[k as int]);
            if backwards {
                edges.push((b, a));
            } else {
                edges.push((a, b));
            }
            k = k + 1;
        }
        proof {
            let items = self.items();
            let deps = self.deps();
            assert forall|i: int, j: int|
                0 <= i < items.len() && 0 <= j < items.len() implies (
                #[trigger] listed_edge(edges@)(i, j) <==> if backwards {
                    dep_edge(deps)(items[j].key(), items[i].key())
                } else {
                    dep_edge(deps)(items[i].key(), items[j].key())
                }) by {
                let (x, y) = if backwards {
                    (j, i)
                } else {
                    (i, j)
                };
                if listed_edge(edges@)(i, j) {
                    let m = choose|m: int|
                        0 <= m < edges@.len() && #[trigger] edges@[m].0 == i && edges@[m].1 == j;
                    let a = key_index(items, deps[m].0@);
                    let b = key_index(items, deps[m].1@);
                    assert(items[a].key() == deps[m].0@ && items[b].key() == deps[m].1@);
                    if backwards {
                        assert(b == i && a == j);
                    } else {
                        assert(a == i && b == j);
                    }
                    assert(deps[m].0@ == items[x].key() && deps[m].1@ == items[y].key());
                    assert(dep_edge(deps)(items[x].key(), items[y].key()));
                }
                if dep_edge(deps)(items[x].key(), items[y].key()) {
                    let m = choose|m: int|
                        #![trigger deps[m]]
                        0 <= m < deps.len() && deps[m].0@ == items[x].key() && deps[m].1@
                            == items[y].key();
                    lemma_key_index(items, items[x].key(), x);
                    lemma_key_index(items, items[y].key(), y);
                    let a = key_index(items, deps[m].0@);
                    let b = key_index(items, deps[m].1@);
                    assert(a == x && b == y);
                    assert(edges@[m] == edges@[m]);
                    assert(edges@[m].0 == i && edges@[m].1 == j);
                }
            }
        }
        edges
    }

    /// Marks `root`, a work item, and every work item that depends on it.
    fn impact_marks(&self, root: &WorkItemId) -> (marks: Vec<bool>)
        requires
            self.wf(),
            has_key(self.items(), root@),
        ensures
            marks@.len() == self.items().len(),
            forall|i: int|
                0 <= i < self.items().len() ==> (#[trigger] marks@[i] <==> impacted(
                    self.items(),
                    self.deps(),
                    root@,
                )(i)),
    {
        let (r, _) = locate(&self.work_items, root.as_str());
        let edges = self.index_edges(true);
        let marks = reach_marks(self.work_items.len(), &edges, r);
        proof {
            let items = self.items();
            let e = reversed(dep_edge(self.deps()));
            assert forall|a: Seq<char>, b: Seq<char>| #[trigger] e(a, b) implies has_key(
                items,
                a,
            ) && has_key(items, b) by {
                let k = choose|k: int|
                    #![trigger self.deps()[k]]
                    0 <= k < self.deps().len() && self.deps()[k].0@ == b
                        && self.deps()[k].1@ == a;
            }
            assert forall|i: int|
                0 <= i < items.len() implies (#[trigger] marks@[i] <==> impacted(
                items,
                self.deps(),
                root@,
            )(i)) by {
                lemma_index_reach(items, e, listed_edge(edges@), r as int, i);
                lemma_reaches_reversed(dep_edge(self.deps()), items[i].key(), root@);
            }
        }
        marks
    }

    /// Whether `start` is `target` or depends, directly or not, on it.
    pub(crate) fn reachable(&self, start: &WorkItemId, target: &WorkItemId) -> (r: bool)
        requires
            self.wf(),
        ensures
            r == depends_on(self.deps(), start@, target@),
    {
        if start.same_as(target) {
            proof {
                crate::graph::lemma_reaches_refl(dep_edge(self.deps()), start@);
            }
            return true;
        }
        let (s, found_start) = locate(&self.work_items, start.as_str());
        let (t, found_target) = locate(&self.work_items, target.as_str());
        if !found_start || !found_target {
            proof {
                if depends_on(self.deps(), start@, target@) {
                    let (x, y) = lemma_reaches_ends(dep_edge(self.deps()), start@, target@);
                    let k = choose|k: int|
                        #![trigger self.deps()[k]]
                        0 <= k < self.deps().len() && self.deps()[k].0@ == start@
                            && self.deps()[k].1@ == x;
                    let j = choose|j: int|
                        #![trigger self.deps()[j]]
                        0 <= j < self.deps().len() && self.deps()[j].0@ == y
                            && self.deps()[j].1@ == target@;
                }
            }
            return false;
        }
        let edges = self.index_edges(false);
        let marks = reach_marks(self.work_items.len(), &edges, s);
        proof {
            let items = self.items();
            let e = dep_edge(self.deps());
            assert forall|a: Seq<char>, b: Seq<char>| #[trigger] e(a, b) implies has_key(
                items,
                a,
            ) && has_key(items, b) by {
                let k = choose|k: int|
                    #![trigger self.deps()[k]]
                    0 <= k < self.deps().len() && self.deps()[k].0@ == a
                        && self.deps()[k].1@ == b;
            }
            lemma_index_reach(items, e, listed_edge(edges@), s as int, t as int);
        }
        marks[t]
    }

    /// `root` and every work item that depends on it, in increasing order of
    /// identifier; `root` is in it even when it is no work item.
    pub(crate) fn impacted_items(&self, root: &WorkItemId) -> (ids: Vec<WorkItemId>)
        requires
            self.wf(),
        ensures
            keys_sorted(ids@),
            forall|k: Seq<char>| #[trigger] has_key(ids@, k) <==> depends_on(self.deps(), k, root@),
            has_key(self.items(), root@) ==> forall|a: int|
                0 <= a < ids@.len() ==> has_key(self.items(), #[trigger] ids@[a]@),
    {
        let (r, found) = locate(&self.work_items, root.as_str());
        if !found {
            let ids = vec![root.clone()];
            proof {
                assert(ids@[0].key() == root@);
                assert forall|k: Seq<char>| #[trigger] has_key(ids@, k) <==> depends_on(
                    self.deps(),
                    k,
                    root@,
                ) by {
                    if k == root@ {
                        crate::graph::lemma_reaches_refl(dep_edge(self.deps()), root@);
                    } else {
                        if has_key(ids@, k) {
                            let j = choose|j: int| 0 <= j < ids@.len() && #[trigger] ids@[j].key() == k;
                        }
                        if depends_on(self.deps(), k, root@) {
                            let (x, y) = lemma_reaches_ends(dep_edge(self.deps()), k, root@);
                            let q = choose|q: int|
                                #![trigger self.deps()[q]]
                                0 <= q < self.deps().len() && self.deps()[q].0@ == y
                                    && self.deps()[q].1@ == root@;
                        }
                    }
                }
            }
            return ids;
        }
        let marks = self.impact_marks(root);
        let ghost items = self.items();
        let mut ids: Vec<WorkItemId> = Vec::new();
        let ghost mut origin: Seq<int> = Seq::empty();
        let mut i: usize = 0;
        while i < self.work_items.len()
            invariant
                items == self.items(),
                items == self.work_items@,
                self.wf(),
                marks@.len() == items.len(),
                i <= items.len(),
                keys_sorted(ids@),
                origin.len() == ids@.len(),
                forall|a: int|
                    0 <= a < ids@.len() ==> 0 <= #[trigger] origin[a] < i && marks@[origin[a]]
                        && items[origin[a]].key() == ids@[a].key(),
                forall|j: int| 0 <= j < i && #[trigger] marks@[j] ==> has_key(ids@, items[j].key()),
                forall|a: int, j: int|
                    0 <= a < ids@.len() && i <= j < items.len() ==> text_lt(
                        #[trigger] ids@[a].key(),
                        #[trigger] items[j].key(),
                    ),
            decreases self.work_items.len() - i,
        {
            if marks[i] {
                let ghost before = ids@;
                ids.push(self.work_items[i].id.clone());
                proof {
                    origin = origin.push(i as int);
                    crate::text::lemma_text_order();
                    assert(ids@[before.len() as int].key() == items[i as int].key());
                    assert forall|a: int, b: int| 0 <= a < b < ids@.len() implies text_lt(
                        #[trigger] ids@[a].key(),
                        #[trigger] ids@[b].key(),
                    ) by {
                        if b < before.len() {
                            assert(ids@[a] == before[a] && ids@[b] == before[b]);
                        } else {
                            assert(ids@[a] == before[a]);
                        }
                    }
                    assert forall|a: int| 0 <= a < ids@.len() implies 0 <= #[trigger] origin[a] < i + 1
                        && marks@[origin[a]] && items[origin[a]].key() == ids@[a].key() by {
                        if a < before.len() {
                            assert(ids@[a] == before[a]);
                        }
                    }
                    assert forall|j: int| 0 <= j < i + 1 && #[trigger] marks@[j] implies has_key(
                        ids@,
                        items[j].key(),
                    ) by {
                        if j < i {
                            let a = choose|a: int| 0 <= a < before.len() && #[trigger] before[a].key() == items[j].key();
                            assert(ids@[a] == before[a]);
                        } else {
                            assert(ids@[before.len() as int].key() == items[j].key());
                        }
                    }
                    assert forall|a: int, j: int|
                        0 <= a < ids@.len() && i + 1 <= j < items.len() implies text_lt(
                        #[trigger] ids@[a].key(),
                        #[trigger] items[j].key(),
                    ) by {
                        assert(text_lt(items[i as int].key(), items[j].key()));
                        if a < before.len() {
                            assert(ids@[a] == before[a]);
                        }
                    }
                }
            }
            i = i + 1;
        }
        proof {
            let deps = self.deps();
            assert(items[r as int].key() == root@);
            assert forall|k: Seq<char>| #[trigger] has_key(ids@, k) <==> depends_on(deps, k, root@) by {
                if has_key(ids@, k) {
                    let a = choose|a: int| 0 <= a < ids@.len() && #[trigger] ids@[a].key() == k;
                    let j = origin[a];
                    assert(impacted(items, deps, root@)(j));
                }
                if depends_on(deps, k, root@) {
                    let j: int = if k == root@ {
                        r as int
                    } else {
                        let (x, y) = lemma_reaches_ends(dep_edge(deps), k, root@);
                        let q = choose|q: int|
                            #![trigger deps[q]]
                            0 <= q < deps.len() && deps[q].0@ == k && deps[q].1@ == x;
                        key_index(items, k)
                    };
                    assert(items[j].key() == k);
                    assert(impacted(items, deps, root@)(j));
                    assert(marks@[j]);
                }
            }
            assert forall|a: int| 0 <= a < ids@.len() implies has_key(items, #[trigger] ids@[a]@) by {
                assert(origin[a] == origin[a]);
                assert(items[origin[a]].key() == ids@[a]@);
            }
        }
        ids
    }

    /// `root`'s dependents: every work item that depends on it, other than
    /// `root` itself, in increasing order of identifier.
    pub(crate) fn dependents_of(&self, root: &WorkItemId) -> (ids: Vec<WorkItemId>)
        requires
            self.wf(),
        ensures
            keys_sorted(ids@),
            forall|k: Seq<char>| #[trigger] has_key(ids@, k) <==> (depends_on(self.deps(), k, root@)
                && k != root@),
            has_key(self.items(), root@) ==> forall|a: int|
                0 <= a < ids@.len() ==> has_key(self.items(), #[trigger] ids@[a]@),
    {
        let all = self.impacted_items(root);
        let mut ids: Vec<WorkItemId> = Vec::new();
        let ghost mut origin: Seq<int> = Seq::empty();
        let mut i: usize = 0;
        while i < all.len()
            invariant
                i <= all@.len(),
                keys_sorted(all@),
                keys_sorted(ids@),
                origin.len() == ids@.len(),
                forall|a: int|
                    0 <= a < ids@.len() ==> 0 <= #[trigger] origin[a] < i && all@[origin[a]].key()
                        == ids@[a].key() && all@[origin[a]].key() != root@,
                forall|j: int|
                    0 <= j < i && (#[trigger] all@[j]).key() != root@ ==> has_key(ids@, all@[j].key()),
                forall|a: int, j: int|
                    0 <= a < ids@.len() && i <= j < all@.len() ==> text_lt(
                        #[trigger] ids@[a].key(),
                        #[trigger] all@[j].key(),
                    ),
            decreases all.len() - i,
        {
            if !all[i].same_as(root) {
                let ghost before = ids@;
                ids.push(all[i].clone());
                proof {
                    origin = origin.push(i as int);
                    crate::text::lemma_text_order();
                    assert(ids@[before.len() as int] == all@[i as int]);
                    assert forall|a: int, b: int| 0 <= a < b < ids@.len() implies text_lt(
                        #[trigger] ids@[a].key(),
                        #[trigger] ids@[b].key(),
                    ) by {
                        if b < before.len() {
                            assert(ids@[a] == before[a] && ids@[b] == before[b]);
                        } else {
                            assert(ids@[a] == before[a]);
                        }
                    }
                    assert forall|a: int| 0 <= a < ids@.len() implies 0 <= #[trigger] origin[a] < i + 1
                        && all@[origin[a]].key() == ids@[a].key() && all@[origin[a]].key() != root@ by {
                        if a < before.len() {
                            assert(ids@[a] == before[a]);
                        }
                    }
                    assert forall|j: int|
                        0 <= j < i + 1 && (#[trigger] all@[j]).key() != root@ implies has_key(
                        ids@,
                        all@[j].key(),
                    ) by {
                        if j < i {
                            let a = choose|a: int| 0 <= a < before.len() && #[trigger] before[a].key() == all@[j].key();
                            assert(ids@[a] == before[a]);
                        } else {
                            assert(ids@[before.len() as int].key() == all@[j].key());
                        }
                    }
                    assert forall|a: int, j: int|
                        0 <= a < ids@.len() && i + 1 <= j < all@.len() implies text_lt(
                        #[trigger] ids@[a].key(),
                        #[trigger] all@[j].key(),
                    ) by {
                        assert(text_lt(all@[i as int].key(), all@[j].key()));
                        if a < before.len() {
                            assert(ids@[a] == before[a]);
                        }
                    }
                }
            } else {
                proof {
                    assert forall|a: int, j: int|
                        0 <= a < ids@.len() && i + 1 <= j < all@.len() implies text_lt(
                        #[trigger] ids@[a].key(),
                        #[trigger] all@[j].key(),
                    ) by {
                    }
                }
            }
            i = i + 1;
        }
        proof {
            assert forall|k: Seq<char>| #[trigger] has_key(ids@, k) <==> (depends_on(
                self.deps(),
                k,
                root@,
            ) && k != root@) by {
                if has_key(ids@, k) {
                    let a = choose|a: int| 0 <= a < ids@.len() && #[trigger] ids@[a].key() == k;
                    let j = origin[a];
                    assert(all@[j].key() == k);
                    assert(has_key(all@, k));
                }
                if depends_on(self.deps(), k, root@) && k != root@ {
                    assert(has_key(all@, k));
                    let j = choose|j: int| 0 <= j < all@.len() && #[trigger] all@[j].key() == k;
                }
            }
            if has_key(self.items(), root@) {
                assert forall|a: int| 0 <= a < ids@.len() implies has_key(
                    self.items(),
                    #[trigger] ids@[a]@,
                ) by {
                    let j = origin[a];
                    assert(all@[j].key() == ids@[a].key());
                    assert(has_key(self.items(), all@[j]@));
                }
            }
        }
        ids
    }

    /// Refuses a revision cascade that a revision counter cannot hold: the
    /// first of `ids` that names no work item, or names one whose revision
    /// cannot advance, decides the refusal.
    pub(crate) fn ensure_revision_capacity(&self, ids: &Vec<WorkItemId>) -> (r: Result<(), PlanError>)
        requires
            self.wf(),
        ensures
            r is Ok <==> (forall|k: int| 0 <= k < ids@.len() ==> has_key(self.items(), #[trigger] ids@[k]@))
                && revisable_where(self.items(), |i: int| has_key(ids@, self.items()[i].key())),
            r is Err ==> exists|k: int|
                0 <= k < ids@.len() && (forall|j: int|
                    0 <= j < k ==> has_key(self.items(), #[trigger] ids@[j]@) && item_of(
                        self.items(),
                        ids@[j]@,
                    ).revision < u64::MAX) && if has_key(self.items(), ids@[k]@) {
                    item_of(self.items(), ids@[k]@).revision == u64::MAX && r == Err::<
                        (),
                        PlanError,
                    >(PlanError::RevisionOverflow)
                } else {
                    r == Err::<(), PlanError>(PlanError::WorkItemNotFound(ids@[k]))
                },
    {
        let ghost items = self.items();
        let mut k: usize = 0;
        while k < ids.len()
            invariant
                items == self.items(),
                items == self.work_items@,
                self.wf(),
                k <= ids@.len(),
                forall|j: int|
                    0 <= j < k ==> has_key(items, #[trigger] ids@[j]@) && item_of(
                        items,
                        ids@[j]@,
                    ).revision < u64::MAX,
            decreases ids.len() - k,
        {
            let (i, found) = locate(&self.work_items, ids[k].as_str());
            if !found {
                proof {
                    assert(!has_key(items, ids@[k as int]@));
                }
                return Err(PlanError::WorkItemNotFound(ids[k].clone()));
            }
            proof {
                lemma_key_index(items, ids@[k as int]@, i as int);
            }
            if self.work_items[i].revision == u64::MAX {
                proof {
                    assert(has_key(ids@, items[i as int].key())) by {
                        assert(ids@[k as int].key() == items[i as int].key());
                    }
                    assert((|x: int| has_key(ids@, items[x].key()))(i as int));
                    assert(!revisable_where(items, |x: int| has_key(ids@, items[x].key())));
                }
                return Err(PlanError::RevisionOverflow);
            }
            k = k + 1;
        }
        proof {
            assert forall|x: int|
                0 <= x < items.len() && has_key(ids@, #[trigger] items[x].key()) implies items[x].revision
                < u64::MAX by {
                let a = choose|a: int| 0 <= a < ids@.len() && #[trigger] ids@[a].key() == items[x].key();
                assert(has_key(items, ids@[a]@));
                lemma_key_index(items, items[x].key(), x);
            }
        }
        Ok(())
    }

    /// Advances the revision of each work item that `ids` names and returns
    /// completed ones among them to planned.
    pub(crate) fn bump_revisions(&mut self, ids: &Vec<WorkItemId>)
        requires
            old(self).wf(),
            keys_sorted(ids@),
            forall|k: int| 0 <= k < ids@.len() ==> has_key(old(self).items(), #[trigger] ids@[k]@),
            revisable_where(old(self).items(), |i: int| has_key(ids@, old(self).items()[i].key())),
        ensures
            final(self).wf(),
            final(self).same_but_items(old(self)),
            final(self).items() == bump_where(
                old(self).items(),
                |i: int| has_key(ids@, old(self).items()[i].key()),
            ),
            verification_ids_unique(old(self).items()) ==> verification_ids_unique(
                final(self).items(),
            ),
    {
        let ghost start = self.items();
        let mut k: usize = 0;
        while k < ids.len()
            invariant
                keys_sorted(ids@),
                forall|j: int| 0 <= j < ids@.len() ==> has_key(start, #[trigger] ids@[j]@),
                revisable_where(start, |i: int| has_key(ids@, start[i].key())),
                keys_sorted(start),
                self.items().len() == start.len(),
                k <= ids@.len(),
                self.id == old(self).id,
                self.title == old(self).title,
                self.dependencies == old(self).dependencies,
                self.projects == old(self).projects,
                self.milestones == old(self).milestones,
                self.decisions == old(self).decisions,
                start == old(self).work_items@,
                self.items() == self.work_items@,
                self.items() == bump_where(start, |i: int| has_key(ids@.take(k as int), start[i].key())),
            decreases ids.len() - k,
        {
            proof {
                old(self).reveal_fields();
            }
            let (i, found) = locate(&self.work_items, ids[k].as_str());
            proof {
                assert(has_key(start, ids@[k as int]@));
                let x = choose|x: int| 0 <= x < start.len() && #[trigger] start[x].key() == ids@[k as int]@;
                assert(self.items()[x].key() == start[x].key());
                assert(has_key(self.items(), ids@[k as int]@));
                assert(self.items()[i as int].key() == start[i as int].key());
                crate::text::lemma_text_order();
                assert(!has_key(ids@.take(k as int), start[i as int].key())) by {
                    if has_key(ids@.take(k as int), start[i as int].key()) {
                        let a = choose|a: int| 0 <= a < k && #[trigger] ids@.take(k as int)[a].key() == start[i as int].key();
                        assert(ids@.take(k as int)[a] == ids@[a]);
                        assert(text_lt(ids@[a].key(), ids@[k as int].key()));
                    }
                }
                assert(self.items()[i as int] == start[i as int]);
                assert(has_key(ids@, start[i as int].key())) by {
                    assert(ids@[k as int].key() == start[i as int].key());
                }
                assert((|y: int| has_key(ids@, start[y].key()))(i as int));
            }
            let mut item = self.work_items.remove(i);
            item.revision = item.revision + 1;
            if item.status == WorkItemStatus::Completed {
                item.status = WorkItemStatus::Planned;
            }
            self.work_items.insert(i, item);
            proof {
                let next = ids@.take(k + 1);
                assert forall|y: int| 0 <= y < start.len() implies #[trigger] has_key(next, start[y].key())
                    == (has_key(ids@.take(k as int), start[y].key()) || y == i) by {
                    if has_key(next, start[y].key()) {
                        let a = choose|a: int| 0 <= a < next.len() && #[trigger] next[a].key() == start[y].key();
                        if a < k {
                            assert(next[a] == ids@.take(k as int)[a]);
                        } else {
                            assert(next[a] == ids@[k as int]);
                            assert(start[i as int].key() == ids@[k as int].key());
                            assert(start[y].key() == start[i as int].key());
                            lemma_key_index(start, start[y].key(), y);
                            lemma_key_index(start, start[y].key(), i as int);
                        }
                    }
                    if has_key(ids@.take(k as int), start[y].key()) {
                        let a = choose|a: int| 0 <= a < k && #[trigger] ids@.take(k as int)[a].key() == start[y].key();
                        assert(next[a] == ids@.take(k as int)[a]);
                    }
                    if y == i {
                        assert(next[k as int] == ids@[k as int]);
                        assert(start[i as int].key() == ids@[k as int].key());
                        assert(next[k as int].key() == start[y].key());
                    }
                }
                assert(self.work_items@ =~= bump_where(start, |y: int| has_key(next, start[y].key())));
            }
            k = k + 1;
        }
        proof {
            assert(ids@.take(ids@.len() as int) =~= ids@);
            self.reveal_fields();
            old(self).reveal_fields();
            if verification_ids_unique(start) {
                lemma_same_criteria_keep_ids_unique(start, self.items());
            }
            assert forall|a: int, b: int|
                0 <= a < b < start.len() implies crate::text::text_lt(
                #[trigger] self.items()[a].key(),
                #[trigger] self.items()[b].key(),
            ) by {
                assert(self.items()[a].key() == start[a].key());
                assert(self.items()[b].key() == start[b].key());
            }
            assert forall|q: int|
                #![trigger self.deps()[q]]
                0 <= q < self.deps().len() implies has_key(
                self.items(),
                self.deps()[q].0@,
            ) && has_key(self.items(), self.deps()[q].1@) by {
                assert(old(self).deps()[q] == self.deps()[q]);
                let x = choose|x: int|
                    0 <= x < start.len() && #[trigger] start[x].key() == self.deps()[q].0@;
                let y = choose|y: int|
                    0 <= y < start.len() && #[trigger] start[y].key() == self.deps()[q].1@;
                assert(self.items()[x].key() == start[x].key());
                assert(self.items()[y].key() == start[y].key());
            }
        }
    }
}

/// A plan whose work items changed stays well formed when they stay sorted
/// and keep every identifier they had.
pub(crate) proof fn lemma_wf_new_items(a: Plan, b: Plan)
    requires
        a.wf(),
        b.same_but_items(&a),
        keys_sorted(b.items()),
        forall|k: Seq<char>| #[trigger] has_key(a.items(), k) ==> has_key(b.items(), k),
    ensures
        b.wf(),
{
    assert forall|k: int|
        #![trigger b.deps()[k]]
        0 <= k < b.deps().len() implies has_key(b.items(), b.deps()[k].0@) && has_key(
        b.items(),
        b.deps()[k].1@,
    ) by {
        assert(a.deps()[k] == b.deps()[k]);
    }
}

/// Replacing work items by ones with the same identifiers keeps a plan well
/// formed.
pub(crate) proof fn lemma_wf_same_keys(a: Plan, b: Plan)
    requires
        a.wf(),
        b.same_but_items(&a),
        b.items().len() == a.items().len(),
        forall|i: int| 0 <= i < a.items().len() ==> (#[trigger] b.items()[i]).key() == a.items()[i].key(),
    ensures
        b.wf(),
{
    assert forall|x: int, y: int| 0 <= x < y < b.items().len() implies crate::text::text_lt(
        #[trigger] b.items()[x].key(),
        #[trigger] b.items()[y].key(),
    ) by {
        assert(b.items()[x].key() == a.items()[x].key());
        assert(b.items()[y].key() == a.items()[y].key());
    }
    assert forall|k: Seq<char>| #[trigger] has_key(a.items(), k) implies has_key(b.items(), k) by {
        let i = choose|i: int| 0 <= i < a.items().len() && #[trigger] a.items()[i].key() == k;
        assert(b.items()[i].key() == k);
    }
    lemma_wf_new_items(a, b);
}

/// Two selections that agree on every work item select alike.
pub proof fn lemma_selection_agree(
    items: Seq<WorkItem>,
    f: spec_fn(int) -> bool,
    g: spec_fn(int) -> bool,
)
    requires
        forall|i: int| 0 <= i < items.len() ==> #[trigger] f(i) == g(i),
    ensures
        revisable_where(items, f) == revisable_where(items, g),
        bump_where(items, f) == bump_where(items, g),
{
    assert(bump_where(items, f) =~= bump_where(items, g));
    if revisable_where(items, f) {
        assert forall|i: int| 0 <= i < items.len() && #[trigger] g(i) implies items[i].revision
            < u64::MAX by {
            assert(f(i));
        }
    }
    if revisable_where(items, g) {
        assert forall|i: int| 0 <= i < items.len() && #[trigger] f(i) implies items[i].revision
            < u64::MAX by {
            assert(g(i));
        }
    }
}

/// Reachability between work items agrees with reachability between their
/// positions, when positions are joined exactly as their identifiers are.
proof fn lemma_index_reach(
    items: Seq<WorkItem>,
    e: spec_fn(Seq<char>, Seq<char>) -> bool,
    l: spec_fn(int, int) -> bool,
    i: int,
    j: int,
)
    requires
        keys_sorted(items),
        forall|a: Seq<char>, b: Seq<char>|
            #[trigger] e(a, b) ==> has_key(items, a) && has_key(items, b),
        forall|x: int, y: int|
            #[trigger] l(x, y) ==> 0 <= x < items.len() && 0 <= y < items.len(),
        forall|x: int, y: int|
            0 <= x < items.len() && 0 <= y < items.len() ==> (#[trigger] l(x, y) <==> e(
                items[x].key(),
                items[y].key(),
            )),
        0 <= i < items.len(),
        0 <= j < items.len(),
    ensures
        reaches(l, i, j) <==> reaches(e, items[i].key(), items[j].key()),
{
    let f = |x: int| items[x].key();
    let g = |a: Seq<char>| key_index(items, a);
    if reaches(l, i, j) {
        assert forall|x: int, y: int| #[trigger] l(x, y) implies e(f(x), f(y)) by {}
        lemma_reaches_map(l, e, f, i, j);
    }
    if reaches(e, items[i].key(), items[j].key()) {
        assert forall|a: Seq<char>, b: Seq<char>| #[trigger] e(a, b) implies l(g(a), g(b)) by {
            let x = choose|x: int| 0 <= x < items.len() && #[trigger] items[x].key() == a;
            let y = choose|y: int| 0 <= y < items.len() && #[trigger] items[y].key() == b;
            lemma_key_index(items, a, x);
            lemma_key_index(items, b, y);
        }
        lemma_reaches_map(e, l, g, items[i].key(), items[j].key());
        lemma_key_index(items, items[i].key(), i);
        lemma_key_index(items, items[j].key(), j);
    }
}

} // verus!

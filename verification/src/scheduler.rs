//! The scheduler: owns the ordered set of registered systems, validates
//! their dependency graph once, and invokes them each tick in a stable
//! topological order.
//!
//! When several valid topological orders exist, ties are broken by
//! registration order: at every step the earliest-registered system whose
//! prerequisites have all been placed is placed next.  This makes the
//! finalized order a function of the registration sequence alone, which in
//! turn makes tick output reproducible across runs.  A dependency set is
//! called acyclic exactly when some complete order places every system after
//! all of its prerequisites; a set with a dependency cycle admits none.

use vstd::prelude::*;

use crate::systems::{spec_run_kind, run_system, SystemKind};
use crate::world::{Entity, InputSnapshot, ScoreBoard, World, DT_LIMIT};

verus! {

broadcast use vstd::seq_lib::group_seq_properties;

/// A named unit of per-tick logic and the names of the systems that must
/// run before it.
#[derive(Clone, Debug, PartialEq, Eq)]
pub struct SystemDescriptor {
    pub name: String,
    pub kind: SystemKind,
    pub deps: Vec<String>,
}

/// Errors raised at setup time by `register` and `finalize`.
#[derive(Clone, Debug, PartialEq, Eq)]
pub enum SchedError {
    DuplicateName,
    /// Carries a declared prerequisite name that no registered system bears.
    UnknownDependency(String),
    /// Carries the names of the systems that cannot be placed, in
    /// registration order: together they contain every dependency cycle.
    CyclicDependency(Vec<String>),
    SchedulerFinalized,
}

/// The registered names, as character sequences, in registration order.
pub open spec fn reg_names(descs: Seq<SystemDescriptor>) -> Seq<Seq<char>> {
    descs.map_values(|d: SystemDescriptor| d.name@)
}

/// Some registered descriptor carries this name.
pub open spec fn has_name(descs: Seq<SystemDescriptor>, n: Seq<char>) -> bool {
    exists|i: int| 0 <= i < descs.len() && (#[trigger] descs[i].name@) == n
}

/// The index of the first element of `ns` equal to `n`, if any.
pub open spec fn spec_find(ns: Seq<Seq<char>>, n: Seq<char>) -> Option<int>
    decreases ns.len(),
{
    if ns.len() == 0 {
        None
    } else if ns[0] == n {
        Some(0int)
    } else {
        match spec_find(ns.drop_first(), n) {
            None => None,
            Some(k) => Some(k + 1),
        }
    }
}

proof fn lemma_spec_find(ns: Seq<Seq<char>>, n: Seq<char>)
    ensures
        match spec_find(ns, n) {
            Some(k) => 0 <= k < ns.len() && ns[k] == n && (forall|j: int|
                0 <= j < k ==> ns[j] != n),
            None => forall|j: int| 0 <= j < ns.len() ==> ns[j] != n,
        },
    decreases ns.len(),
{
    if ns.len() == 0 {
    } else if ns[0] == n {
    } else {
        lemma_spec_find(ns.drop_first(), n);
        assert forall|j: int| 1 <= j < ns.len() implies ns[j] == ns.drop_first()[j - 1] by {}
    }
}

/// No two registered descriptors share a name.
pub open spec fn unique_names(descs: Seq<SystemDescriptor>) -> bool {
    forall|i: int, j: int|
        0 <= i < j < descs.len() ==> (#[trigger] descs[i].name@) != (#[trigger] descs[j].name@)
}

/// Every declared prerequisite names some registered system.
pub open spec fn all_deps_known(descs: Seq<SystemDescriptor>) -> bool {
    forall|i: int, k: int|
        0 <= i < descs.len() && 0 <= k < descs[i].deps@.len() ==> spec_find(
            reg_names(descs),
            (#[trigger] descs[i].deps@[k])@,
        ) is Some
}

/// The dependency graph by indices: entry `i` lists the registration
/// indices of the prerequisites of descriptor `i`.  Meaningful when every
/// dependency is known.
pub open spec fn dep_ids(descs: Seq<SystemDescriptor>) -> Seq<Seq<int>> {
    Seq::new(
        descs.len(),
        |i: int|
            Seq::new(
                descs[i].deps@.len(),
                |k: int| spec_find(reg_names(descs), descs[i].deps@[k]@).unwrap(),
            ),
    )
}

/// Index `i` may be placed next: it is unplaced and all its prerequisites
/// are placed.
pub open spec fn eligible(deps: Seq<Seq<int>>, placed: Seq<int>, i: int) -> bool {
    &&& 0 <= i < deps.len()
    &&& !placed.contains(i)
    &&& forall|k: int| 0 <= k < deps[i].len() ==> placed.contains(#[trigger] deps[i][k])
}

/// The first eligible index at or after `i`, if any.
pub open spec fn first_eligible_from(deps: Seq<Seq<int>>, placed: Seq<int>, i: nat) -> Option<int>
    decreases deps.len() - i,
{
    if i >= deps.len() {
        None
    } else if eligible(deps, placed, i as int) {
        Some(i as int)
    } else {
        first_eligible_from(deps, placed, i + 1)
    }
}

proof fn lemma_first_eligible(deps: Seq<Seq<int>>, placed: Seq<int>, i: nat)
    ensures
        match first_eligible_from(deps, placed, i) {
            Some(e) => i <= e < deps.len() && eligible(deps, placed, e) && (forall|j: int|
                i <= j < e ==> !eligible(deps, placed, j)),
            None => forall|j: int| i <= j < deps.len() ==> !eligible(deps, placed, j),
        },
    decreases deps.len() - i,
{
    if i >= deps.len() {
    } else if eligible(deps, placed, i as int) {
    } else {
        lemma_first_eligible(deps, placed, i + 1);
    }
}

/// The registration-order-greedy completion of the partial order `placed`:
/// repeatedly place the earliest-registered eligible index, until all are
/// placed or none is eligible.
pub open spec fn greedy_order(deps: Seq<Seq<int>>, placed: Seq<int>) -> Seq<int>
    decreases deps.len() - placed.len(),
{
    if placed.len() >= deps.len() {
        placed
    } else {
        match first_eligible_from(deps, placed, 0) {
            None => placed,
            Some(i) => greedy_order(deps, placed.push(i)),
        }
    }
}

/// The order `finalize` computes, as a function of the registered
/// descriptors alone.
pub open spec fn the_order(descs: Seq<SystemDescriptor>) -> Seq<int> {
    greedy_order(dep_ids(descs), Seq::empty())
}

/// Validity of a (possibly partial) order over `deps`: indices in range,
/// none repeated, and every placed index's prerequisites placed strictly
/// before it.
pub open spec fn partial_valid(deps: Seq<Seq<int>>, placed: Seq<int>) -> bool {
    &&& forall|k: int|
        0 <= k < placed.len() ==> 0 <= #[trigger] placed[k] < deps.len() && !placed.take(
            k,
        ).contains(placed[k])
    &&& forall|k: int, j: int|
        0 <= k < placed.len() && 0 <= j < deps[placed[k]].len() ==> placed.take(k).contains(
            #[trigger] deps[placed[k]][j],
        )
}

/// `ord` is a complete topological order over `deps`: a permutation of the
/// indices in which every index appears after all of its prerequisites.
pub open spec fn valid_order(deps: Seq<Seq<int>>, ord: Seq<int>) -> bool {
    &&& ord.len() == deps.len()
    &&& partial_valid(deps, ord)
}

/// A dependency set is acyclic when it admits a complete topological order.
pub open spec fn acyclic(deps: Seq<Seq<int>>) -> bool {
    exists|ord: Seq<int>| valid_order(deps, ord)
}

/// `nm` is declared as a prerequisite by some registered system, yet no
/// registered system bears it.
pub open spec fn missing_dep(descs: Seq<SystemDescriptor>, nm: Seq<char>) -> bool {
    &&& exists|i: int, k: int|
        0 <= i < descs.len() && 0 <= k < descs[i].deps@.len() && (#[trigger] descs[i].deps@[k])@
            == nm
    &&& spec_find(reg_names(descs), nm) is None
}

/// The names of the systems the greedy pass cannot place, in registration
/// order.
pub open spec fn unplaced_names(descs: Seq<SystemDescriptor>) -> Seq<Seq<char>> {
    Seq::new(descs.len(), |i: int| i).filter(|i: int| !the_order(descs).contains(i)).map_values(
        |i: int| descs[i].name@,
    )
}

/// The first position of `ord` holding a value outside `placed`, if any.
pub open spec fn first_unplaced(ord: Seq<int>, placed: Seq<int>, k: nat) -> Option<int>
    decreases ord.len() - k,
{
    if k >= ord.len() {
        None
    } else if !placed.contains(ord[k as int]) {
        Some(k as int)
    } else {
        first_unplaced(ord, placed, k + 1)
    }
}

proof fn lemma_first_unplaced(ord: Seq<int>, placed: Seq<int>, k: nat)
    ensures
        match first_unplaced(ord, placed, k) {
            Some(k0) => k <= k0 < ord.len() && !placed.contains(ord[k0]) && (forall|j: int|
                k <= j < k0 ==> placed.contains(#[trigger] ord[j])),
            None => forall|j: int| k <= j < ord.len() ==> placed.contains(#[trigger] ord[j]),
        },
    decreases ord.len() - k,
{
    if k >= ord.len() {
    } else if !placed.contains(ord[k as int]) {
    } else {
        lemma_first_unplaced(ord, placed, k + 1);
    }
}

/// When the greedy pass gets stuck — some indices remain but none is
/// eligible — no complete topological order exists at all.
proof fn lemma_stuck_refutes_orders(deps: Seq<Seq<int>>, placed: Seq<int>)
    requires
        partial_valid(deps, placed),
        placed.len() < deps.len(),
        first_eligible_from(deps, placed, 0) is None,
    ensures
        !acyclic(deps),
{
    broadcast use vstd::seq_lib::seq_to_set_is_finite;
    broadcast use vstd::set::group_set_axioms;

    lemma_first_eligible(deps, placed, 0);
    if acyclic(deps) {
        let ord = choose|ord: Seq<int>| valid_order(deps, ord);
        // Neither placed nor ord repeats an index.
        assert forall|i: int, j: int| 0 <= i < j < placed.len() implies placed[i] != placed[j] by {
            assert(placed.take(j).contains(placed[i])) by {
                assert(placed.take(j)[i] == placed[i]);
            }
        }
        assert forall|i: int, j: int| 0 <= i < j < ord.len() implies ord[i] != ord[j] by {
            assert(ord.take(j).contains(ord[i])) by {
                assert(ord.take(j)[i] == ord[i]);
            }
        }
        // Some position of ord holds an unplaced index: otherwise ord's values,
        // all distinct, would fit inside the shorter placed sequence.
        assert(exists|k: int| 0 <= k < ord.len() && !placed.contains(#[trigger] ord[k])) by {
            if forall|k: int| 0 <= k < ord.len() ==> placed.contains(#[trigger] ord[k]) {
                assert(ord.no_duplicates());
                ord.unique_seq_to_set();
                placed.lemma_cardinality_of_set();
                assert(ord.to_set().subset_of(placed.to_set())) by {
                    assert forall|x: int| ord.to_set().contains(x) implies placed.to_set().contains(
                        x,
                    ) by {
                        assert(ord.contains(x));
                        let k = choose|k: int| 0 <= k < ord.len() && ord[k] == x;
                        assert(placed.contains(x));
                        let m = choose|m: int| 0 <= m < placed.len() && placed[m] == x;
                        assert(placed.to_set().contains(placed[m]));
                    }
                }
                vstd::set_lib::lemma_len_subset(ord.to_set(), placed.to_set());
                assert(false);
            }
        }
        lemma_first_unplaced(ord, placed, 0);
        let k0 = first_unplaced(ord, placed, 0).unwrap();
        let t = ord[k0];
        // Every prerequisite of t sits before position k0 in ord, hence is placed.
        assert forall|j: int| 0 <= j < deps[t].len() implies placed.contains(
            #[trigger] deps[t][j],
        ) by {
            assert(ord.take(k0).contains(deps[t][j]));
            let m = choose|m: int|
                0 <= m < ord.take(k0).len() && ord.take(k0)[m] == deps[t][j];
            assert(ord[m] == deps[t][j]);
            assert(placed.contains(ord[m]));
        }
        assert(eligible(deps, placed, t));
        assert(false);
    }
}

/// Owns the registered systems and, once finalized, the order ticks follow.
pub struct Scheduler {
    pub systems: Vec<SystemDescriptor>,
    pub order: Vec<usize>,
    pub finalized: bool,
}

/// A `Vec<usize>` as a sequence of mathematical integers.
pub open spec fn order_ints(v: Seq<usize>) -> Seq<int> {
    v.map_values(|u: usize| u as int)
}

impl Scheduler {
    /// Registered names are unique; once finalized, the stored order is the
    /// registration-order-greedy topological order of the dependency graph.
    pub open spec fn wf(&self) -> bool {
        &&& unique_names(self.systems@)
        &&& !self.finalized ==> self.order@.len() == 0
        &&& self.finalized ==> {
            &&& all_deps_known(self.systems@)
            &&& valid_order(dep_ids(self.systems@), order_ints(self.order@))
            &&& order_ints(self.order@) == the_order(self.systems@)
        }
    }

    /// The kinds the finalized order invokes, first to last.
    pub open spec fn kinds(&self) -> Seq<SystemKind> {
        self.order@.map_values(|u: usize| self.systems@[u as int].kind)
    }

    /// An empty, unfinalized scheduler.
    pub fn new() -> (s: Scheduler)
        ensures
            s.wf(),
            !s.finalized,
            s.systems@.len() == 0,
    {
        Scheduler { systems: Vec::new(), order: Vec::new(), finalized: false }
    }

    /// Whether `finalize` has succeeded.
    pub fn is_finalized(&self) -> (b: bool)
        ensures
            b == self.finalized,
    {
        self.finalized
    }

    /// Add a system.  Fails with `DuplicateName` if the name is already
    /// registered — in whichever order the two registrations come — and
    /// with `SchedulerFinalized` after a successful `finalize`.
    pub fn register(&mut self, desc: SystemDescriptor) -> (r: Result<(), SchedError>)
        requires
            old(self).wf(),
        ensures
            final(self).wf(),
            final(self).finalized == old(self).finalized,
            final(self).order@ == old(self).order@,
            r == Err::<(), SchedError>(SchedError::SchedulerFinalized) <==> old(self).finalized,
            !old(self).finalized ==> (r == Err::<(), SchedError>(SchedError::DuplicateName) <==>
                has_name(old(self).systems@, desc.name@)),
            r is Ok <==> !old(self).finalized && !has_name(old(self).systems@, desc.name@),
            r is Ok ==> final(self).systems@ == old(self).systems@.push(desc),
            !(r is Ok) ==> final(self).systems@ == old(self).systems@,
    {
        if self.finalized {
            return Err(SchedError::SchedulerFinalized);
        }
        proof {
            lemma_spec_find(reg_names(self.systems@), desc.name@);
        }
        match find_name(&self.systems, &desc.name) {
            Some(_) => {
                proof {
                    let k = spec_find(reg_names(self.systems@), desc.name@).unwrap();
                    assert(reg_names(self.systems@)[k] == self.systems@[k].name@);
                    assert(has_name(self.systems@, desc.name@));
                }
                Err(SchedError::DuplicateName)
            },
            None => {
                let ghost old_descs = self.systems@;
                proof {
                    assert forall|i: int| 0 <= i < old_descs.len() implies (
                    #[trigger] old_descs[i].name@) != desc.name@ by {
                        assert(reg_names(old_descs)[i] == old_descs[i].name@);
                    }
                    assert(!has_name(old_descs, desc.name@));
                }
                self.systems.push(desc);
                proof {
                    assert forall|i: int, j: int|
                        0 <= i < j < self.systems@.len() implies (
                    #[trigger] self.systems@[i].name@) != (#[trigger] self.systems@[j].name@) by {
                        if j < old_descs.len() {
                        } else {
                            assert(self.systems@[j].name@ == desc.name@);
                            assert(reg_names(old_descs)[i] == old_descs[i].name@);
                        }
                    }
                }
                Ok(())
            },
        }
    }

    /// Compute the topological order.  Exactly one outcome holds: `Ok` when
    /// every dependency is known and the graph is acyclic;
    /// `UnknownDependency` when some prerequisite was never registered;
    /// `CyclicDependency` when all are known but no complete order exists;
    /// `SchedulerFinalized` when `finalize` already succeeded.
    pub fn finalize(&mut self) -> (r: Result<(), SchedError>)
        requires
            old(self).wf(),
        ensures
            final(self).wf(),
            final(self).systems@ == old(self).systems@,
            r == Err::<(), SchedError>(SchedError::SchedulerFinalized) <==> old(self).finalized,
            !old(self).finalized ==> {
                &&& ((r matches Err(SchedError::UnknownDependency(_))) <==> !all_deps_known(
                    old(self).systems@,
                ))
                &&& (r is Ok <==> all_deps_known(old(self).systems@) && acyclic(
                    dep_ids(old(self).systems@),
                ))
                &&& ((r matches Err(SchedError::CyclicDependency(_))) <==> all_deps_known(
                    old(self).systems@,
                ) && !acyclic(dep_ids(old(self).systems@)))
                &&& (match r {
                    Err(SchedError::UnknownDependency(nm)) => missing_dep(
                        old(self).systems@,
                        nm@,
                    ),
                    Err(SchedError::CyclicDependency(ns)) => ns@.map_values(|s: String| s@)
                        == unplaced_names(old(self).systems@),
                    _ => true,
                })
            },
            final(self).finalized <==> (old(self).finalized || r is Ok),
            !(r is Ok) ==> final(self).order@ == old(self).order@,
    {
        if self.finalized {
            return Err(SchedError::SchedulerFinalized);
        }
        let ghost descs = self.systems@;
        let ghost gdeps = dep_ids(descs);
        let n = self.systems.len();

        // Resolve every declared prerequisite name to a registration index.
        let mut deps_idx: Vec<Vec<usize>> = Vec::new();
        let mut i: usize = 0;
        while i < n
            invariant
                self.wf(),
                !self.finalized,
                descs == self.systems@,
                gdeps == dep_ids(descs),
                n == descs.len(),
                i <= n,
                deps_idx@.len() == i,
                forall|i2: int|
                    0 <= i2 < i ==> (#[trigger] deps_idx@[i2])@.len() == descs[i2].deps@.len(),
                forall|i2: int, k: int|
                    0 <= i2 < i && 0 <= k < descs[i2].deps@.len() ==> spec_find(
                        reg_names(descs),
                        descs[i2].deps@[k]@,
                    ) == Some((#[trigger] deps_idx@[i2]@[k]) as int) && (deps_idx@[i2]@[k] as int)
                        < n,
            decreases n - i,
        {
            let mut row: Vec<usize> = Vec::new();
            let dep_count = self.systems[i].deps.len();
            let mut k: usize = 0;
            while k < dep_count
                invariant
                    self.wf(),
                    descs == self.systems@,
                    n == descs.len(),
                    i < n,
                    dep_count == descs[i as int].deps@.len(),
                    k <= dep_count,
                    row@.len() == k,
                    forall|k2: int|
                        0 <= k2 < k ==> spec_find(reg_names(descs), descs[i as int].deps@[k2]@)
                            == Some((#[trigger] row@[k2]) as int) && (row@[k2] as int) < n,
                decreases dep_count - k,
            {
                proof {
                    lemma_spec_find(reg_names(descs), descs[i as int].deps@[k as int]@);
                }
                match find_name(&self.systems, &self.systems[i].deps[k]) {
                    Some(t) => {
                        row.push(t);
                    },
                    None => {
                        proof {
                            assert(!all_deps_known(descs));
                            assert(missing_dep(descs, descs[i as int].deps@[k as int]@));
                        }
                        return Err(SchedError::UnknownDependency(
                            self.systems[i].deps[k].clone(),
                        ));
                    },
                }
                k = k + 1;
            }
            deps_idx.push(row);
            i = i + 1;
        }
        proof {
            assert forall|i2: int, k: int|
                0 <= i2 < descs.len() && 0 <= k < descs[i2].deps@.len() implies spec_find(
                reg_names(descs),
                (#[trigger] descs[i2].deps@[k])@,
            ) is Some by {
                let v = deps_idx@[i2]@[k];
                assert(spec_find(reg_names(descs), descs[i2].deps@[k]@) == Some(v as int));
            }
            assert(all_deps_known(descs));
            assert forall|i2: int, k: int|
                0 <= i2 < n && 0 <= k < gdeps[i2].len() implies gdeps[i2][k] == deps_idx@[i2]@[k]
                as int && 0 <= gdeps[i2][k] < n by {
                assert(spec_find(reg_names(descs), descs[i2].deps@[k]@) == Some(
                    deps_idx@[i2]@[k] as int,
                ));
            }
        }

        // Place the earliest-registered eligible system until done or stuck.
        let mut flags: Vec<bool> = vec![false; n];
        let mut ord: Vec<usize> = Vec::new();
        let mut stuck = false;
        while !stuck && ord.len() < n
            invariant
                gdeps.len() == n,
                deps_idx@.len() == n,
                forall|i2: int| 0 <= i2 < n ==> gdeps[i2].len() == (#[trigger] deps_idx@[i2])@.len(),
                forall|i2: int, k: int|
                    0 <= i2 < n && 0 <= k < gdeps[i2].len() ==> #[trigger] gdeps[i2][k]
                        == deps_idx@[i2]@[k] as int && 0 <= gdeps[i2][k] < n,
                flags@.len() == n,
                ord@.len() <= n,
                forall|k: int| 0 <= k < ord@.len() ==> (#[trigger] ord@[k]) < n,
                forall|d: int|
                    0 <= d < n ==> ((#[trigger] flags@[d]) <==> order_ints(ord@).contains(d)),
                partial_valid(gdeps, order_ints(ord@)),
                greedy_order(gdeps, Seq::empty()) == greedy_order(gdeps, order_ints(ord@)),
                stuck ==> ord@.len() < n && first_eligible_from(gdeps, order_ints(ord@), 0)
                    is None,
            decreases n - ord@.len() + if stuck {
                0int
            } else {
                1int
            },
        {
            let ghost placed = order_ints(ord@);
            proof {
                lemma_first_eligible(gdeps, placed, 0);
            }
            let mut j: usize = 0;
            let mut found = false;
            while j < n && !found
                invariant
                    gdeps.len() == n,
                    deps_idx@.len() == n,
                    forall|i2: int|
                        0 <= i2 < n ==> gdeps[i2].len() == (#[trigger] deps_idx@[i2])@.len(),
                    forall|i2: int, k: int|
                        0 <= i2 < n && 0 <= k < gdeps[i2].len() ==> #[trigger] gdeps[i2][k]
                            == deps_idx@[i2]@[k] as int && 0 <= gdeps[i2][k] < n,
                    flags@.len() == n,
                    placed == order_ints(ord@),
                    forall|d: int| 0 <= d < n ==> ((#[trigger] flags@[d]) <==> placed.contains(d)),
                    j <= n,
                    !found ==> forall|j2: int| 0 <= j2 < j ==> !eligible(gdeps, placed, j2),
                    found ==> j < n && eligible(gdeps, placed, j as int) && (forall|j2: int|
                        0 <= j2 < j ==> !eligible(gdeps, placed, j2)),
                decreases n - j, if found { 0int } else { 1int },
            {
                if !flags[j] {
                    let row_len = deps_idx[j].len();
                    let mut k: usize = 0;
                    let mut all_in = true;
                    while k < row_len && all_in
                        invariant
                            gdeps.len() == n,
                            deps_idx@.len() == n,
                            j < n,
                            row_len == deps_idx@[j as int]@.len(),
                            gdeps[j as int].len() == row_len,
                            forall|k2: int|
                                0 <= k2 < row_len ==> #[trigger] gdeps[j as int][k2]
                                    == deps_idx@[j as int]@[k2] as int && 0 <= gdeps[j as int][k2]
                                    < n,
                            flags@.len() == n,
                            forall|d: int|
                                0 <= d < n ==> ((#[trigger] flags@[d]) <==> placed.contains(d)),
                            k <= row_len,
                            all_in ==> forall|k2: int|
                                0 <= k2 < k ==> placed.contains(#[trigger] gdeps[j as int][k2]),
                            !all_in ==> exists|k2: int|
                                0 <= k2 < row_len && !placed.contains(
                                    #[trigger] gdeps[j as int][k2],
                                ),
                        decreases row_len - k, if all_in { 1int } else { 0int },
                    {
                        proof {
                            assert(gdeps[j as int][k as int] == deps_idx@[j as int]@[k as int]
                                as int);
                        }
                        let d = deps_idx[j][k];
                        if !flags[d] {
                            proof {
                                assert(!placed.contains(gdeps[j as int][k as int]));
                            }
                            all_in = false;
                        } else {
                            k = k + 1;
                        }
                    }
                    if all_in {
                        found = true;
                    } else {
                        j = j + 1;
                    }
                } else {
                    j = j + 1;
                }
            }
            if found {
                proof {
                    assert(first_eligible_from(gdeps, placed, 0) == Some(j as int));
                    assert(order_ints(ord@.push(j)) =~= placed.push(j as int));
                    let np = placed.push(j as int);
                    assert forall|k: int|
                        0 <= k < np.len() implies 0 <= #[trigger] np[k] < gdeps.len() && !np.take(
                            k,
                        ).contains(np[k]) by {
                        assert(np.take(k) =~= if k < placed.len() {
                            placed.take(k)
                        } else {
                            placed
                        });
                    }
                    assert forall|k: int, jj: int|
                        0 <= k < np.len() && 0 <= jj < gdeps[np[k]].len() implies np.take(
                        k,
                    ).contains(#[trigger] gdeps[np[k]][jj]) by {
                        assert(np.take(k) =~= if k < placed.len() {
                            placed.take(k)
                        } else {
                            placed
                        });
                        if k < placed.len() {
                            assert(placed.take(k).contains(gdeps[placed[k]][jj]));
                        }
                    }
                    assert(partial_valid(gdeps, np));
                }
                flags[j] = true;
                ord.push(j);
            } else {
                proof {
                    assert(first_eligible_from(gdeps, placed, 0) is None);
                }
                stuck = true;
            }
        }

        if ord.len() < n {
            proof {
                lemma_stuck_refutes_orders(gdeps, order_ints(ord@));
                assert(the_order(descs) == order_ints(ord@));
            }
            let ghost idxs = Seq::new(descs.len(), |i: int| i);
            let mut leftover: Vec<String> = Vec::new();
            let mut j: usize = 0;
            while j < n
                invariant
                    descs == self.systems@,
                    n == descs.len(),
                    j <= n,
                    flags@.len() == n,
                    idxs == Seq::new(descs.len(), |i: int| i),
                    forall|d: int|
                        0 <= d < n ==> ((#[trigger] flags@[d]) <==> the_order(descs).contains(d)),
                    leftover@.map_values(|s: String| s@) == idxs.take(j as int).filter(
                        |i: int| !the_order(descs).contains(i),
                    ).map_values(|i: int| descs[i].name@),
                decreases n - j,
            {
                proof {
                    reveal(Seq::filter);
                    assert(idxs.take(j + 1).drop_last() =~= idxs.take(j as int));
                    assert(idxs.take(j + 1).last() == j as int);
                }
                if !flags[j] {
                    let nm = self.systems[j].name.clone();
                    proof {
                        assert(leftover@.push(nm).map_values(|s: String| s@) =~= leftover@
                            .map_values(|s: String| s@).push(nm@));
                    }
                    leftover.push(nm);
                }
                j = j + 1;
            }
            proof {
                assert(idxs.take(n as int) =~= idxs);
            }
            return Err(SchedError::CyclicDependency(leftover));
        }
        proof {
            let oi = order_ints(ord@);
            assert(greedy_order(gdeps, oi) == oi);
            assert(valid_order(gdeps, oi));
            assert(acyclic(gdeps));
        }
        self.order = ord;
        self.finalized = true;
        Ok(())
    }

    /// Invoke every system once, in the finalized order, with exclusive
    /// access to the world for the duration of each call.
    pub fn tick(&self, world: &mut World, input: &InputSnapshot, dt: i64)
        requires
            self.wf(),
            self.finalized,
            old(world).wf(),
            0 <= dt && dt <= DT_LIMIT,
        ensures
            final(world).wf(),
            final(world).config == old(world).config,
            final(world).entities@ == spec_run_kinds(
                self.kinds(),
                old(world).entities@,
                old(world).score,
                old(world).config,
                *input,
                dt as int,
            ).0,
            final(world).score == spec_run_kinds(
                self.kinds(),
                old(world).entities@,
                old(world).score,
                old(world).config,
                *input,
                dt as int,
            ).1,
    {
        let m = self.order.len();
        let mut i: usize = 0;
        while i < m
            invariant
                self.wf(),
                self.finalized,
                m == self.order@.len(),
                i <= m,
                world.wf(),
                world.config == old(world).config,
                0 <= dt && dt <= DT_LIMIT,
                world.entities@ == spec_run_kinds(
                    self.kinds().take(i as int),
                    old(world).entities@,
                    old(world).score,
                    old(world).config,
                    *input,
                    dt as int,
                ).0,
                world.score == spec_run_kinds(
                    self.kinds().take(i as int),
                    old(world).entities@,
                    old(world).score,
                    old(world).config,
                    *input,
                    dt as int,
                ).1,
            decreases m - i,
        {
            proof {
                assert(order_ints(self.order@)[i as int] == self.order@[i as int] as int);
                assert(dep_ids(self.systems@).len() == self.systems@.len());
                assert(0 <= order_ints(self.order@)[i as int] < dep_ids(self.systems@).len());
            }
            let idx = self.order[i];
            let kind = self.systems[idx].kind;
            run_system(kind, world, input, dt);
            proof {
                assert(self.kinds().take(i + 1).drop_last() =~= self.kinds().take(i as int));
                assert(self.kinds().take(i + 1).last() == self.kinds()[i as int]);
            }
            i = i + 1;
        }
        proof {
            assert(self.kinds().take(m as int) =~= self.kinds());
        }
    }
}

/// What a finalized schedule does to the entity sequence and the score:
/// each kind applied in turn, first to last.
pub open spec fn spec_run_kinds(
    ks: Seq<SystemKind>,
    es: Seq<Entity>,
    sc: ScoreBoard,
    cfg: crate::world::Config,
    input: InputSnapshot,
    dt: int,
) -> (Seq<Entity>, ScoreBoard)
    decreases ks.len(),
{
    if ks.len() == 0 {
        (es, sc)
    } else {
        let prev = spec_run_kinds(ks.drop_last(), es, sc, cfg, input, dt);
        spec_run_kind(ks.last(), prev.0, prev.1, cfg, input, dt)
    }
}

/// The first registered descriptor carrying `name`, if any.
fn find_name(systems: &Vec<SystemDescriptor>, name: &String) -> (r: Option<usize>)
    ensures
        match r {
            Some(k) => spec_find(reg_names(systems@), name@) == Some(k as int) && (k as int)
                < systems@.len(),
            None => spec_find(reg_names(systems@), name@) is None,
        },
{
    proof {
        lemma_spec_find(reg_names(systems@), name@);
    }
    let n = systems.len();
    let mut j: usize = 0;
    while j < n
        invariant
            n == systems@.len(),
            j <= n,
            forall|j2: int| 0 <= j2 < j ==> reg_names(systems@)[j2] != name@,
        decreases n - j,
    {
        if systems[j].name == *name {
            proof {
                lemma_spec_find(reg_names(systems@), name@);
                assert(reg_names(systems@)[j as int] == name@);
            }
            return Some(j);
        }
        proof {
            assert(reg_names(systems@)[j as int] == systems@[j as int].name@);
        }
        j = j + 1;
    }
    proof {
        lemma_spec_find(reg_names(systems@), name@);
    }
    None
}

} // verus!

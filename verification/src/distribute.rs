//! Distribution of build targets onto runners.
//!
//! Two packing strategies are offered. Merged mode groups every target that
//! lands on the same runner into one assignment, minimizing machine-hours at
//! the cost of latency and fault isolation. Split mode gives every target
//! its own singleton assignment. Targets that match no OS-family keyword
//! fall back to the Linux runner in both modes.
//!
//! Both strategies are pure functions of the incoming target list, so the
//! assignment order — and through it the rendered pipeline text — is stable
//! across repeated runs over identical input.

use vstd::prelude::*;

use crate::runner::GITHUB_LINUX_RUNNER;
use crate::runner::GITHUB_MACOS_RUNNER;
use crate::runner::GITHUB_WINDOWS_RUNNER;
use crate::runner::classified_runner;
use crate::runner::github_runner_for_target;
use crate::runner::is_catalogue_runner;
use crate::runner::linux_runner;
use crate::runner::macos_runner;
use crate::runner::runner_names_distinct;
use crate::runner::windows_runner;
use crate::substr::str_eq;
use vstd::string::StringExecFns;

verus! {

/// One runner paired with the list of targets it will build.
#[derive(Debug, Clone, PartialEq, Eq)]
pub struct RunnerAssignment {
    /// The runner image the work is assigned to.
    pub runner: String,
    /// The targets built on that runner, in their incoming order.
    pub targets: Vec<String>,
}

/// The characters of each target in a list.
pub open spec fn targets_view(ts: Seq<String>) -> Seq<Seq<char>> {
    ts.map_values(|t: String| t@)
}

/// The view of one assignment: the runner name and the target characters.
pub open spec fn assignment_view(a: RunnerAssignment) -> (Seq<char>, Seq<Seq<char>>) {
    (a.runner@, targets_view(a.targets@))
}

/// The view of a whole assignment list.
pub open spec fn assignments_view(asgs: Seq<RunnerAssignment>) -> Seq<(Seq<char>, Seq<Seq<char>>)> {
    asgs.map_values(|a: RunnerAssignment| assignment_view(a))
}

/// The runner a target finally lands on: its classified runner, or the
/// Linux runner as the fallback for unclassified targets.
pub open spec fn runner_of(t: Seq<char>) -> Seq<char> {
    match classified_runner(t) {
        Some(r) => r,
        None => linux_runner(),
    }
}

/// Every target lands on a runner of the closed catalogue.
pub proof fn lemma_runner_of_in_catalogue(t: Seq<char>)
    ensures
        is_catalogue_runner(runner_of(t)),
{
}

/// Resolve a target's runner, applying the Linux fallback for targets that
/// match no OS-family keyword.
pub fn runner_for_target_or_default(target: &str) -> (r: &'static str)
    ensures
        r@ == runner_of(target@),
{
    match github_runner_for_target(target) {
        Some(r) => r,
        None => GITHUB_LINUX_RUNNER,
    }
}

/// The targets of `ts` that land on runner `r`, in their incoming order.
pub open spec fn group_for(ts: Seq<Seq<char>>, r: Seq<char>) -> Seq<Seq<char>> {
    ts.filter(|t: Seq<char>| runner_of(t) == r)
}

/// The merged-mode assignment for runner `r`: one entry holding its whole
/// group, or nothing when no target lands on it.
pub open spec fn maybe_assignment(ts: Seq<Seq<char>>, r: Seq<char>) -> Seq<
    (Seq<char>, Seq<Seq<char>>),
> {
    if group_for(ts, r).len() > 0 {
        seq![(r, group_for(ts, r))]
    } else {
        Seq::empty()
    }
}

/// Merged-mode distribution: one assignment per runner that has work,
/// ordered by runner name.
pub open spec fn merged_assignments(ts: Seq<Seq<char>>) -> Seq<(Seq<char>, Seq<Seq<char>>)> {
    maybe_assignment(ts, macos_runner()) + maybe_assignment(ts, linux_runner())
        + maybe_assignment(ts, windows_runner())
}

/// Split-mode distribution: one singleton assignment per target, in the
/// incoming order.
pub open spec fn split_assignments(ts: Seq<Seq<char>>) -> Seq<(Seq<char>, Seq<Seq<char>>)> {
    ts.map_values(|t: Seq<char>| (runner_of(t), seq![t]))
}

/// Collect the targets that land on `runner`, keeping their order.
fn targets_for_runner(targets: &Vec<String>, runner: &str) -> (g: Vec<String>)
    ensures
        targets_view(g@) == group_for(targets_view(targets@), runner@),
{
    broadcast use vstd::prelude::Seq::lemma_filter_push;

    let mut g: Vec<String> = Vec::new();
    let n = targets.len();
    let mut i: usize = 0;
    while i < n
        invariant
            n == targets@.len(),
            0 <= i <= n,
            targets_view(g@) == group_for(targets_view(targets@.subrange(0, i as int)), runner@),
        decreases n - i,
    {
        proof {
            let prefix = targets_view(targets@.subrange(0, i as int));
            let t = targets@[i as int]@;
            assert(targets@.subrange(0, i + 1 as int) =~= targets@.subrange(0, i as int).push(
                targets@[i as int],
            ));
            assert(targets_view(targets@.subrange(0, i as int).push(targets@[i as int])) =~= (
            prefix.push(t)));
            Seq::lemma_filter_push(prefix, t, |x: Seq<char>| runner_of(x) == runner@);
        }
        let rt = runner_for_target_or_default(&targets[i]);
        if str_eq(rt, runner) {
            let ghost old_g = g@;
            g.push(targets[i].clone());
            proof {
                assert(targets_view(g@) =~= targets_view(old_g).push(targets@[i as int]@));
            }
        }
        i += 1;
    }
    proof {
        assert(targets@.subrange(0, n as int) =~= targets@);
    }
    g
}

/// Given the targets that need local artifact builds, map them to GitHub
/// runners while preferring to merge builds that can happen on the same
/// machine.
///
/// This optimizes for machine-hours at the cost of latency and fault
/// isolation: targets sharing a runner are serialized into one job, so the
/// group is as slow as its slowest target, and one target's failure can
/// drag the others down with it.
pub fn distribute_targets_to_runners_merged(targets: &Vec<String>) -> (r: Vec<RunnerAssignment>)
    ensures
        assignments_view(r@) == merged_assignments(targets_view(targets@)),
{
    let ghost tv = targets_view(targets@);
    let mac = targets_for_runner(targets, GITHUB_MACOS_RUNNER);
    let lin = targets_for_runner(targets, GITHUB_LINUX_RUNNER);
    let win = targets_for_runner(targets, GITHUB_WINDOWS_RUNNER);
    let mut r: Vec<RunnerAssignment> = Vec::new();
    if mac.len() > 0 {
        r.push(RunnerAssignment { runner: String::from_str(GITHUB_MACOS_RUNNER), targets: mac });
    }
    if lin.len() > 0 {
        r.push(RunnerAssignment { runner: String::from_str(GITHUB_LINUX_RUNNER), targets: lin });
    }
    if win.len() > 0 {
        r.push(RunnerAssignment { runner: String::from_str(GITHUB_WINDOWS_RUNNER), targets: win });
    }
    proof {
        assert(assignments_view(r@) =~= merged_assignments(tv));
    }
    r
}

/// Given the targets that need local artifact builds, map each to its own
/// GitHub runner job, trading duplicated setup work for per-target latency
/// and fault isolation.
pub fn distribute_targets_to_runners_split(targets: &Vec<String>) -> (r: Vec<RunnerAssignment>)
    ensures
        assignments_view(r@) == split_assignments(targets_view(targets@)),
{
    let mut r: Vec<RunnerAssignment> = Vec::new();
    let n = targets.len();
    let mut i: usize = 0;
    while i < n
        invariant
            n == targets@.len(),
            0 <= i <= n,
            assignments_view(r@) == split_assignments(targets_view(targets@.subrange(0, i as int))),
        decreases n - i,
    {
        let rt = runner_for_target_or_default(&targets[i]);
        let mut one: Vec<String> = Vec::new();
        one.push(targets[i].clone());
        let ghost old_r = r@;
        r.push(RunnerAssignment { runner: String::from_str(rt), targets: one });
        proof {
            assert(targets@.subrange(0, i + 1 as int) =~= targets@.subrange(0, i as int).push(
                targets@[i as int],
            ));
            assert(targets_view(targets@.subrange(0, i as int).push(targets@[i as int])) =~= (
            targets_view(targets@.subrange(0, i as int)).push(targets@[i as int]@)));
            assert(split_assignments(
                targets_view(targets@.subrange(0, i as int)).push(targets@[i as int]@),
            ) =~= (split_assignments(targets_view(targets@.subrange(0, i as int))).push(
                (runner_of(targets@[i as int]@), seq![targets@[i as int]@]),
            )));
            assert(targets_view(seq![targets@[i as int]]) =~= seq![targets@[i as int]@]);
            assert(assignments_view(r@) =~= assignments_view(old_r).push(
                (runner_of(targets@[i as int]@), seq![targets@[i as int]@]),
            ));
        }
        i += 1;
    }
    proof {
        assert(targets@.subrange(0, n as int) =~= targets@);
    }
    r
}

/// The targets carried by a list of assignments, in order.
pub open spec fn assigned_targets(asgs: Seq<(Seq<char>, Seq<Seq<char>>)>) -> Seq<Seq<char>> {
    asgs.map_values(|a: (Seq<char>, Seq<Seq<char>>)| a.1).flatten()
}

/// How often `x` survives a filter: with its full multiplicity when it
/// satisfies the predicate, not at all otherwise.
proof fn lemma_filter_multiset_count(
    ts: Seq<Seq<char>>,
    pred: spec_fn(Seq<char>) -> bool,
    x: Seq<char>,
)
    ensures
        ts.filter(pred).to_multiset().count(x) == if pred(x) {
            ts.to_multiset().count(x)
        } else {
            0
        },
    decreases ts.len(),
{
    broadcast use vstd::seq_lib::group_to_multiset_ensures;
    broadcast use vstd::multiset::group_multiset_axioms;

    if ts.len() == 0 {
        assert(ts =~= Seq::empty());
        assert(ts.filter(pred) =~= Seq::<Seq<char>>::empty()) by {
            reveal(Seq::filter);
        }
        assert(!ts.contains(x));
        assert(!ts.filter(pred).contains(x));
    } else {
        let prefix = ts.drop_last();
        let last = ts.last();
        lemma_filter_multiset_count(prefix, pred, x);
        assert(ts =~= prefix.push(last));
        Seq::lemma_filter_push(prefix, last, pred);
    }
}

/// Splitting targets-view concatenations through `assigned_targets`.
proof fn lemma_assigned_targets_concat(
    a: Seq<(Seq<char>, Seq<Seq<char>>)>,
    b: Seq<(Seq<char>, Seq<Seq<char>>)>,
)
    ensures
        assigned_targets(a + b) == assigned_targets(a) + assigned_targets(b),
{
    let f = |p: (Seq<char>, Seq<Seq<char>>)| p.1;
    assert((a + b).map_values(f) =~= a.map_values(f) + b.map_values(f));
    vstd::seq_lib::lemma_flatten_concat(a.map_values(f), b.map_values(f));
    assert((a.map_values(f) + b.map_values(f)).flatten() =~= a.map_values(f).flatten()
        + b.map_values(f).flatten());
}

/// A merged-mode assignment list carries exactly the group of its runner.
proof fn lemma_assigned_targets_maybe(ts: Seq<Seq<char>>, r: Seq<char>)
    ensures
        assigned_targets(maybe_assignment(ts, r)) == group_for(ts, r),
{
    let f = |p: (Seq<char>, Seq<Seq<char>>)| p.1;
    if group_for(ts, r).len() > 0 {
        let one = seq![(r, group_for(ts, r))];
        assert(one.map_values(f) =~= seq![group_for(ts, r)]);
        seq![group_for(ts, r)].lemma_flatten_singleton();
        assert(assigned_targets(one) =~= group_for(ts, r));
    } else {
        assert(maybe_assignment(ts, r).map_values(f) =~= Seq::<Seq<Seq<char>>>::empty());
        assert(Seq::<Seq<Seq<char>>>::empty().flatten() =~= Seq::<Seq<char>>::empty());
        assert(group_for(ts, r) =~= Seq::<Seq<char>>::empty());
    }
}

/// Partition totality in merged mode: across all returned assignments the
/// targets are exactly the incoming ones — no duplicates added, none lost.
pub proof fn lemma_partition_totality_merged(ts: Seq<Seq<char>>)
    ensures
        assigned_targets(merged_assignments(ts)).to_multiset() == ts.to_multiset(),
{
    broadcast use vstd::seq_lib::group_to_multiset_ensures;
    broadcast use vstd::multiset::group_multiset_axioms;

    let m = maybe_assignment(ts, macos_runner());
    let l = maybe_assignment(ts, linux_runner());
    let w = maybe_assignment(ts, windows_runner());
    lemma_assigned_targets_concat(m + l, w);
    lemma_assigned_targets_concat(m, l);
    lemma_assigned_targets_maybe(ts, macos_runner());
    lemma_assigned_targets_maybe(ts, linux_runner());
    lemma_assigned_targets_maybe(ts, windows_runner());
    let gm = group_for(ts, macos_runner());
    let gl = group_for(ts, linux_runner());
    let gw = group_for(ts, windows_runner());
    assert(assigned_targets(merged_assignments(ts)) == gm + gl + gw);
    vstd::seq_lib::lemma_multiset_commutative(gm + gl, gw);
    vstd::seq_lib::lemma_multiset_commutative(gm, gl);
    assert forall|x: Seq<char>| (gm + gl + gw).to_multiset().count(x) == ts.to_multiset().count(
        x,
    ) by {
        runner_names_distinct();
        lemma_runner_of_in_catalogue(x);
        lemma_filter_multiset_count(ts, |t: Seq<char>| runner_of(t) == macos_runner(), x);
        lemma_filter_multiset_count(ts, |t: Seq<char>| runner_of(t) == linux_runner(), x);
        lemma_filter_multiset_count(ts, |t: Seq<char>| runner_of(t) == windows_runner(), x);
    }
    assert(assigned_targets(merged_assignments(ts)).to_multiset() =~= ts.to_multiset());
}

/// Partition totality in split mode: the singleton assignments carry
/// exactly the incoming targets, in their incoming order.
pub proof fn lemma_partition_totality_split(ts: Seq<Seq<char>>)
    ensures
        assigned_targets(split_assignments(ts)) == ts,
        assigned_targets(split_assignments(ts)).to_multiset() == ts.to_multiset(),
    decreases ts.len(),
{
    let g = |t: Seq<char>| (runner_of(t), seq![t]);
    let f = |p: (Seq<char>, Seq<Seq<char>>)| p.1;
    if ts.len() == 0 {
        assert(split_assignments(ts).map_values(f) =~= Seq::<Seq<Seq<char>>>::empty());
        assert(assigned_targets(split_assignments(ts)) =~= ts);
    } else {
        let prefix = ts.drop_last();
        let last = ts.last();
        lemma_partition_totality_split(prefix);
        assert(ts =~= prefix.push(last));
        assert(split_assignments(prefix.push(last)) =~= split_assignments(prefix).push(g(last)));
        assert(split_assignments(prefix).push(g(last)).map_values(f) =~= (
        split_assignments(prefix).map_values(f).push(seq![last])));
        vstd::prelude::Seq::lemma_flatten_push(
            split_assignments(prefix).map_values(f),
            seq![last],
        );
        assert(assigned_targets(split_assignments(ts)) =~= ts);
    }
}

/// Merged mode produces exactly one assignment for every runner with work:
/// an assignment for runner `r` exists exactly when some target lands on
/// `r`; it is unique and carries the whole group of `r`.
pub proof fn lemma_merged_one_per_runner(ts: Seq<Seq<char>>, r: Seq<char>)
    requires
        is_catalogue_runner(r),
    ensures
        (exists|i: int| 0 <= i < ts.len() && runner_of(#[trigger] ts[i]) == r) <==> (exists|j: int|
            0 <= j < merged_assignments(ts).len() && (#[trigger] merged_assignments(ts)[j]).0
                == r),
        forall|j: int|
            0 <= j < merged_assignments(ts).len() && (#[trigger] merged_assignments(ts)[j]).0 == r
                ==> merged_assignments(ts)[j].1 == group_for(ts, r),
        forall|j1: int, j2: int|
            0 <= j1 < merged_assignments(ts).len() && 0 <= j2 < merged_assignments(ts).len() && (
            #[trigger] merged_assignments(ts)[j1]).0 == r && (#[trigger] merged_assignments(
                ts,
            )[j2]).0 == r ==> j1 == j2,
{
    runner_names_distinct();
    lemma_group_nonempty_iff(ts, macos_runner());
    lemma_group_nonempty_iff(ts, linux_runner());
    lemma_group_nonempty_iff(ts, windows_runner());
    let m = maybe_assignment(ts, macos_runner());
    let l = maybe_assignment(ts, linux_runner());
    let w = maybe_assignment(ts, windows_runner());
    let merged = merged_assignments(ts);
    let lm = m.len();
    let ll = l.len();
    assert forall|j: int| 0 <= j < merged.len() implies {
        &&& #[trigger] merged[j] == (merged[j].0, group_for(ts, merged[j].0))
        &&& group_for(ts, merged[j].0).len() > 0
        &&& (merged[j].0 == macos_runner() <==> j < lm)
        &&& (merged[j].0 == linux_runner() <==> lm <= j < lm + ll)
        &&& (merged[j].0 == windows_runner() <==> lm + ll <= j)
    } by {
        if j < lm {
            assert(merged[j] == m[0]);
        } else if j < lm + ll {
            assert(merged[j] == l[0]);
        } else {
            assert(merged[j] == w[j - lm - ll]);
        }
    }
    if exists|i: int| 0 <= i < ts.len() && runner_of(#[trigger] ts[i]) == r {
        assert(group_for(ts, r).len() > 0);
        if r == macos_runner() {
            assert(merged[0].0 == r);
        } else if r == linux_runner() {
            assert(merged[lm as int].0 == r);
        } else {
            assert(merged[(lm + ll) as int].0 == r);
        }
    }
}

/// A runner's group is non-empty exactly when some target lands on it.
proof fn lemma_group_nonempty_iff(ts: Seq<Seq<char>>, r: Seq<char>)
    ensures
        group_for(ts, r).len() > 0 <==> exists|i: int|
            0 <= i < ts.len() && runner_of(#[trigger] ts[i]) == r,
{
    broadcast use vstd::seq_lib::group_filter_ensures;

    let pred = |t: Seq<char>| runner_of(t) == r;
    if group_for(ts, r).len() > 0 {
        let t0 = group_for(ts, r)[0];
        assert(ts.filter(pred).contains(t0));
        Seq::lemma_filter_pred(ts, pred, 0);
        Seq::lemma_filter_contains_rev(ts, pred, t0);
        assert(ts.contains(t0) && pred(t0));
        let i = choose|i: int| 0 <= i < ts.len() && ts[i] == t0;
        assert(runner_of(ts[i]) == r);
    }
    if exists|i: int| 0 <= i < ts.len() && runner_of(#[trigger] ts[i]) == r {
        let i = choose|i: int| 0 <= i < ts.len() && runner_of(#[trigger] ts[i]) == r;
        Seq::lemma_filter_contains(ts, pred, i);
        assert(ts.filter(pred).contains(ts[i]));
    }
}

/// Every merged-mode assignment names a runner of the closed catalogue.
pub proof fn lemma_merged_runners_catalogue(ts: Seq<Seq<char>>)
    ensures
        forall|j: int|
            0 <= j < merged_assignments(ts).len() ==> is_catalogue_runner(
                (#[trigger] merged_assignments(ts)[j]).0,
            ),
{
    let m = maybe_assignment(ts, macos_runner());
    let l = maybe_assignment(ts, linux_runner());
    let w = maybe_assignment(ts, windows_runner());
    let merged = merged_assignments(ts);
    assert forall|j: int| 0 <= j < merged.len() implies is_catalogue_runner(
        (#[trigger] merged[j]).0,
    ) by {
        if j < m.len() {
            assert(merged[j] == m[0]);
        } else if j < m.len() + l.len() {
            assert(merged[j] == l[0]);
        } else {
            assert(merged[j] == w[j - m.len() - l.len()]);
        }
    }
}

/// Every split-mode assignment names a runner of the closed catalogue.
pub proof fn lemma_split_runners_catalogue(ts: Seq<Seq<char>>)
    ensures
        forall|j: int|
            0 <= j < split_assignments(ts).len() ==> is_catalogue_runner(
                (#[trigger] split_assignments(ts)[j]).0,
            ),
{
    assert forall|j: int| 0 <= j < split_assignments(ts).len() implies is_catalogue_runner(
        (#[trigger] split_assignments(ts)[j]).0,
    ) by {
        lemma_runner_of_in_catalogue(ts[j]);
    }
}

/// Split mode produces exactly one singleton assignment per target,
/// regardless of runner collisions.
pub proof fn lemma_split_one_per_target(ts: Seq<Seq<char>>)
    ensures
        split_assignments(ts).len() == ts.len(),
        forall|i: int|
            0 <= i < ts.len() ==> #[trigger] split_assignments(ts)[i] == (
                runner_of(ts[i]),
                seq![ts[i]],
            ),
{
}

/// Distribution is deterministic: two assignment lists produced from the
/// same target list under the same packing mode are identical in view.
pub proof fn lemma_distribute_deterministic(
    a: Seq<RunnerAssignment>,
    b: Seq<RunnerAssignment>,
    ts: Seq<Seq<char>>,
    merge: bool,
)
    requires
        assignments_view(a) == if merge {
            merged_assignments(ts)
        } else {
            split_assignments(ts)
        },
        assignments_view(b) == if merge {
            merged_assignments(ts)
        } else {
            split_assignments(ts)
        },
    ensures
        assignments_view(a) == assignments_view(b),
{
}

} // verus!

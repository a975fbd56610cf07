//! Assembly of the complete pipeline description.
//!
//! `GithubCiInfo::new` turns a release graph into the serializable snapshot
//! the workflow template consumes: the optional global-artifacts task, one
//! local-artifacts task per runner assignment, and the behavior flags copied
//! through from the graph.

use vstd::prelude::*;

use crate::distribute::RunnerAssignment;
use crate::distribute::assignments_view;
use crate::distribute::distribute_targets_to_runners_merged;
use crate::distribute::distribute_targets_to_runners_split;
use crate::distribute::lemma_merged_runners_catalogue;
use crate::distribute::lemma_split_runners_catalogue;
use crate::distribute::merged_assignments;
use crate::distribute::split_assignments;
use crate::distribute::targets_view;
use crate::order::all_distinct;
use crate::order::ascending;
use crate::order::insert_sorted;
use crate::order::lemma_insert_sorted_at;
use crate::order::lex_le;
use crate::order::str_le;
use crate::runner::GITHUB_LINUX_RUNNER;
use crate::runner::install_dist_for_github_runner;
use crate::runner::installer_for;
use crate::runner::linux_runner;
use crate::substr::str_eq;
use vstd::string::StrSliceExecFns;
use vstd::string::StringExecFns;

verus! {

/// What kind of job to run on pull requests.
#[derive(Clone, Copy, Debug, PartialEq, Eq, Structural)]
pub enum PrRunMode {
    /// Do not run on pull requests at all.
    Skip,
    /// Only run the plan step.
    Plan,
    /// Build and upload artifacts.
    Upload,
}

/// A CI provider for which pipeline files are generated.
#[derive(Clone, Copy, Debug, PartialEq, Eq, Structural)]
pub enum CiStyle {
    /// GitHub CI.
    Github,
}

/// One release of the graph: the targets it builds for and the names of its
/// target-independent (global) artifacts.
#[derive(Debug, Clone, PartialEq, Eq)]
pub struct Release {
    /// The platform triples this release builds local artifacts for.
    pub targets: Vec<String>,
    /// The global artifacts this release declares; may be empty.
    pub global_artifacts: Vec<String>,
}

/// The parts of a release graph that pipeline generation reads. All fields
/// arrive validated; building the snapshot from them cannot fail.
#[derive(Debug, Clone, PartialEq, Eq)]
pub struct DistGraph {
    /// Version of the Rust toolchain to install (deprecated).
    pub desired_rust_toolchain: Option<String>,
    /// Expression that installs the tool via shell script.
    pub install_dist_sh: String,
    /// Expression that installs the tool via PowerShell script.
    pub install_dist_ps1: String,
    /// Whether the task matrix fails fast.
    pub fail_fast: bool,
    /// Whether to create the release or assume an existing one.
    pub create_release: bool,
    /// The releases of the graph.
    pub releases: Vec<Release>,
    /// What kind of job to run on pull requests.
    pub pr_run_mode: PrRunMode,
    /// The CI providers whose on-disk pipeline files may drift freely.
    pub allow_dirty: Vec<CiStyle>,
    /// Homebrew tap, when one is configured.
    pub tap: Option<String>,
    /// Names of the publish jobs.
    pub publish_jobs: Vec<String>,
    /// Whether targets sharing a runner are merged into one task.
    pub merge_tasks: bool,
    /// The workspace root the pipeline file lives under.
    pub workspace_dir: String,
}

/// One entry of the task matrix.
#[derive(Debug, Clone, PartialEq, Eq)]
pub struct GithubMatrixEntry {
    /// The runner the task executes on.
    pub runner: Option<String>,
    /// Command-line arguments handed to the tool.
    pub dist_args: Option<String>,
    /// Expression that installs the tool on that runner.
    pub install_dist: Option<String>,
}

/// The task matrix for building artifacts.
#[derive(Debug, Clone, PartialEq, Eq)]
pub struct GithubMatrix {
    /// The matrix entries, one per task.
    pub entries: Vec<GithubMatrixEntry>,
}

/// Info about running the release pipeline in GitHub CI.
#[derive(Debug, Clone, PartialEq, Eq)]
pub struct GithubCiInfo {
    /// Version of the Rust toolchain to install (deprecated).
    pub rust_version: Option<String>,
    /// Expression that installs the tool via shell script.
    pub install_dist_sh: String,
    /// Expression that installs the tool via PowerShell script.
    pub install_dist_ps1: String,
    /// Whether the task matrix fails fast.
    pub fail_fast: bool,
    /// Matrix of the local-artifacts tasks.
    pub artifacts_matrix: GithubMatrix,
    /// What kind of job to run on pull requests.
    pub pr_run_mode: PrRunMode,
    /// The global-artifacts task, when one is needed.
    pub global_task: Option<GithubMatrixEntry>,
    /// Homebrew tap, when one is configured.
    pub tap: Option<String>,
    /// Names of the publish jobs.
    pub publish_jobs: Vec<String>,
    /// Whether to create the release or assume an existing one.
    pub create_release: bool,
    /// Whether on-disk drift of the GitHub pipeline file is tolerated.
    pub allow_dirty: bool,
}

/// The characters of an optional string.
pub open spec fn opt_str_view(o: Option<String>) -> Option<Seq<char>> {
    match o {
        Some(s) => Some(s@),
        None => None,
    }
}

/// The view of one matrix entry: runner, arguments, installer.
pub open spec fn entry_view(e: GithubMatrixEntry) -> (
    Option<Seq<char>>,
    Option<Seq<char>>,
    Option<Seq<char>>,
) {
    (opt_str_view(e.runner), opt_str_view(e.dist_args), opt_str_view(e.install_dist))
}

/// The views of a whole entry list.
pub open spec fn entry_views(es: Seq<GithubMatrixEntry>) -> Seq<
    (Option<Seq<char>>, Option<Seq<char>>, Option<Seq<char>>),
> {
    es.map_values(|e: GithubMatrixEntry| entry_view(e))
}

/// A global build is needed exactly when some release declares a non-empty
/// set of global artifacts.
pub open spec fn needs_global_build(rs: Seq<Release>) -> bool {
    exists|i: int| 0 <= i < rs.len() && (#[trigger] rs[i]).global_artifacts@.len() > 0
}

/// Drift is tolerated for GitHub when the graph lists the GitHub provider.
pub open spec fn allows_dirty_github(styles: Seq<CiStyle>) -> bool {
    exists|i: int| 0 <= i < styles.len() && styles[i] == CiStyle::Github
}

/// Insert a target at its sorted place, unless an equal one was already
/// collected.
pub open spec fn dedup_insert(acc: Seq<Seq<char>>, t: Seq<char>) -> Seq<Seq<char>> {
    if acc.contains(t) {
        acc
    } else {
        insert_sorted(acc, t)
    }
}

/// Insert each target of a list in order, collapsing duplicates.
pub open spec fn dedup_extend(acc: Seq<Seq<char>>, ts: Seq<Seq<char>>) -> Seq<Seq<char>>
    decreases ts.len(),
{
    if ts.len() == 0 {
        acc
    } else {
        dedup_insert(dedup_extend(acc, ts.drop_last()), ts.last())
    }
}

/// The union of all releases' target lists: every target once, in
/// ascending lexicographic order. This canonical order makes distribution —
/// and through it the rendered pipeline — insensitive to how the graph
/// happens to list its targets.
pub open spec fn local_targets_spec(rs: Seq<Release>) -> Seq<Seq<char>>
    decreases rs.len(),
{
    if rs.len() == 0 {
        Seq::empty()
    } else {
        dedup_extend(local_targets_spec(rs.drop_last()), targets_view(rs.last().targets@))
    }
}

/// Extending preserves the canonical shape, and reaches exactly the union.
proof fn lemma_dedup_extend_canonical(acc: Seq<Seq<char>>, ts: Seq<Seq<char>>)
    requires
        ascending(acc),
        all_distinct(acc),
    ensures
        ascending(dedup_extend(acc, ts)),
        all_distinct(dedup_extend(acc, ts)),
        forall|x: Seq<char>|
            dedup_extend(acc, ts).contains(x) <==> (acc.contains(x) || ts.contains(x)),
    decreases ts.len(),
{
    broadcast use vstd::seq_lib::group_seq_properties;

    if ts.len() == 0 {
    } else {
        lemma_dedup_extend_canonical(acc, ts.drop_last());
        let mid = dedup_extend(acc, ts.drop_last());
        if !mid.contains(ts.last()) {
            crate::order::lemma_insert_sorted_ascending(mid, ts.last());
            crate::order::lemma_insert_sorted_distinct(mid, ts.last());
            crate::order::lemma_insert_sorted_membership(mid, ts.last());
        }
        assert(forall|x: Seq<char>|
            ts.contains(x) <==> (ts.drop_last().contains(x) || x == ts.last()));
    }
}

/// The collected target union is a set in canonical form: in ascending
/// lexicographic order, free of duplicates, and holding exactly the targets
/// that some release declares.
pub proof fn lemma_local_targets_canonical(rs: Seq<Release>)
    ensures
        ascending(local_targets_spec(rs)),
        all_distinct(local_targets_spec(rs)),
        forall|x: Seq<char>|
            local_targets_spec(rs).contains(x) <==> graph_declares_target(rs, x),
    decreases rs.len(),
{
    if rs.len() == 0 {
    } else {
        lemma_local_targets_canonical(rs.drop_last());
        lemma_dedup_extend_canonical(
            local_targets_spec(rs.drop_last()),
            targets_view(rs.last().targets@),
        );
        assert forall|x: Seq<char>|
            local_targets_spec(rs).contains(x) <==> graph_declares_target(rs, x) by {
            let mid = local_targets_spec(rs.drop_last());
            let tv = targets_view(rs.last().targets@);
            assert(local_targets_spec(rs) == dedup_extend(mid, tv));
            if local_targets_spec(rs).contains(x) {
                assert(dedup_extend(mid, tv).contains(x));
                if mid.contains(x) {
                    assert(graph_declares_target(rs.drop_last(), x));
                    let i = choose|i: int|
                        0 <= i < rs.drop_last().len() && targets_view(
                            (#[trigger] rs.drop_last()[i]).targets@,
                        ).contains(x);
                    assert(rs[i] == rs.drop_last()[i]);
                    assert(targets_view((rs[i]).targets@).contains(x));
                    assert(graph_declares_target(rs, x));
                } else {
                    assert(tv.contains(x));
                    assert(rs[rs.len() - 1] == rs.last());
                    assert(targets_view((rs[rs.len() - 1]).targets@).contains(x));
                    assert(graph_declares_target(rs, x));
                }
            }
            if graph_declares_target(rs, x) {
                let i = choose|i: int|
                    0 <= i < rs.len() && targets_view((#[trigger] rs[i]).targets@).contains(x);
                if i < rs.len() - 1 {
                    assert(rs.drop_last()[i] == rs[i]);
                    assert(targets_view((rs.drop_last()[i]).targets@).contains(x));
                    assert(graph_declares_target(rs.drop_last(), x));
                    assert(mid.contains(x));
                } else {
                    assert(rs.last() == rs[i]);
                    assert(tv.contains(x));
                }
                assert(dedup_extend(mid, tv).contains(x));
            }
        }
    }
}

/// Some release of the graph declares this target.
pub open spec fn graph_declares_target(rs: Seq<Release>, x: Seq<char>) -> bool {
    exists|i: int| 0 <= i < rs.len() && targets_view((#[trigger] rs[i]).targets@).contains(x)
}

/// The collected union depends only on the set of declared targets: two
/// graphs whose releases declare the same targets — however ordered or
/// grouped into releases — collect identical target lists, and so render
/// identical task matrices under the same packing mode.
pub proof fn lemma_local_targets_set_determined(rs1: Seq<Release>, rs2: Seq<Release>)
    requires
        forall|x: Seq<char>|
            graph_declares_target(rs1, x) <==> #[trigger] graph_declares_target(rs2, x),
    ensures
        local_targets_spec(rs1) == local_targets_spec(rs2),
{
    lemma_local_targets_canonical(rs1);
    lemma_local_targets_canonical(rs2);
    assert forall|x: Seq<char>|
        local_targets_spec(rs1).contains(x) <==> local_targets_spec(rs2).contains(x) by {
        assert(local_targets_spec(rs1).contains(x) <==> graph_declares_target(rs1, x));
        assert(graph_declares_target(rs1, x) <==> graph_declares_target(rs2, x));
        assert(local_targets_spec(rs2).contains(x) <==> graph_declares_target(rs2, x));
    }
    crate::order::lemma_canonical_unique(local_targets_spec(rs1), local_targets_spec(rs2));
}

/// The command-line flags of the global-artifacts task.
pub open spec fn global_args() -> Seq<char> {
    "--artifacts=global"@
}

/// The target-selection flags appended for one assignment's target list.
pub open spec fn target_args(ts: Seq<Seq<char>>) -> Seq<char>
    decreases ts.len(),
{
    if ts.len() == 0 {
        Seq::empty()
    } else {
        target_args(ts.drop_last()) + " --target="@ + ts.last()
    }
}

/// The command-line flags of a local-artifacts task: the local directive
/// followed by one selection flag per target.
pub open spec fn local_dist_args(ts: Seq<Seq<char>>) -> Seq<char> {
    "--artifacts=local"@ + target_args(ts)
}

/// The entry views that a list of assignments turns into.
pub open spec fn local_task_views(
    asgs: Seq<(Seq<char>, Seq<Seq<char>>)>,
    sh: Seq<char>,
    ps: Seq<char>,
) -> Seq<(Option<Seq<char>>, Option<Seq<char>>, Option<Seq<char>>)> {
    asgs.map_values(
        |a: (Seq<char>, Seq<Seq<char>>)|
            (
                Some(a.0),
                Some(local_dist_args(a.1)),
                Some(installer_for(a.0, sh, ps)),
            ),
    )
}

/// The assignments the graph's local targets distribute into, under the
/// graph's packing mode.
pub open spec fn chosen_assignments(rs: Seq<Release>, merge: bool) -> Seq<
    (Seq<char>, Seq<Seq<char>>),
> {
    if merge {
        merged_assignments(local_targets_spec(rs))
    } else {
        split_assignments(local_targets_spec(rs))
    }
}

/// Whether a target list already holds a target with these characters.
fn contains_target(v: &Vec<String>, t: &str) -> (r: bool)
    ensures
        r == targets_view(v@).contains(t@),
{
    let n = v.len();
    let mut i: usize = 0;
    while i < n
        invariant
            n == v@.len(),
            0 <= i <= n,
            forall|k: int| 0 <= k < i ==> targets_view(v@)[k] != t@,
        decreases n - i,
    {
        if str_eq(v[i].as_str(), t) {
            proof {
                assert(targets_view(v@)[i as int] == t@);
            }
            return true;
        }
        i += 1;
    }
    false
}

/// The first position of `v` whose target sorts at or after `t`.
fn sorted_position(v: &Vec<String>, t: &str) -> (j: usize)
    ensures
        0 <= j <= v@.len(),
        forall|k: int| 0 <= k < j ==> !lex_le(t@, #[trigger] targets_view(v@)[k]),
        j < v@.len() ==> lex_le(t@, targets_view(v@)[j as int]),
{
    let n = v.len();
    let mut j: usize = 0;
    while j < n
        invariant
            n == v@.len(),
            0 <= j <= n,
            forall|k: int| 0 <= k < j ==> !lex_le(t@, #[trigger] targets_view(v@)[k]),
        decreases n - j,
    {
        if str_le(t, v[j].as_str()) {
            return j;
        }
        j += 1;
    }
    j
}

/// Insert a target at its sorted place.
fn insert_target_sorted(v: &mut Vec<String>, t: String)
    ensures
        targets_view(final(v)@) == insert_sorted(targets_view(old(v)@), t@),
{
    let j = sorted_position(v, t.as_str());
    proof {
        lemma_insert_sorted_at(targets_view(v@), t@, j as int);
    }
    v.insert(j, t);
    proof {
        assert(targets_view(v@) =~= targets_view(old(v)@).insert(j as int, t@));
    }
}

/// Collect the union of all releases' targets, collapsing duplicates and
/// keeping ascending lexicographic order.
fn collect_local_targets(releases: &Vec<Release>) -> (out: Vec<String>)
    ensures
        targets_view(out@) == local_targets_spec(releases@),
{
    let mut out: Vec<String> = Vec::new();
    let n = releases.len();
    let mut i: usize = 0;
    while i < n
        invariant
            n == releases@.len(),
            0 <= i <= n,
            targets_view(out@) == local_targets_spec(releases@.subrange(0, i as int)),
        decreases n - i,
    {
        let ts = &releases[i].targets;
        let m = ts.len();
        let mut j: usize = 0;
        while j < m
            invariant
                n == releases@.len(),
                0 <= i < n,
                m == ts@.len(),
                ts@ == releases@[i as int].targets@,
                0 <= j <= m,
                targets_view(out@) == dedup_extend(
                    local_targets_spec(releases@.subrange(0, i as int)),
                    targets_view(ts@.subrange(0, j as int)),
                ),
            decreases m - j,
        {
            proof {
                assert(ts@.subrange(0, j + 1 as int) =~= ts@.subrange(0, j as int).push(
                    ts@[j as int],
                ));
                assert(targets_view(ts@.subrange(0, j as int).push(ts@[j as int])) =~= (
                targets_view(ts@.subrange(0, j as int)).push(ts@[j as int]@)));
                assert(targets_view(ts@.subrange(0, j + 1 as int)).drop_last() =~= targets_view(
                    ts@.subrange(0, j as int),
                ));
            }
            if !contains_target(&out, ts[j].as_str()) {
                insert_target_sorted(&mut out, ts[j].clone());
            }
            j += 1;
        }
        proof {
            assert(ts@.subrange(0, m as int) =~= ts@);
            assert(releases@.subrange(0, i + 1 as int) =~= releases@.subrange(0, i as int).push(
                releases@[i as int],
            ));
            assert(releases@.subrange(0, i + 1 as int).drop_last() =~= releases@.subrange(
                0,
                i as int,
            ));
        }
        i += 1;
    }
    proof {
        assert(releases@.subrange(0, n as int) =~= releases@);
    }
    out
}

/// Whether some release of a prefix declares global artifacts.
fn any_global_build(releases: &Vec<Release>) -> (r: bool)
    ensures
        r == needs_global_build(releases@),
{
    let n = releases.len();
    let mut i: usize = 0;
    while i < n
        invariant
            n == releases@.len(),
            0 <= i <= n,
            forall|k: int| 0 <= k < i ==> (#[trigger] releases@[k]).global_artifacts@.len() == 0,
        decreases n - i,
    {
        if releases[i].global_artifacts.len() > 0 {
            return true;
        }
        i += 1;
    }
    false
}

/// Whether the GitHub provider is among the dirty-tolerant ones.
fn allow_dirty_github(styles: &Vec<CiStyle>) -> (r: bool)
    ensures
        r == allows_dirty_github(styles@),
{
    let n = styles.len();
    let mut i: usize = 0;
    while i < n
        invariant
            n == styles@.len(),
            0 <= i <= n,
            forall|k: int| 0 <= k < i ==> styles@[k] != CiStyle::Github,
        decreases n - i,
    {
        if styles[i] == CiStyle::Github {
            return true;
        }
        i += 1;
    }
    false
}

/// Clone an optional string, preserving its characters.
fn clone_opt_string(o: &Option<String>) -> (r: Option<String>)
    ensures
        opt_str_view(r) == opt_str_view(*o),
{
    match o {
        Some(s) => Some(s.clone()),
        None => None,
    }
}

/// Clone a string list, preserving every element's characters.
fn clone_string_list(v: &Vec<String>) -> (r: Vec<String>)
    ensures
        targets_view(r@) == targets_view(v@),
{
    let mut r: Vec<String> = Vec::new();
    let n = v.len();
    let mut i: usize = 0;
    while i < n
        invariant
            n == v@.len(),
            0 <= i <= n,
            targets_view(r@) == targets_view(v@.subrange(0, i as int)),
        decreases n - i,
    {
        let ghost old_r = r@;
        r.push(v[i].clone());
        proof {
            assert(v@.subrange(0, i + 1 as int) =~= v@.subrange(0, i as int).push(v@[i as int]));
            assert(targets_view(v@.subrange(0, i as int).push(v@[i as int])) =~= targets_view(
                v@.subrange(0, i as int),
            ).push(v@[i as int]@));
            assert(targets_view(r@) =~= targets_view(old_r).push(v@[i as int]@));
        }
        i += 1;
    }
    proof {
        assert(v@.subrange(0, n as int) =~= v@);
    }
    r
}

/// Render the command-line flags of one local-artifacts task.
fn local_task_args(targets: &Vec<String>) -> (r: String)
    ensures
        r@ == local_dist_args(targets_view(targets@)),
{
    let mut s = String::from_str("--artifacts=local");
    let n = targets.len();
    let mut i: usize = 0;
    while i < n
        invariant
            n == targets@.len(),
            0 <= i <= n,
            s@ == local_dist_args(targets_view(targets@.subrange(0, i as int))),
        decreases n - i,
    {
        s.append(" --target=");
        s.append(targets[i].as_str());
        proof {
            assert(targets@.subrange(0, i + 1 as int) =~= targets@.subrange(0, i as int).push(
                targets@[i as int],
            ));
            assert(targets_view(targets@.subrange(0, i as int).push(targets@[i as int])) =~= (
            targets_view(targets@.subrange(0, i as int)).push(targets@[i as int]@)));
            assert(targets_view(targets@.subrange(0, i + 1 as int)).drop_last() =~= targets_view(
                targets@.subrange(0, i as int),
            ));
        }
        i += 1;
    }
    proof {
        assert(targets@.subrange(0, n as int) =~= targets@);
    }
    s
}

impl GithubCiInfo {
    /// Compute the GitHub CI description of a release graph: distribute its
    /// local targets, pin the global task (when one is needed) to the Linux
    /// runner, and copy the behavior flags through.
    pub fn new(dist: &DistGraph) -> (info: GithubCiInfo)
        ensures
            opt_str_view(info.rust_version) == opt_str_view(dist.desired_rust_toolchain),
            info.install_dist_sh@ == dist.install_dist_sh@,
            info.install_dist_ps1@ == dist.install_dist_ps1@,
            info.fail_fast == dist.fail_fast,
            info.create_release == dist.create_release,
            info.pr_run_mode == dist.pr_run_mode,
            info.allow_dirty == allows_dirty_github(dist.allow_dirty@),
            opt_str_view(info.tap) == opt_str_view(dist.tap),
            targets_view(info.publish_jobs@) == targets_view(dist.publish_jobs@),
            match info.global_task {
                Some(e) => needs_global_build(dist.releases@) && entry_view(e) == (
                    Some(linux_runner()),
                    Some(global_args()),
                    Some(dist.install_dist_sh@),
                ),
                None => !needs_global_build(dist.releases@),
            },
            entry_views(info.artifacts_matrix.entries@) == local_task_views(
                chosen_assignments(dist.releases@, dist.merge_tasks),
                dist.install_dist_sh@,
                dist.install_dist_ps1@,
            ),
    {
        let rust_version = clone_opt_string(&dist.desired_rust_toolchain);
        let install_dist_sh = dist.install_dist_sh.clone();
        let install_dist_ps1 = dist.install_dist_ps1.clone();

        let local_targets = collect_local_targets(&dist.releases);
        let needs_global = any_global_build(&dist.releases);

        let global_task = if needs_global {
            Some(
                GithubMatrixEntry {
                    runner: Some(String::from_str(GITHUB_LINUX_RUNNER)),
                    dist_args: Some(String::from_str("--artifacts=global")),
                    install_dist: Some(install_dist_sh.clone()),
                },
            )
        } else {
            None
        };

        let local_runs = if dist.merge_tasks {
            distribute_targets_to_runners_merged(&local_targets)
        } else {
            distribute_targets_to_runners_split(&local_targets)
        };
        proof {
            if dist.merge_tasks {
                lemma_merged_runners_catalogue(targets_view(local_targets@));
            } else {
                lemma_split_runners_catalogue(targets_view(local_targets@));
            }
        }
        let ghost asgs = chosen_assignments(dist.releases@, dist.merge_tasks);

        let mut tasks: Vec<GithubMatrixEntry> = Vec::new();
        let k = local_runs.len();
        let mut idx: usize = 0;
        while idx < k
            invariant
                k == local_runs@.len(),
                0 <= idx <= k,
                asgs == assignments_view(local_runs@),
                forall|j: int|
                    0 <= j < k ==> crate::runner::is_catalogue_runner(
                        (#[trigger] assignments_view(local_runs@)[j]).0,
                    ),
                entry_views(tasks@) == local_task_views(
                    asgs.subrange(0, idx as int),
                    install_dist_sh@,
                    install_dist_ps1@,
                ),
                install_dist_sh@ == dist.install_dist_sh@,
                install_dist_ps1@ == dist.install_dist_ps1@,
            decreases k - idx,
        {
            let run = &local_runs[idx];
            proof {
                assert(assignments_view(local_runs@)[idx as int] == crate::distribute::assignment_view(
                    local_runs@[idx as int],
                ));
            }
            let dist_args = local_task_args(&run.targets);
            let install = install_dist_for_github_runner(
                run.runner.as_str(),
                install_dist_sh.as_str(),
                install_dist_ps1.as_str(),
            );
            let ghost old_tasks = tasks@;
            let entry = GithubMatrixEntry {
                runner: Some(run.runner.clone()),
                dist_args: Some(dist_args),
                install_dist: Some(String::from_str(install)),
            };
            let ghost entry_snap = entry;
            tasks.push(entry);
            proof {
                let a = asgs[idx as int];
                assert(run.runner@ == a.0);
                assert(targets_view(run.targets@) == a.1);
                assert(tasks@ == old_tasks.push(entry_snap));
                assert(entry_view(entry_snap) == (
                    Some(a.0),
                    Some(local_dist_args(a.1)),
                    Some(installer_for(a.0, install_dist_sh@, install_dist_ps1@)),
                ));
                assert(asgs.subrange(0, idx + 1 as int) =~= asgs.subrange(0, idx as int).push(
                    asgs[idx as int],
                ));
                assert(entry_views(tasks@) =~~= entry_views(old_tasks).push(
                    entry_view(entry_snap),
                ));
                assert(local_task_views(
                    asgs.subrange(0, idx + 1 as int),
                    install_dist_sh@,
                    install_dist_ps1@,
                ) =~~= local_task_views(
                    asgs.subrange(0, idx as int),
                    install_dist_sh@,
                    install_dist_ps1@,
                ).push(
                    (
                        Some(a.0),
                        Some(local_dist_args(a.1)),
                        Some(installer_for(a.0, install_dist_sh@, install_dist_ps1@)),
                    ),
                ));
            }
            idx += 1;
        }
        proof {
            assert(asgs.subrange(0, k as int) =~= asgs);
        }

        GithubCiInfo {
            rust_version,
            install_dist_sh,
            install_dist_ps1,
            fail_fast: dist.fail_fast,
            artifacts_matrix: GithubMatrix { entries: tasks },
            pr_run_mode: dist.pr_run_mode,
            global_task,
            tap: clone_opt_string(&dist.tap),
            publish_jobs: clone_string_list(&dist.publish_jobs),
            create_release: dist.create_release,
            allow_dirty: allow_dirty_github(&dist.allow_dirty),
        }
    }
}

} // verus!

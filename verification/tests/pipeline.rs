//! End-to-end tests of target classification, distribution, pipeline
//! assembly, and the drift-check protocol.

use github_ci::distribute::RunnerAssignment;
use github_ci::distribute::distribute_targets_to_runners_merged;
use github_ci::distribute::distribute_targets_to_runners_split;
use github_ci::info::CiStyle;
use github_ci::info::DistGraph;
use github_ci::info::GithubCiInfo;
use github_ci::info::PrRunMode;
use github_ci::info::Release;
use github_ci::runner::GITHUB_LINUX_RUNNER;
use github_ci::runner::GITHUB_MACOS_RUNNER;
use github_ci::runner::GITHUB_WINDOWS_RUNNER;
use github_ci::runner::github_runner_for_target;
use github_ci::runner::install_dist_for_github_runner;
use github_ci::sync::DistError;

fn strings(xs: &[&str]) -> Vec<String> {
    xs.iter().map(|x| String::from(*x)).collect()
}

fn sample_graph(releases: Vec<Release>, merge_tasks: bool, allow_dirty: Vec<CiStyle>) -> DistGraph {
    DistGraph {
        desired_rust_toolchain: Some(String::from("1.67.1")),
        install_dist_sh: String::from("curl | sh"),
        install_dist_ps1: String::from("irm | iex"),
        fail_fast: false,
        create_release: true,
        releases,
        pr_run_mode: PrRunMode::Plan,
        allow_dirty,
        tap: None,
        publish_jobs: strings(&["homebrew"]),
        merge_tasks,
        workspace_dir: String::from("/work"),
    }
}

fn flat_targets(assignments: &[RunnerAssignment]) -> Vec<String> {
    let mut out = Vec::new();
    for a in assignments {
        for t in &a.targets {
            out.push(t.clone());
        }
    }
    out
}

#[test]
fn classify_linux() {
    assert_eq!(
        github_runner_for_target("x86_64-unknown-linux-gnu"),
        Some(GITHUB_LINUX_RUNNER)
    );
}

#[test]
fn classify_apple() {
    assert_eq!(
        github_runner_for_target("aarch64-apple-darwin"),
        Some(GITHUB_MACOS_RUNNER)
    );
}

#[test]
fn classify_windows() {
    assert_eq!(
        github_runner_for_target("x86_64-pc-windows-msvc"),
        Some(GITHUB_WINDOWS_RUNNER)
    );
}

#[test]
fn classify_substring_anywhere() {
    assert_eq!(github_runner_for_target("linux"), Some(GITHUB_LINUX_RUNNER));
    assert_eq!(
        github_runner_for_target("weird-linux-variant"),
        Some(GITHUB_LINUX_RUNNER)
    );
    assert_eq!(
        github_runner_for_target("prefixapplesuffix"),
        Some(GITHUB_MACOS_RUNNER)
    );
}

#[test]
fn classify_priority_order() {
    // "linux" wins over later keywords when several occur.
    assert_eq!(
        github_runner_for_target("linux-windows-apple"),
        Some(GITHUB_LINUX_RUNNER)
    );
}

#[test]
fn classify_unknown() {
    assert_eq!(github_runner_for_target("wasm32-unknown-unknown"), None);
    assert_eq!(github_runner_for_target(""), None);
}

#[test]
fn installer_shell_for_linux_and_macos() {
    assert_eq!(
        install_dist_for_github_runner(GITHUB_LINUX_RUNNER, "sh-expr", "ps-expr"),
        "sh-expr"
    );
    assert_eq!(
        install_dist_for_github_runner(GITHUB_MACOS_RUNNER, "sh-expr", "ps-expr"),
        "sh-expr"
    );
}

#[test]
fn installer_powershell_for_windows() {
    assert_eq!(
        install_dist_for_github_runner(GITHUB_WINDOWS_RUNNER, "sh-expr", "ps-expr"),
        "ps-expr"
    );
}

#[test]
fn merged_example() {
    let targets = strings(&[
        "x86_64-unknown-linux-gnu",
        "aarch64-apple-darwin",
        "x86_64-apple-darwin",
        "x86_64-pc-windows-msvc",
    ]);
    let got = distribute_targets_to_runners_merged(&targets);
    assert_eq!(got.len(), 3);
    assert_eq!(got[0].runner, GITHUB_MACOS_RUNNER);
    assert_eq!(
        got[0].targets,
        strings(&["aarch64-apple-darwin", "x86_64-apple-darwin"])
    );
    assert_eq!(got[1].runner, GITHUB_LINUX_RUNNER);
    assert_eq!(got[1].targets, strings(&["x86_64-unknown-linux-gnu"]));
    assert_eq!(got[2].runner, GITHUB_WINDOWS_RUNNER);
    assert_eq!(got[2].targets, strings(&["x86_64-pc-windows-msvc"]));
}

#[test]
fn split_example() {
    let targets = strings(&[
        "x86_64-unknown-linux-gnu",
        "aarch64-apple-darwin",
        "x86_64-apple-darwin",
        "x86_64-pc-windows-msvc",
    ]);
    let got = distribute_targets_to_runners_split(&targets);
    assert_eq!(got.len(), 4);
    let expected_runners = [
        GITHUB_LINUX_RUNNER,
        GITHUB_MACOS_RUNNER,
        GITHUB_MACOS_RUNNER,
        GITHUB_WINDOWS_RUNNER,
    ];
    for (i, a) in got.iter().enumerate() {
        assert_eq!(a.runner, expected_runners[i]);
        assert_eq!(a.targets, vec![targets[i].clone()]);
    }
}

#[test]
fn merged_fallback_to_linux() {
    let targets = strings(&["wasm32-unknown-unknown", "x86_64-unknown-linux-gnu"]);
    let got = distribute_targets_to_runners_merged(&targets);
    assert_eq!(got.len(), 1);
    assert_eq!(got[0].runner, GITHUB_LINUX_RUNNER);
    assert_eq!(
        got[0].targets,
        strings(&["wasm32-unknown-unknown", "x86_64-unknown-linux-gnu"])
    );
}

#[test]
fn split_fallback_to_linux() {
    let targets = strings(&["mystery-platform"]);
    let got = distribute_targets_to_runners_split(&targets);
    assert_eq!(got.len(), 1);
    assert_eq!(got[0].runner, GITHUB_LINUX_RUNNER);
    assert_eq!(got[0].targets, strings(&["mystery-platform"]));
}

#[test]
fn partition_totality_concrete() {
    let targets = strings(&[
        "aarch64-apple-darwin",
        "x86_64-pc-windows-msvc",
        "x86_64-unknown-linux-gnu",
        "wasm32-unknown-unknown",
    ]);
    let merged = distribute_targets_to_runners_merged(&targets);
    let mut merged_flat = flat_targets(&merged);
    merged_flat.sort();
    let split = distribute_targets_to_runners_split(&targets);
    let mut split_flat = flat_targets(&split);
    split_flat.sort();
    let mut want = targets.clone();
    want.sort();
    assert_eq!(merged_flat, want);
    assert_eq!(split_flat, want);
}

#[test]
fn distribute_deterministic() {
    let targets = strings(&[
        "x86_64-unknown-linux-gnu",
        "aarch64-apple-darwin",
        "odd-target",
    ]);
    assert_eq!(
        distribute_targets_to_runners_merged(&targets),
        distribute_targets_to_runners_merged(&targets)
    );
    assert_eq!(
        distribute_targets_to_runners_split(&targets),
        distribute_targets_to_runners_split(&targets)
    );
}

#[test]
fn global_task_present() {
    let releases = vec![
        Release {
            targets: strings(&["x86_64-unknown-linux-gnu"]),
            global_artifacts: strings(&["installer.sh"]),
        },
        Release {
            targets: strings(&["aarch64-apple-darwin"]),
            global_artifacts: Vec::new(),
        },
    ];
    let graph = sample_graph(releases, true, Vec::new());
    let info = GithubCiInfo::new(&graph);
    let global = info.global_task.expect("a global task is owed");
    assert_eq!(global.runner, Some(String::from(GITHUB_LINUX_RUNNER)));
    assert_eq!(global.dist_args, Some(String::from("--artifacts=global")));
    assert_eq!(global.install_dist, Some(String::from("curl | sh")));
}

#[test]
fn global_task_absent() {
    let releases = vec![Release {
        targets: strings(&["x86_64-unknown-linux-gnu"]),
        global_artifacts: Vec::new(),
    }];
    let graph = sample_graph(releases, true, Vec::new());
    let info = GithubCiInfo::new(&graph);
    assert!(info.global_task.is_none());
}

#[test]
fn local_task_args_and_installers() {
    let releases = vec![Release {
        targets: strings(&[
            "aarch64-apple-darwin",
            "x86_64-apple-darwin",
            "x86_64-pc-windows-msvc",
        ]),
        global_artifacts: Vec::new(),
    }];
    let graph = sample_graph(releases, true, Vec::new());
    let info = GithubCiInfo::new(&graph);
    let entries = &info.artifacts_matrix.entries;
    assert_eq!(entries.len(), 2);
    assert_eq!(entries[0].runner, Some(String::from(GITHUB_MACOS_RUNNER)));
    assert_eq!(
        entries[0].dist_args,
        Some(String::from(
            "--artifacts=local --target=aarch64-apple-darwin --target=x86_64-apple-darwin"
        ))
    );
    assert_eq!(entries[0].install_dist, Some(String::from("curl | sh")));
    assert_eq!(entries[1].runner, Some(String::from(GITHUB_WINDOWS_RUNNER)));
    assert_eq!(
        entries[1].dist_args,
        Some(String::from("--artifacts=local --target=x86_64-pc-windows-msvc"))
    );
    assert_eq!(entries[1].install_dist, Some(String::from("irm | iex")));
}

#[test]
fn duplicate_targets_collapse() {
    let releases = vec![
        Release {
            targets: strings(&["x86_64-unknown-linux-gnu"]),
            global_artifacts: Vec::new(),
        },
        Release {
            targets: strings(&["x86_64-unknown-linux-gnu", "aarch64-apple-darwin"]),
            global_artifacts: Vec::new(),
        },
    ];
    let graph = sample_graph(releases, false, Vec::new());
    let info = GithubCiInfo::new(&graph);
    let entries = &info.artifacts_matrix.entries;
    assert_eq!(entries.len(), 2);
    assert_eq!(
        entries[0].dist_args,
        Some(String::from("--artifacts=local --target=aarch64-apple-darwin"))
    );
    assert_eq!(
        entries[1].dist_args,
        Some(String::from("--artifacts=local --target=x86_64-unknown-linux-gnu"))
    );
}

#[test]
fn union_order_is_canonical() {
    let one = vec![Release {
        targets: strings(&[
            "x86_64-pc-windows-msvc",
            "aarch64-apple-darwin",
            "x86_64-unknown-linux-gnu",
        ]),
        global_artifacts: Vec::new(),
    }];
    let other = vec![
        Release {
            targets: strings(&["x86_64-unknown-linux-gnu", "x86_64-pc-windows-msvc"]),
            global_artifacts: Vec::new(),
        },
        Release {
            targets: strings(&["aarch64-apple-darwin", "x86_64-unknown-linux-gnu"]),
            global_artifacts: Vec::new(),
        },
    ];
    let a = GithubCiInfo::new(&sample_graph(one, true, Vec::new()));
    let b = GithubCiInfo::new(&sample_graph(other, true, Vec::new()));
    assert_eq!(a, b);
    assert_eq!(
        a.artifacts_matrix.entries[1].dist_args,
        Some(String::from("--artifacts=local --target=x86_64-unknown-linux-gnu"))
    );
}

#[test]
fn flags_copied_through() {
    let graph = sample_graph(Vec::new(), true, vec![CiStyle::Github]);
    let info = GithubCiInfo::new(&graph);
    assert_eq!(info.rust_version, Some(String::from("1.67.1")));
    assert_eq!(info.install_dist_sh, String::from("curl | sh"));
    assert_eq!(info.install_dist_ps1, String::from("irm | iex"));
    assert!(!info.fail_fast);
    assert!(info.create_release);
    assert_eq!(info.pr_run_mode, PrRunMode::Plan);
    assert!(info.allow_dirty);
    assert_eq!(info.tap, None);
    assert_eq!(info.publish_jobs, strings(&["homebrew"]));
}

#[test]
fn allow_dirty_scoped_to_github() {
    let graph = sample_graph(Vec::new(), true, Vec::new());
    let info = GithubCiInfo::new(&graph);
    assert!(!info.allow_dirty);
}

#[test]
fn ci_path_is_fixed() {
    let graph = sample_graph(Vec::new(), true, Vec::new());
    let info = GithubCiInfo::new(&graph);
    assert_eq!(
        info.github_ci_path(&graph),
        String::from("/work/.github/workflows/release.yml")
    );

    let mut slashed = sample_graph(Vec::new(), true, Vec::new());
    slashed.workspace_dir = String::from("/work/");
    assert_eq!(
        info.github_ci_path(&slashed),
        String::from("/work/.github/workflows/release.yml")
    );

    let mut bare = sample_graph(Vec::new(), true, Vec::new());
    bare.workspace_dir = String::new();
    assert_eq!(
        info.github_ci_path(&bare),
        String::from(".github/workflows/release.yml")
    );
}

#[test]
fn check_after_write_succeeds() {
    let graph = sample_graph(Vec::new(), true, Vec::new());
    let info = GithubCiInfo::new(&graph);
    let rendered = String::from("pipeline text");
    let on_disk = Some(rendered.clone());
    assert_eq!(info.check_github_ci(&graph, &rendered, &on_disk), Ok(()));
}

#[test]
fn check_detects_drift() {
    let graph = sample_graph(Vec::new(), true, Vec::new());
    let info = GithubCiInfo::new(&graph);
    let rendered = String::from("B");
    let on_disk = Some(String::from("A"));
    assert_eq!(
        info.check_github_ci(&graph, &rendered, &on_disk),
        Err(DistError::CheckFileMismatch {
            file: String::from("/work/.github/workflows/release.yml"),
        })
    );
}

#[test]
fn check_tolerates_drift_when_allowed() {
    let graph = sample_graph(Vec::new(), true, vec![CiStyle::Github]);
    let info = GithubCiInfo::new(&graph);
    let rendered = String::from("B");
    let on_disk = Some(String::from("A"));
    assert_eq!(info.check_github_ci(&graph, &rendered, &on_disk), Ok(()));
}

#[test]
fn check_missing_file_like_empty() {
    let graph = sample_graph(Vec::new(), true, Vec::new());
    let info = GithubCiInfo::new(&graph);
    let rendered = String::from("some text");
    let against_missing = info.check_github_ci(&graph, &rendered, &None);
    let against_empty = info.check_github_ci(&graph, &rendered, &Some(String::new()));
    assert_eq!(against_missing, against_empty);
    assert!(against_missing.is_err());

    let empty = String::new();
    assert_eq!(info.check_github_ci(&graph, &empty, &None), Ok(()));
    assert_eq!(
        info.check_github_ci(&graph, &empty, &Some(String::new())),
        Ok(())
    );
}

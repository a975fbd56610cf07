//! The fixed catalogue of GitHub runners, the target classifier, and the
//! installer selector.
//!
//! A build target is a platform triple string; it is mapped onto one of
//! exactly three runner images by looking for an OS-family keyword anywhere
//! in the triple. Unmatched targets are reported as such (`None`); the
//! fallback policy lives with the distributor, not here.

use vstd::prelude::*;

use crate::substr::contains_substr;
use crate::substr::str_contains;
use crate::substr::str_eq;

verus! {

/// The GitHub runner image used for Linux builds, and as the fallback for
/// targets that match no OS-family keyword.
pub const GITHUB_LINUX_RUNNER: &'static str = "ubuntu-20.04";

/// The GitHub runner image used for macOS builds.
pub const GITHUB_MACOS_RUNNER: &'static str = "macos-11";

/// The GitHub runner image used for Windows builds.
pub const GITHUB_WINDOWS_RUNNER: &'static str = "windows-2019";

/// The name of the Linux runner image.
pub open spec fn linux_runner() -> Seq<char> {
    "ubuntu-20.04"@
}

/// The name of the macOS runner image.
pub open spec fn macos_runner() -> Seq<char> {
    "macos-11"@
}

/// The name of the Windows runner image.
pub open spec fn windows_runner() -> Seq<char> {
    "windows-2019"@
}

/// A runner name drawn from the closed catalogue.
pub open spec fn is_catalogue_runner(r: Seq<char>) -> bool {
    r == linux_runner() || r == macos_runner() || r == windows_runner()
}

/// The three runner names are pairwise distinct.
pub proof fn runner_names_distinct()
    ensures
        linux_runner() != macos_runner(),
        linux_runner() != windows_runner(),
        macos_runner() != windows_runner(),
{
    reveal_strlit("ubuntu-20.04");
    reveal_strlit("macos-11");
    reveal_strlit("windows-2019");
    assert(linux_runner().len() == 12);
    assert(macos_runner().len() == 8);
    assert(windows_runner().len() == 12);
    assert(linux_runner()[0] == 'u');
    assert(windows_runner()[0] == 'w');
}

/// Which runner a target is classified onto: the first OS-family keyword
/// found in the triple decides, in the fixed priority order
/// linux, then apple, then windows; a triple containing none of the
/// keywords is unclassified.
pub open spec fn classified_runner(t: Seq<char>) -> Option<Seq<char>> {
    if contains_substr(t, "linux"@) {
        Some(linux_runner())
    } else if contains_substr(t, "apple"@) {
        Some(macos_runner())
    } else if contains_substr(t, "windows"@) {
        Some(windows_runner())
    } else {
        None
    }
}

/// Get the appropriate GitHub runner for building a target, by substring
/// match on the OS-family keywords; `None` when no keyword occurs.
pub fn github_runner_for_target(target: &str) -> (r: Option<&'static str>)
    ensures
        match r {
            Some(name) => classified_runner(target@) == Some(name@),
            None => classified_runner(target@) is None,
        },
{
    if str_contains(target, "linux") {
        Some(GITHUB_LINUX_RUNNER)
    } else if str_contains(target, "apple") {
        Some(GITHUB_MACOS_RUNNER)
    } else if str_contains(target, "windows") {
        Some(GITHUB_WINDOWS_RUNNER)
    } else {
        None
    }
}

/// Which installer expression a runner uses: the Linux and macOS runners
/// bootstrap through the shell-script expression, the Windows runner through
/// the PowerShell one.
pub open spec fn installer_for(r: Seq<char>, sh: Seq<char>, ps: Seq<char>) -> Seq<char> {
    if r == linux_runner() || r == macos_runner() {
        sh
    } else {
        ps
    }
}

/// Select the installer approach for a given GitHub runner.
///
/// The catalogue is closed, so a runner name outside it is a programming
/// error; callers must only pass catalogue runners.
pub fn install_dist_for_github_runner<'a>(
    runner: &str,
    install_sh: &'a str,
    install_ps1: &'a str,
) -> (r: &'a str)
    requires
        is_catalogue_runner(runner@),
    ensures
        r@ == installer_for(runner@, install_sh@, install_ps1@),
{
    if str_eq(runner, GITHUB_LINUX_RUNNER) || str_eq(runner, GITHUB_MACOS_RUNNER) {
        install_sh
    } else if str_eq(runner, GITHUB_WINDOWS_RUNNER) {
        install_ps1
    } else {
        proof {
            assert(false);
        }
        install_ps1
    }
}

} // verus!

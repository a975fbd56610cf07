//! The generate/check protocol around the rendered pipeline file.
//!
//! Rendering itself is an external collaborator: a deterministic template
//! engine turns a `GithubCiInfo` into workflow text, and the caller hands
//! that text (and the current on-disk content, when any) to the operations
//! here. What this module decides — where the file lives, and whether the
//! on-disk copy has drifted from a fresh rendering — is verified.

use vstd::prelude::*;

use crate::info::DistGraph;
use crate::info::GithubCiInfo;
use crate::info::opt_str_view;
use crate::substr::str_eq;
use vstd::string::StrSliceExecFns;
use vstd::string::StringExecFns;

verus! {

/// The workflow directory under the workspace root.
pub const GITHUB_CI_DIR: &'static str = ".github/workflows/";

/// The pipeline file's name.
pub const GITHUB_CI_FILE: &'static str = "release.yml";

/// An error of the check operation.
#[derive(Debug, Clone, PartialEq, Eq)]
pub enum DistError {
    /// The on-disk pipeline file does not match what regeneration would
    /// produce; carries the offending path.
    CheckFileMismatch {
        /// The path of the drifted file.
        file: String,
    },
}

/// The fixed path of the pipeline file under a workspace root: a separator
/// is added only when the root does not already end in one, and an empty
/// root yields the bare relative path.
pub open spec fn ci_path_spec(ws: Seq<char>) -> Seq<char> {
    if ws.len() == 0 || ws[ws.len() - 1] == '/' {
        ws + ".github/workflows/"@ + "release.yml"@
    } else {
        ws + "/"@ + ".github/workflows/"@ + "release.yml"@
    }
}

/// What the on-disk file is taken to hold: its content, or empty text when
/// the file is missing.
pub open spec fn on_disk_content(existing: Option<Seq<char>>) -> Seq<char> {
    match existing {
        Some(s) => s,
        None => Seq::empty(),
    }
}

/// Whether a check passes: the rendered text matches what the disk is taken
/// to hold, or drift is tolerated.
pub open spec fn check_passes(
    allow_dirty: bool,
    rendered: Seq<char>,
    existing: Option<Seq<char>>,
) -> bool {
    rendered == on_disk_content(existing) || allow_dirty
}

/// Writing then immediately checking succeeds: once the on-disk content
/// equals the freshly rendered text, the check passes for any pipeline
/// description and either tolerance setting.
pub proof fn lemma_check_after_write(allow_dirty: bool, rendered: Seq<char>)
    ensures
        check_passes(allow_dirty, rendered, Some(rendered)),
{
}

/// A missing file checks exactly like an existing empty file.
pub proof fn lemma_check_missing_like_empty(allow_dirty: bool, rendered: Seq<char>)
    ensures
        check_passes(allow_dirty, rendered, None) == check_passes(
            allow_dirty,
            rendered,
            Some(Seq::empty()),
        ),
{
}

impl GithubCiInfo {
    /// The path the pipeline file lives at: a fixed location under the
    /// graph's workspace root.
    pub fn github_ci_path(&self, dist: &DistGraph) -> (r: String)
        ensures
            r@ == ci_path_spec(dist.workspace_dir@),
    {
        let mut p = dist.workspace_dir.clone();
        let n = p.as_str().unicode_len();
        if n > 0 && p.as_str().get_char(n - 1) != '/' {
            p.append("/");
            proof {
                reveal_strlit("/");
                assert(dist.workspace_dir@[n - 1] != '/');
            }
        }
        p.append(GITHUB_CI_DIR);
        p.append(GITHUB_CI_FILE);
        p
    }

    /// Check whether freshly rendered pipeline text differs from the
    /// on-disk content (a missing file counting as empty), without writing
    /// anything.
    ///
    /// Drift fails the check only when drift-tolerance is off, and the
    /// drift error is the one error this operation can produce; it names
    /// the pipeline file's path.
    pub fn check_github_ci(
        &self,
        dist: &DistGraph,
        rendered: &String,
        existing: &Option<String>,
    ) -> (r: Result<(), DistError>)
        ensures
            r is Ok <==> check_passes(self.allow_dirty, rendered@, opt_str_view(*existing)),
            r matches Err(DistError::CheckFileMismatch { file }) ==> file@ == ci_path_spec(
                dist.workspace_dir@,
            ),
    {
        let same = match existing {
            Some(s) => str_eq(rendered.as_str(), s.as_str()),
            None => rendered.as_str().unicode_len() == 0,
        };
        proof {
            if rendered@.len() == 0 {
                assert(rendered@ =~= Seq::<char>::empty());
            }
        }
        if !same && !self.allow_dirty {
            Err(DistError::CheckFileMismatch { file: self.github_ci_path(dist) })
        } else {
            Ok(())
        }
    }
}

} // verus!

//! The workspace context sent along with each agent request: what the host
//! editor knows (focused file, panes, diagnostics) overlaid on what the
//! agent gathers itself (shell directory, git branch, Comux panes).

use vstd::prelude::*;
use std::path::PathBuf;
use crate::text::{chars_of, slice_of, split, split_vec, starts_with, starts_with_exec, string_of, trim, trim_vec};

verus! {

/// A pane reported by the Comux daemon.
#[derive(Debug, Clone, Default, PartialEq, Eq)]
pub struct ComuxPane {
    pub id: String,
    pub cwd: String,
    pub title: String,
    pub active: bool,
}

#[derive(Debug, Clone)]
pub struct PaneInfo {
    pub id: String,
    pub title: String,
    pub cwd: PathBuf,
    pub active: bool,
}

#[derive(Debug, Clone, Copy, PartialEq, Eq, Structural)]
pub enum DiagnosticSeverity {
    Error,
    Warning,
    Info,
    Hint,
}

#[derive(Debug, Clone)]
pub struct DiagnosticEntry {
    pub file: PathBuf,
    pub line: u32,
    pub severity: DiagnosticSeverity,
    pub message: String,
}

#[derive(Debug, Clone, Default)]
pub struct Substrate {
    /// The file focused in the editor, if any.
    pub active_file: Option<PathBuf>,
    /// Panes open in the host.
    pub open_panes: Vec<PaneInfo>,
    /// Working directory of the shell that owns the focused pane.
    pub shell_cwd: PathBuf,
    /// Git branch of `shell_cwd`.
    pub git_branch: Option<String>,
    /// Recent diagnostics from the language servers.
    pub recent_errors: Vec<DiagnosticEntry>,
    /// Panes of the Comux daemon; empty when it is not running.
    pub comux_panes: Vec<ComuxPane>,
}

/// The part of a [`Substrate`] that only the host knows: editor focus, open
/// panes and recent diagnostics.
#[derive(Debug, Clone, Default)]
pub struct HostSubstrate {
    pub active_file: Option<PathBuf>,
    pub open_panes: Vec<PaneInfo>,
    pub recent_errors: Vec<DiagnosticEntry>,
}

impl Substrate {
    /// Overwrites the host-owned fields with those of `host`; the fields the
    /// agent fills itself (`shell_cwd`, `git_branch`, `comux_panes`) stay.
    pub fn apply_host(&mut self, host: HostSubstrate)
        ensures
            *final(self) == (Substrate {
                active_file: host.active_file,
                open_panes: host.open_panes,
                recent_errors: host.recent_errors,
                ..*old(self)
            }),
    {
        self.active_file = host.active_file;
        self.open_panes = host.open_panes;
        self.recent_errors = host.recent_errors;
    }
}

/// Gathers the agent's own part of a [`Substrate`].
pub struct SubstrateCollector {}

impl SubstrateCollector {
    pub fn new() -> (r: Self) {
        SubstrateCollector {}
    }
}

impl Default for SubstrateCollector {
    fn default() -> (r: Self) {
        SubstrateCollector::new()
    }
}

// ============================================================================
// Git metadata
// ============================================================================

pub open spec fn head_ref_prefix() -> Seq<char> {
    "ref: refs/heads/"@
}

/// The branch named by the contents of a `HEAD` file: the text after
/// `ref: refs/heads/`, none for a detached head.
pub open spec fn branch_of_head(content: Seq<char>) -> Option<Seq<char>> {
    let t = trim(content);
    if starts_with(t, head_ref_prefix()) {
        Some(t.skip(head_ref_prefix().len() as int))
    } else {
        None
    }
}

/// The branch named by the contents of a `HEAD` file.
pub fn branch_from_head(content: &str) -> (r: Option<String>)
    ensures
        match r {
            Some(b) => branch_of_head(content@) == Some(b@),
            None => branch_of_head(content@) is None,
        },
{
    let t = trim_vec(&chars_of(content));
    let p = chars_of("ref: refs/heads/");
    if starts_with_exec(&t, &p) {
        let b = slice_of(&t, p.len(), t.len());
        assert(b@ =~= t@.skip(p@.len() as int));
        Some(string_of(&b))
    } else {
        None
    }
}

pub open spec fn gitdir_prefix() -> Seq<char> {
    "gitdir:"@
}

/// The first line at or after `i` that starts with `gitdir:`, the rest of
/// it trimmed.
pub open spec fn gitdir_from(lines: Seq<Seq<char>>, i: int) -> Option<Seq<char>>
    decreases lines.len() - i,
{
    if i < 0 || i >= lines.len() {
        None
    } else if starts_with(lines[i], gitdir_prefix()) {
        Some(trim(lines[i].skip(gitdir_prefix().len() as int)))
    } else {
        gitdir_from(lines, i + 1)
    }
}

/// The repository directory named by a `.git` file (worktrees and
/// submodules): the first `gitdir:` line.
pub open spec fn gitdir_of(content: Seq<char>) -> Option<Seq<char>> {
    gitdir_from(split(content, '\n'), 0)
}

/// The repository directory named by the contents of a `.git` file.
pub fn gitdir_from_file(content: &str) -> (r: Option<String>)
    ensures
        match r {
            Some(d) => gitdir_of(content@) == Some(d@),
            None => gitdir_of(content@) is None,
        },
{
    let lines = split_vec(&chars_of(content), '\n');
    let ghost ls = lines@.map_values(|v: Vec<char>| v@);
    let p = chars_of("gitdir:");
    let mut i: usize = 0;
    while i < lines.len()
        invariant
            i <= lines.len(),
            ls == lines@.map_values(|v: Vec<char>| v@),
            ls == split(content@, '\n'),
            p@ == gitdir_prefix(),
            gitdir_from(ls, 0) == gitdir_from(ls, i as int),
        decreases lines.len() - i,
    {
        assert(ls[i as int] == lines@[i as int]@);
        if starts_with_exec(&lines[i], &p) {
            let rest = slice_of(&lines[i], p.len(), lines[i].len());
            assert(rest@ =~= ls[i as int].skip(p@.len() as int));
            let d = trim_vec(&rest);
            return Some(string_of(&d));
        }
        i += 1;
    }
    None
}

} // verus!

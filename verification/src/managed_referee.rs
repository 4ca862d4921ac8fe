//! The decisions of the managed CodinGame referee: which action may start,
//! what Git reports of the checkout, whether the installed referee is the
//! selected one, and whether an update is available. Git, Maven and the
//! file system are driven by the application.
use vstd::prelude::*;
use crate::config::ManagedCodingameRefereeConfig;
use crate::paths::join_path;
use crate::text::{chars_of, lines_of, parse_unsigned_vec, sort_texts, split_whitespace_vec, str_equal, string_views, texts_sorted};

verus! {

/// An action on the managed referee.
#[derive(Clone, Copy, Debug, PartialEq, Eq, Structural)]
pub enum RefereeAction {
    Install,
    Check,
    Rebuild,
    Update,
}

/// The action under way, its phase, and the outcome of the last one.
#[derive(Clone, Debug)]
pub struct OperationStatus {
    pub action: Option<RefereeAction>,
    pub phase: Option<String>,
    pub diagnostic: Option<String>,
}

impl Default for OperationStatus {
    fn default() -> (r: OperationStatus)
        ensures
            r.action is None && r.phase is None && r.diagnostic is None,
    {
        OperationStatus { action: None, phase: None, diagnostic: None }
    }
}

impl OperationStatus {
    /// Starts `action` unless one is under way; the refusal names the
    /// action under way.
    pub fn reserve(&mut self, action: RefereeAction) -> (r: Result<(), RefereeAction>)
        ensures
            match old(self).action {
                Some(active) => r == Err::<(), RefereeAction>(active) && final(self).action == old(self).action
                    && final(self).phase == old(self).phase && final(self).diagnostic == old(self).diagnostic,
                None => r is Ok && final(self).action == Some(action)
                    && (final(self).phase matches Some(p) && p@ == "queued"@) && final(self).diagnostic is None,
            },
    {
        match self.action {
            Some(active) => Err(active),
            None => {
                self.action = Some(action);
                self.phase = Some("queued".to_owned());
                self.diagnostic = None;
                Ok(())
            },
        }
    }

    /// The action under way enters `phase`.
    pub fn enter_phase(&mut self, phase: String)
        ensures
            final(self).action == old(self).action,
            final(self).phase matches Some(p) && p@ == phase@,
            final(self).diagnostic == old(self).diagnostic,
    {
        self.phase = Some(phase);
    }

    /// The action under way ended with `diagnostic`.
    pub fn finish(&mut self, diagnostic: String)
        ensures
            final(self).action is None,
            final(self).phase is None,
            final(self).diagnostic matches Some(d) && d@ == diagnostic@,
    {
        self.action = None;
        self.phase = None;
        self.diagnostic = Some(diagnostic);
    }
}

/// Whether an update of the installed referee is known to be available.
#[derive(Clone, Copy, Debug, PartialEq, Eq, Structural)]
pub enum UpdateStatus {
    UpToDate,
    UpdateAvailable,
    Unavailable,
}

/// What the arena records of the installed referee. Times are seconds
/// since the Unix epoch, UTC.
#[derive(Clone, Debug)]
pub struct ManagedMetadata {
    pub repository_url: String,
    pub branch: String,
    pub upstream_commit: String,
    pub adaptation_commit: String,
    pub last_successful_check: Option<i64>,
    pub observed_remote_commit: Option<String>,
    pub observed_ahead: Option<u32>,
    pub observed_behind: Option<u32>,
}

/// The installed referee comes from the selected repository and branch
/// (any branch, when none is selected).
pub open spec fn selection_matches(metadata: ManagedMetadata, selected: ManagedCodingameRefereeConfig) -> bool {
    &&& metadata.repository_url@ == selected.repository_url@
    &&& match selected.branch {
        None => true,
        Some(b) => b@ == metadata.branch@,
    }
}

pub fn is_selected(metadata: &ManagedMetadata, selected: &ManagedCodingameRefereeConfig) -> (r: bool)
    ensures
        r == selection_matches(*metadata, *selected),
{
    if !str_equal(metadata.repository_url.as_str(), selected.repository_url.as_str()) {
        return false;
    }
    match &selected.branch {
        None => true,
        Some(b) => str_equal(b.as_str(), metadata.branch.as_str()),
    }
}

/// The selected referee must replace the installed one: both are known and
/// differ in repository or branch.
pub fn replacement_required(selected: Option<&ManagedCodingameRefereeConfig>, metadata: Option<&ManagedMetadata>) -> (r: bool)
    ensures
        r == (selected is Some && metadata is Some && !selection_matches(*metadata->0, *selected->0)),
{
    match (selected, metadata) {
        (Some(s), Some(m)) => !is_selected(m, s),
        _ => false,
    }
}

/// The selected referee is installed: its metadata matches and its JAR is a
/// file.
pub fn selected_is_installed(metadata: Option<&ManagedMetadata>, selected: &ManagedCodingameRefereeConfig, artifact_is_file: bool) -> (r: bool)
    ensures
        r == (metadata matches Some(m) && selection_matches(*m, *selected) && artifact_is_file),
{
    match metadata {
        None => false,
        Some(m) => is_selected(m, selected) && artifact_is_file,
    }
}

/// Whether an update is available, from the last check: none is known
/// without metadata or without an observed remote commit; the observed
/// commit being the installed one, or no commit behind, means up to date.
pub open spec fn update_status_of(metadata: Option<ManagedMetadata>) -> UpdateStatus {
    match metadata {
        None => UpdateStatus::Unavailable,
        Some(m) => match m.observed_remote_commit {
            None => UpdateStatus::Unavailable,
            Some(observed) => if observed@ == m.upstream_commit@ {
                UpdateStatus::UpToDate
            } else if m.observed_behind matches Some(behind) && behind > 0 {
                UpdateStatus::UpdateAvailable
            } else {
                UpdateStatus::UpToDate
            },
        },
    }
}

pub fn update_status(metadata: Option<&ManagedMetadata>) -> (r: UpdateStatus)
    ensures
        r == update_status_of(match metadata { Some(m) => Some(*m), None => None }),
{
    match metadata {
        None => UpdateStatus::Unavailable,
        Some(m) => match &m.observed_remote_commit {
            None => UpdateStatus::Unavailable,
            Some(observed) => if str_equal(observed.as_str(), m.upstream_commit.as_str()) {
                UpdateStatus::UpToDate
            } else {
                match m.observed_behind {
                    Some(behind) => if behind > 0 {
                        UpdateStatus::UpdateAvailable
                    } else {
                        UpdateStatus::UpToDate
                    },
                    None => UpdateStatus::UpToDate,
                }
            },
        },
    }
}

/// Why an update is refused.
#[derive(Clone, Copy, Debug, PartialEq, Eq, Structural)]
pub enum UpdateRefusal {
    /// No check for updates has succeeded yet.
    NotChecked,
    /// The last check found the installed commit.
    AlreadyUpToDate,
    /// The selected repository or branch is not the installed one.
    SelectionDiffers,
}

/// The commit an update moves to: the one the last check observed.
pub fn update_target(metadata: &ManagedMetadata, selected: &ManagedCodingameRefereeConfig) -> (r: Result<String, UpdateRefusal>)
    ensures
        match metadata.observed_remote_commit {
            None => r == Err::<String, UpdateRefusal>(UpdateRefusal::NotChecked),
            Some(observed) => if observed@ == metadata.upstream_commit@ {
                r == Err::<String, UpdateRefusal>(UpdateRefusal::AlreadyUpToDate)
            } else if !selection_matches(*metadata, *selected) {
                r == Err::<String, UpdateRefusal>(UpdateRefusal::SelectionDiffers)
            } else {
                r matches Ok(target) && target@ == observed@
            },
        },
{
    match &metadata.observed_remote_commit {
        None => Err(UpdateRefusal::NotChecked),
        Some(observed) => {
            if str_equal(observed.as_str(), metadata.upstream_commit.as_str()) {
                Err(UpdateRefusal::AlreadyUpToDate)
            } else if !is_selected(metadata, selected) {
                Err(UpdateRefusal::SelectionDiffers)
            } else {
                Ok(observed.clone())
            }
        },
    }
}

/// What Git reports of the checkout: commits ahead of and behind the
/// installed upstream commit, and changes staged, unstaged or untracked.
#[derive(Clone, Copy, Debug, PartialEq, Eq, Structural)]
pub struct LocalStatus {
    pub ahead: Option<u32>,
    pub behind: Option<u32>,
    pub staged: bool,
    pub unstaged: bool,
    pub untracked: bool,
}

impl Default for LocalStatus {
    fn default() -> (r: LocalStatus)
        ensures
            r.ahead is None && r.behind is None && !r.staged && !r.unstaged && !r.untracked,
    {
        LocalStatus { ahead: None, behind: None, staged: false, unstaged: false, untracked: false }
    }
}

impl LocalStatus {
    /// The working tree has staged, unstaged or untracked changes.
    pub fn has_worktree_changes(&self) -> (r: bool)
        ensures
            r == (self.staged || self.unstaged || self.untracked),
    {
        self.staged || self.unstaged || self.untracked
    }

    /// The user changed the checkout: a commit beyond the arena's own
    /// adaptation commit, a commit of upstream missing, or working-tree
    /// changes.
    pub fn has_user_changes(&self) -> (r: bool)
        ensures
            r == ((self.ahead matches Some(a) && a > 1) || (self.behind matches Some(b) && b > 0)
                || self.staged || self.unstaged || self.untracked),
    {
        let ahead: u32 = match self.ahead {
            Some(a) => a,
            None => 0,
        };
        let behind: u32 = match self.behind {
            Some(b) => b,
            None => 0,
        };
        ahead > 1 || behind > 0 || self.has_worktree_changes()
    }
}

/// A line of `git status --porcelain=v1` for an untracked file.
pub open spec fn untracked_line(line: Seq<char>) -> bool {
    line.len() >= 2 && line[0] == '?' && line[1] == '?'
}

/// A line of `git status --porcelain=v1` whose first status byte (the
/// index) is not a space.
pub open spec fn staged_line(line: Seq<char>) -> bool {
    !untracked_line(line) && vstd::utf8::encode_utf8(line).len() >= 2 && vstd::utf8::encode_utf8(line)[0] != 32
}

/// A line whose second status byte (the working tree) is not a space.
pub open spec fn unstaged_line(line: Seq<char>) -> bool {
    !untracked_line(line) && vstd::utf8::encode_utf8(line).len() >= 2 && vstd::utf8::encode_utf8(line)[1] != 32
}

/// The changes `git status --porcelain=v1` reports (staged, unstaged,
/// untracked), and the divergence `(ahead, behind)` where it is known.
pub fn local_status_from(porcelain: &str, divergence: Option<(u32, u32)>) -> (r: LocalStatus)
    ensures
        r.untracked == exists|i: int| 0 <= i < crate::text::text_lines(porcelain@).len()
            && #[trigger] untracked_line(crate::text::text_lines(porcelain@)[i]),
        r.staged == exists|i: int| 0 <= i < crate::text::text_lines(porcelain@).len()
            && #[trigger] staged_line(crate::text::text_lines(porcelain@)[i]),
        r.unstaged == exists|i: int| 0 <= i < crate::text::text_lines(porcelain@).len()
            && #[trigger] unstaged_line(crate::text::text_lines(porcelain@)[i]),
        r.ahead == (match divergence { Some(d) => Some(d.0), None => None::<u32> }),
        r.behind == (match divergence { Some(d) => Some(d.1), None => None::<u32> }),
{
    let lines = lines_of(porcelain);
    let ghost ls = crate::text::text_lines(porcelain@);
    let mut status = LocalStatus::default();
    let mut i: usize = 0;
    while i < lines.len()
        invariant
            0 <= i <= lines@.len(),
            crate::text::line_texts(lines@) == ls,
            status.ahead is None && status.behind is None,
            status.untracked == exists|k: int| 0 <= k < i && #[trigger] untracked_line(ls[k]),
            status.staged == exists|k: int| 0 <= k < i && #[trigger] staged_line(ls[k]),
            status.unstaged == exists|k: int| 0 <= k < i && #[trigger] unstaged_line(ls[k]),
        decreases lines.len() - i,
    {
        let line = lines[i].as_str();
        let chars = chars_of(line);
        let bytes = line.as_bytes();
        proof {
            assert(ls[i as int] == line@);
        }
        if chars.len() >= 2 && chars[0] == '?' && chars[1] == '?' {
            status.untracked = true;
            proof {
                assert(untracked_line(ls[i as int]));
                assert(!staged_line(ls[i as int]) && !unstaged_line(ls[i as int]));
            }
        } else {
            if bytes.len() >= 2 {
                if bytes[0] != 32u8 {
                    status.staged = true;
                }
                if bytes[1] != 32u8 {
                    status.unstaged = true;
                }
            }
            proof {
                assert(!untracked_line(ls[i as int]));
                assert(staged_line(ls[i as int]) == (bytes@.len() >= 2 && bytes@[0] != 32));
                assert(unstaged_line(ls[i as int]) == (bytes@.len() >= 2 && bytes@[1] != 32));
            }
        }
        i += 1;
    }
    match divergence {
        Some((ahead, behind)) => {
            status.ahead = Some(ahead);
            status.behind = Some(behind);
        },
        None => {},
    }
    status
}

/// Why `git rev-list --left-right --count` output cannot be read.
#[derive(Clone, Copy, Debug, PartialEq, Eq, Structural)]
pub enum DivergenceError {
    MissingLeft,
    MissingRight,
    /// A count is not a `u32`.
    InvalidCount,
}

/// The two counts of `git rev-list --left-right --count A...B`: commits
/// only in A, then only in B; given back as (only in B, only in A).
pub open spec fn divergence_of(output: Seq<char>) -> Result<(u32, u32), DivergenceError> {
    let words = crate::text::words_of(output);
    if words.len() < 1 {
        Err(DivergenceError::MissingLeft)
    } else {
        match crate::text::parse_unsigned(words[0], u32::MAX as nat) {
            None => Err(DivergenceError::InvalidCount),
            Some(left) => if words.len() < 2 {
                Err(DivergenceError::MissingRight)
            } else {
                match crate::text::parse_unsigned(words[1], u32::MAX as nat) {
                    None => Err(DivergenceError::InvalidCount),
                    Some(right) => Ok((right as u32, left as u32)),
                }
            },
        }
    }
}

pub fn parse_divergence(output: &str) -> (r: Result<(u32, u32), DivergenceError>)
    ensures
        r == divergence_of(output@),
{
    let words = split_whitespace_vec(output);
    let ghost ws = crate::text::words_of(output@);
    proof {
        assert(words@.len() == ws.len());
    }
    if words.len() < 1 {
        return Err(DivergenceError::MissingLeft);
    }
    proof {
        assert(words@[0]@ == ws[0]);
    }
    let left = match parse_unsigned_vec(&words[0], 0xffff_ffffu64) {
        None => return Err(DivergenceError::InvalidCount),
        Some(v) => v as u32,
    };
    if words.len() < 2 {
        return Err(DivergenceError::MissingRight);
    }
    proof {
        assert(words@[1]@ == ws[1]);
    }
    let right = match parse_unsigned_vec(&words[1], 0xffff_ffffu64) {
        None => return Err(DivergenceError::InvalidCount),
        Some(v) => v as u32,
    };
    Ok((right, left))
}

/// Where the managed referee lives in an arena.
pub struct ManagedReferee {
    arena_path: String,
}

impl ManagedReferee {
    pub closed spec fn arena(&self) -> Seq<char> {
        self.arena_path@
    }

    pub fn new(arena_path: String) -> (r: ManagedReferee)
        ensures
            r.arena() == arena_path@,
    {
        ManagedReferee { arena_path }
    }

    /// The Git checkout the user may edit.
    pub fn checkout_path(&self) -> (r: String)
        ensures
            r@ == crate::paths::path_joined(self.arena(), "referee"@),
    {
        join_path(self.arena_path.as_str(), "referee")
    }

    /// The arena's own files about the referee.
    pub fn internal_path(&self) -> (r: String)
        ensures
            r@ == crate::paths::path_joined(self.arena(), ".cgarena/referee"@),
    {
        join_path(self.arena_path.as_str(), ".cgarena/referee")
    }

    /// The built referee in use.
    pub fn artifact_path(&self) -> (r: String)
        ensures
            r@ == crate::paths::path_joined(crate::paths::path_joined(self.arena(), ".cgarena/referee"@), "referee.jar"@),
    {
        let internal = self.internal_path();
        join_path(internal.as_str(), "referee.jar")
    }

    /// The record of the installed referee.
    pub fn metadata_path(&self) -> (r: String)
        ensures
            r@ == crate::paths::path_joined(crate::paths::path_joined(self.arena(), ".cgarena/referee"@), "metadata.json"@),
    {
        let internal = self.internal_path();
        join_path(internal.as_str(), "metadata.json")
    }

    /// What the arena reports of its managed referee, from what was found
    /// on disk: the selection, the action under way, the record of the
    /// installed referee, whether the checkout is a directory and the JAR a
    /// file, and the checkout's local state where reading it succeeded. The
    /// local state counts only while no action is under way and the
    /// checkout is a directory; it is empty otherwise.
    pub fn status(
        &self,
        selected: Option<ManagedCodingameRefereeConfig>,
        operation: OperationStatus,
        metadata: Option<ManagedMetadata>,
        checkout_is_dir: bool,
        artifact_is_file: bool,
        local: Option<LocalStatus>,
    ) -> (r: RefereeStatus)
        ensures
            r.selected == selected,
            r.installed == (metadata is Some && checkout_is_dir && artifact_is_file),
            r.replacement_required == (selected is Some && metadata is Some && !selection_matches(
                metadata->0,
                selected->0,
            )),
            r.checkout_path@ == crate::paths::path_joined(self.arena(), "referee"@),
            r.artifact_path@ == crate::paths::path_joined(
                crate::paths::path_joined(self.arena(), ".cgarena/referee"@),
                "referee.jar"@,
            ),
            r.installed_repository_url == (match metadata { Some(m) => Some(m.repository_url), None => None }),
            r.branch == (match metadata { Some(m) => Some(m.branch), None => None }),
            r.upstream_commit == (match metadata { Some(m) => Some(m.upstream_commit), None => None }),
            r.adaptation_commit == (match metadata { Some(m) => Some(m.adaptation_commit), None => None }),
            ({
                let l = match local {
                    Some(l) => if operation.action is None && checkout_is_dir { l } else { empty_local_status() },
                    None => empty_local_status(),
                };
                &&& r.committed_ahead == l.ahead
                &&& r.committed_behind == l.behind
                &&& r.staged == l.staged
                &&& r.unstaged == l.unstaged
                &&& r.untracked == l.untracked
            }),
            r.update_status == update_status_of(metadata),
            r.last_successful_check == (match metadata { Some(m) => m.last_successful_check, None => None }),
            r.observed_remote_commit == (match metadata { Some(m) => m.observed_remote_commit, None => None }),
            r.operation == operation,
    {
        let installed = metadata.is_some() && checkout_is_dir && artifact_is_file;
        let replacement = replacement_required(selected.as_ref(), metadata.as_ref());
        let local_state = match local {
            Some(l) => if operation.action.is_none() && checkout_is_dir {
                l
            } else {
                LocalStatus::default()
            },
            None => LocalStatus::default(),
        };
        let updates = update_status(metadata.as_ref());
        let (installed_repository_url, branch, upstream_commit, adaptation_commit, last_successful_check, observed_remote_commit) =
            match metadata {
            Some(m) => (
                Some(m.repository_url),
                Some(m.branch),
                Some(m.upstream_commit),
                Some(m.adaptation_commit),
                m.last_successful_check,
                m.observed_remote_commit,
            ),
            None => (None, None, None, None, None, None),
        };
        RefereeStatus {
            selected,
            installed,
            replacement_required: replacement,
            checkout_path: self.checkout_path(),
            artifact_path: self.artifact_path(),
            installed_repository_url,
            branch,
            upstream_commit,
            adaptation_commit,
            committed_ahead: local_state.ahead,
            committed_behind: local_state.behind,
            staged: local_state.staged,
            unstaged: local_state.unstaged,
            untracked: local_state.untracked,
            update_status: updates,
            last_successful_check,
            observed_remote_commit,
            operation,
        }
    }
}

/// The local state of a checkout that was not read.
pub open spec fn empty_local_status() -> LocalStatus {
    LocalStatus { ahead: None, behind: None, staged: false, unstaged: false, untracked: false }
}

/// What the arena reports of its managed referee.
#[derive(Clone, Debug)]
pub struct RefereeStatus {
    pub selected: Option<ManagedCodingameRefereeConfig>,
    pub installed: bool,
    pub replacement_required: bool,
    pub checkout_path: String,
    pub artifact_path: String,
    pub installed_repository_url: Option<String>,
    pub branch: Option<String>,
    pub upstream_commit: Option<String>,
    pub adaptation_commit: Option<String>,
    /// Commits of the checkout ahead of and behind the installed upstream
    /// commit, and its staged, unstaged and untracked changes.
    pub committed_ahead: Option<u32>,
    pub committed_behind: Option<u32>,
    pub staged: bool,
    pub unstaged: bool,
    pub untracked: bool,
    pub update_status: UpdateStatus,
    /// Seconds since the Unix epoch, UTC.
    pub last_successful_check: Option<i64>,
    pub observed_remote_commit: Option<String>,
    pub operation: OperationStatus,
}


/// `git clone` arguments for a fresh checkout of the selected referee: the
/// remote named `upstream`, only the selected branch where one is selected.
pub open spec fn clone_arguments_of(selected: ManagedCodingameRefereeConfig, checkout: Seq<char>) -> Seq<Seq<char>> {
    seq!["clone"@, "--origin"@, "upstream"@] + match selected.branch {
        Some(b) => seq!["--branch"@, b@, "--single-branch"@],
        None => Seq::empty(),
    } + seq!["--"@, selected.repository_url@, checkout]
}

fn push_word(words: &mut Vec<String>, word: String)
    ensures
        crate::referee_adapter::views(final(words)@) == crate::referee_adapter::views(old(words)@).push(word@),
{
    let ghost before = words@;
    let ghost w = word@;
    words.push(word);
    assert(crate::referee_adapter::views(words@) =~= crate::referee_adapter::views(before).push(w));
}

pub fn clone_arguments(selected: &ManagedCodingameRefereeConfig, checkout: &str) -> (r: Vec<String>)
    ensures
        crate::referee_adapter::views(r@) == clone_arguments_of(*selected, checkout@),
{
    let mut words: Vec<String> = Vec::new();
    push_word(&mut words, "clone".to_owned());
    push_word(&mut words, "--origin".to_owned());
    push_word(&mut words, "upstream".to_owned());
    match &selected.branch {
        Some(b) => {
            push_word(&mut words, "--branch".to_owned());
            push_word(&mut words, b.clone());
            push_word(&mut words, "--single-branch".to_owned());
        },
        None => {},
    }
    push_word(&mut words, "--".to_owned());
    push_word(&mut words, selected.repository_url.clone());
    push_word(&mut words, checkout.to_owned());
    proof {
        assert(crate::referee_adapter::views(words@) =~= clone_arguments_of(*selected, checkout@));
    }
    words
}

/// The summary of a check for updates.
pub open spec fn check_summary_of(ahead: u32, behind: u32, observed: Seq<char>) -> Seq<char> {
    if behind > 0 {
        "Update available: installed base is "@ + crate::text::natural_digits(ahead as nat) + " ahead and "@
            + crate::text::natural_digits(behind as nat) + " behind "@ + observed
    } else {
        "Referee is up to date at "@ + observed
    }
}

pub fn check_summary(ahead: u32, behind: u32, observed: &str) -> (r: String)
    ensures
        r@ == check_summary_of(ahead, behind, observed@),
{
    if behind > 0 {
        let ahead_text = crate::text::string_from_chars(&crate::text::natural_decimal_chars(ahead as u64));
        let behind_text = crate::text::string_from_chars(&crate::text::natural_decimal_chars(behind as u64));
        let a = crate::text::concat_str("Update available: installed base is ", ahead_text.as_str());
        let b = crate::text::concat_str(a.as_str(), " ahead and ");
        let c = crate::text::concat_str(b.as_str(), behind_text.as_str());
        let d = crate::text::concat_str(c.as_str(), " behind ");
        crate::text::concat_str(d.as_str(), observed)
    } else {
        crate::text::concat_str("Referee is up to date at ", observed)
    }
}

/// A file name whose extension (as `Path::extension` reads it) is `jar`.
pub open spec fn has_jar_extension(name: Seq<char>) -> bool {
    name.len() > 4 && name.subrange(name.len() - 4, name.len() as int) == ".jar"@
}

/// A JAR that Maven built for running: not the original of a shaded JAR,
/// nor sources or documentation.
pub open spec fn runnable_jar(name: Seq<char>) -> bool {
    &&& has_jar_extension(name)
    &&& !(name.len() >= 9 && name.take(9) == "original-"@)
    &&& !(name.len() >= 12 && name.skip(name.len() - 12) == "-sources.jar"@)
    &&& !(name.len() >= 12 && name.skip(name.len() - 12) == "-javadoc.jar"@)
}

/// The runnable JARs among the names, in their order.
pub open spec fn runnable_jars(names: Seq<Seq<char>>) -> Seq<Seq<char>>
    decreases names.len(),
{
    if names.len() == 0 {
        Seq::empty()
    } else if runnable_jar(names.last()) {
        runnable_jars(names.drop_last()).push(names.last())
    } else {
        runnable_jars(names.drop_last())
    }
}

fn ends_with_text(name: &Vec<char>, suffix: &str) -> (r: bool)
    ensures
        r == (name@.len() >= suffix@.len() && name@.skip(name@.len() - suffix@.len()) == suffix@),
{
    let s = chars_of(suffix);
    if name.len() < s.len() {
        return false;
    }
    let tail = crate::text::copy_range(name, name.len() - s.len(), name.len());
    assert(tail@ =~= name@.skip(name@.len() - suffix@.len()));
    crate::text::chars_equal(&tail, &s)
}

fn starts_with_text(name: &Vec<char>, prefix: &str) -> (r: bool)
    ensures
        r == (name@.len() >= prefix@.len() && name@.take(prefix@.len() as int) == prefix@),
{
    let p = chars_of(prefix);
    if name.len() < p.len() {
        return false;
    }
    let head = crate::text::copy_range(name, 0, p.len());
    assert(head@ =~= name@.take(prefix@.len() as int));
    crate::text::chars_equal(&head, &p)
}

pub fn is_runnable_jar(name: &str) -> (r: bool)
    ensures
        r == runnable_jar(name@),
{
    let chars = chars_of(name);
    proof {
        reveal_strlit(".jar");
        reveal_strlit("original-");
        reveal_strlit("-sources.jar");
        reveal_strlit("-javadoc.jar");
    }
    let jar = chars.len() > 4 && ends_with_text(&chars, ".jar");
    proof {
        if chars@.len() > 4 {
            assert(chars@.skip(chars@.len() - 4) =~= chars@.subrange(chars@.len() - 4, chars@.len() as int));
        }
    }
    jar && !starts_with_text(&chars, "original-") && !ends_with_text(&chars, "-sources.jar")
        && !ends_with_text(&chars, "-javadoc.jar")
}

/// The JAR a Maven build yields.
#[derive(Debug, Clone)]
pub enum BuiltJar {
    /// `target/referee.jar`, which the maintained build section makes.
    Maintained,
    /// The one runnable JAR in `target`, by file name.
    Single(String),
}

/// Why no JAR can be chosen.
#[derive(Debug, Clone)]
pub enum JarError {
    NoJar,
    /// Several runnable JARs, by file name in ascending order.
    Several(Vec<String>),
}

/// Picks the referee JAR of a Maven build: `referee.jar` where it is a
/// file, else the only runnable JAR among the files of `target`.
pub fn choose_jar(maintained_is_file: bool, names: &Vec<String>) -> (r: Result<BuiltJar, JarError>)
    ensures
        maintained_is_file ==> r matches Ok(BuiltJar::Maintained),
        !maintained_is_file ==> {
            let jars = runnable_jars(crate::referee_adapter::views(names@));
            &&& jars.len() == 0 ==> (r matches Err(JarError::NoJar))
            &&& jars.len() == 1 ==> (r matches Ok(BuiltJar::Single(n)) && n@ == jars[0])
            &&& jars.len() > 1 ==> (r matches Err(JarError::Several(all)) && string_views(all@).to_multiset()
                == jars.to_multiset() && texts_sorted(string_views(all@)))
        },
{
    if maintained_is_file {
        return Ok(BuiltJar::Maintained);
    }
    let ghost ns = crate::referee_adapter::views(names@);
    let mut jars: Vec<String> = Vec::new();
    let mut i: usize = 0;
    while i < names.len()
        invariant
            0 <= i <= names@.len(),
            ns == crate::referee_adapter::views(names@),
            crate::referee_adapter::views(jars@) == runnable_jars(ns.subrange(0, i as int)),
        decreases names.len() - i,
    {
        proof {
            assert(ns.subrange(0, i + 1).drop_last() =~= ns.subrange(0, i as int));
            assert(ns.subrange(0, i + 1).last() == names@[i as int]@);
        }
        if is_runnable_jar(names[i].as_str()) {
            push_word(&mut jars, names[i].clone());
        }
        i += 1;
    }
    proof {
        assert(ns.subrange(0, ns.len() as int) =~= ns);
    }
    if jars.len() == 0 {
        Err(JarError::NoJar)
    } else if jars.len() == 1 {
        Ok(BuiltJar::Single(jars[0].clone()))
    } else {
        assert(string_views(jars@) =~= crate::referee_adapter::views(jars@));
        Err(JarError::Several(sort_texts(jars)))
    }
}

impl RefereeAction {
    /// The action's name, as it is shown.
    pub open spec fn name(&self) -> Seq<char> {
        match self {
            RefereeAction::Install => "Install"@,
            RefereeAction::Check => "Check"@,
            RefereeAction::Rebuild => "Rebuild"@,
            RefereeAction::Update => "Update"@,
        }
    }

    /// Why another action cannot start while this one runs.
    pub open spec fn running_message(&self) -> Seq<char> {
        "referee action "@ + self.name() + " is already running"@
    }

    /// Why another action cannot start while this one runs.
    pub fn running_text(&self) -> (r: String)
        ensures
            r@ == self.running_message(),
    {
        let name = match self {
            RefereeAction::Install => "Install",
            RefereeAction::Check => "Check",
            RefereeAction::Rebuild => "Rebuild",
            RefereeAction::Update => "Update",
        };
        let head = crate::text::concat_str("referee action ", name);
        crate::text::concat_str(head.as_str(), " is already running")
    }
}

impl UpdateRefusal {
    /// The message shown for the refusal.
    pub open spec fn message(&self) -> Seq<char> {
        match self {
            UpdateRefusal::NotChecked => "check for updates successfully before updating"@,
            UpdateRefusal::AlreadyUpToDate => "the managed referee is already up to date"@,
            UpdateRefusal::SelectionDiffers => "the selected repository differs from the installed referee; use Replace referee"@,
        }
    }

    /// The message shown for the refusal.
    pub fn to_string(&self) -> (r: String)
        ensures
            r@ == self.message(),
    {
        match self {
            UpdateRefusal::NotChecked => "check for updates successfully before updating".to_string(),
            UpdateRefusal::AlreadyUpToDate => "the managed referee is already up to date".to_string(),
            UpdateRefusal::SelectionDiffers => "the selected repository differs from the installed referee; use Replace referee".to_string(),
        }
    }
}

} // verus!

//! Ownership of replay artifacts, from the path offered to a running match
//! command, through a produced file waiting for its match to be stored, to
//! a stored match's replay; and the decisions on lookup and retention.
//!
//! A provisional or pending artifact that is rejected or dropped must be
//! deleted; [`OwnedReplay::removes_on_drop`] tells whether its holder still
//! owes that deletion.
use vstd::prelude::*;
use crate::paths::{is_absolute_path, join_path, path_components, PathComponent};

verus! {

/// Why a replay path is refused.
#[derive(Debug, Clone, Copy, PartialEq, Eq, Structural)]
pub enum ReplayPathError {
    /// The path is absolute.
    NotRelative,
    /// The path leaves the replay directory, or is not below it.
    OutsideReplayDirectory,
}

/// A stored replay path is relative, starts with the replay directory, and
/// has only plain names (no `.`, `..` or root) after it.
pub open spec fn replay_path_allowed(path: Seq<char>) -> bool {
    let parts = crate::paths::path_components_of(path);
    &&& !crate::paths::path_is_absolute(path)
    &&& parts.len() > 0
    &&& parts[0] == Some("replays"@)
    &&& forall|i: int| 1 <= i < parts.len() ==> (#[trigger] parts[i]) is Some
}

/// The absolute path of the replay at `replay_path`, or why it is refused.
pub open spec fn resolved_replay(arena_path: Seq<char>, replay_path: Seq<char>) -> Result<Seq<char>, ReplayPathError> {
    if crate::paths::path_is_absolute(replay_path) {
        Err(ReplayPathError::NotRelative)
    } else if !replay_path_allowed(replay_path) {
        Err(ReplayPathError::OutsideReplayDirectory)
    } else {
        Ok(crate::paths::path_joined(arena_path, replay_path))
    }
}

/// The absolute path of a replay stored under the arena.
pub fn resolve(arena_path: &str, replay_path: &str) -> (r: Result<String, ReplayPathError>)
    ensures
        match resolved_replay(arena_path@, replay_path@) {
            Ok(p) => r matches Ok(s) && s@ == p,
            Err(e) => r == Err::<String, ReplayPathError>(e),
        },
{
    if is_absolute_path(replay_path) {
        return Err(ReplayPathError::NotRelative);
    }
    let parts = path_components(replay_path);
    let ghost views = parts@.map_values(|c: PathComponent| crate::paths::component_view(c));
    if parts.len() == 0 {
        return Err(ReplayPathError::OutsideReplayDirectory);
    }
    let first_ok = match &parts[0] {
        PathComponent::Normal(name) => crate::text::str_equal(name.as_str(), "replays"),
        PathComponent::Other => false,
    };
    assert(views[0] == crate::paths::component_view(parts@[0]));
    if !first_ok {
        return Err(ReplayPathError::OutsideReplayDirectory);
    }
    let mut i: usize = 1;
    while i < parts.len()
        invariant
            1 <= i <= parts@.len(),
            views == parts@.map_values(|c: PathComponent| crate::paths::component_view(c)),
            views == crate::paths::path_components_of(replay_path@),
            !crate::paths::path_is_absolute(replay_path@),
            views[0] == Some("replays"@),
            forall|j: int| 1 <= j < i ==> (#[trigger] views[j]) is Some,
        decreases parts.len() - i,
    {
        let normal = match &parts[i] {
            PathComponent::Normal(_) => true,
            PathComponent::Other => false,
        };
        assert(views[i as int] == crate::paths::component_view(parts@[i as int]));
        if !normal {
            return Err(ReplayPathError::OutsideReplayDirectory);
        }
        i += 1;
    }
    Ok(join_path(arena_path, replay_path))
}

/// An artifact file and whether its holder must still delete it.
#[derive(Debug, PartialEq, Eq)]
pub struct OwnedReplay {
    relative_path: String,
    absolute_path: String,
    remove_on_drop: bool,
}

impl OwnedReplay {
    pub closed spec fn relative(&self) -> Seq<char> {
        self.relative_path@
    }

    pub closed spec fn absolute(&self) -> Seq<char> {
        self.absolute_path@
    }

    pub closed spec fn owes_removal(&self) -> bool {
        self.remove_on_drop
    }

    /// Takes ownership of the artifact at `relative_path` under the arena.
    pub fn new(arena_path: &str, relative_path: String) -> (r: Result<OwnedReplay, ReplayPathError>)
        ensures
            match resolved_replay(arena_path@, relative_path@) {
                Ok(p) => r matches Ok(o) && o.relative() == relative_path@ && o.absolute() == p && o.owes_removal(),
                Err(e) => r == Err::<OwnedReplay, ReplayPathError>(e),
            },
    {
        match resolve(arena_path, relative_path.as_str()) {
            Ok(absolute_path) => Ok(OwnedReplay { relative_path, absolute_path, remove_on_drop: true }),
            Err(e) => Err(e),
        }
    }

    /// The stored match now owns the file: nobody deletes it any more.
    pub fn commit(&mut self)
        ensures
            !final(self).owes_removal(),
            final(self).relative() == old(self).relative(),
            final(self).absolute() == old(self).absolute(),
    {
        self.remove_on_drop = false;
    }

    /// Whether the holder must delete the file when it lets it go.
    pub fn removes_on_drop(&self) -> (r: bool)
        ensures
            r == self.owes_removal(),
    {
        self.remove_on_drop
    }

    /// The path relative to the arena, as the match row stores it.
    pub fn relative_path(&self) -> (r: &str)
        ensures
            r@ == self.relative(),
    {
        self.relative_path.as_str()
    }

    /// The absolute path of the file.
    pub fn absolute_path(&self) -> (r: &str)
        ensures
            r@ == self.absolute(),
    {
        self.absolute_path.as_str()
    }
}

/// The unique path offered to one running match command.
#[derive(Debug)]
pub struct ProvisionalReplay {
    artifact: Option<OwnedReplay>,
}

/// A produced, non-empty artifact waiting for its match to be stored; or
/// nothing, when the command left no usable replay.
#[derive(Debug, PartialEq, Eq)]
pub struct PendingReplay {
    artifact: Option<OwnedReplay>,
}

/// The path of a fresh artifact with the given name, in the replay
/// directory.
pub open spec fn provisional_path(file_name: Seq<char>) -> Seq<char> {
    crate::paths::path_joined("replays"@, file_name + ".json"@)
}

/// A character of a UUID's hyphenated lower-case text.
pub open spec fn uuid_char(c: char) -> bool {
    ('0' <= c && c <= '9') || ('a' <= c && c <= 'f') || c == '-'
}

/// A fresh file name: a random version-4 UUID of the `uuid` crate, in its
/// hyphenated lower-case text (36 characters, hexadecimal digits and
/// hyphens). Which UUID is left to chance.
#[verifier::external_body]
pub(crate) fn new_replay_file_name() -> (r: String)
    ensures
        r@.len() == 36,
        forall|i: int| 0 <= i < r@.len() ==> uuid_char(#[trigger] r@[i]),
{
    uuid::Uuid::new_v4().to_string()
}

/// What inspecting a provisional artifact after the command found.
#[derive(Debug, Clone)]
pub enum ArtifactInspection {
    /// A regular file with content.
    NonEmptyFile,
    /// Something other than a regular file with content.
    Unusable,
    /// No file at all.
    NotFound,
    /// The inspection failed, with this message.
    Failed(String),
}

/// What becomes of a provisional artifact once its command has run.
#[derive(Debug)]
pub enum FinishOutcome {
    /// The artifact waits for its match to be stored.
    Accepted(PendingReplay),
    /// The artifact must be deleted; the match has no replay.
    Discard(OwnedReplay),
    /// The artifact could not be inspected.
    Failed(String),
}

/// `r` is what reserving the artifact named `file_name` in the replay
/// directory of the arena at `arena_path` gives: the artifact, owed removal,
/// at the resolved path, or the reason the path is refused.
pub open spec fn reserved_as(arena_path: Seq<char>, file_name: Seq<char>, r: Result<ProvisionalReplay, ReplayPathError>) -> bool {
    match resolved_replay(arena_path, provisional_path(file_name)) {
        Ok(p) => r matches Ok(pr) && pr.owned() matches Some(o) && o.relative() == provisional_path(file_name)
            && o.absolute() == p && o.owes_removal(),
        Err(e) => r == Err::<ProvisionalReplay, ReplayPathError>(e),
    }
}

impl ProvisionalReplay {
    pub closed spec fn owned(&self) -> Option<OwnedReplay> {
        self.artifact
    }

    /// Reserves the artifact named `file_name` in the replay directory.
    pub fn reserve(arena_path: &str, file_name: &str) -> (r: Result<ProvisionalReplay, ReplayPathError>)
        ensures
            reserved_as(arena_path@, file_name@, r),
            file_name@.len() > 0 && file_name@[0] != '/' ==> provisional_path(file_name@) == "replays/"@ + file_name@ + ".json"@,
    {
        let name = crate::text::concat_str(file_name, ".json");
        proof {
            reveal_strlit("replays");
            reveal_strlit("replays/");
            reveal_strlit("/");
            if file_name@.len() > 0 {
                assert(name@[0] == file_name@[0]);
            }
        }
        let relative = join_path("replays", name.as_str());
        proof {
            if file_name@.len() > 0 && file_name@[0] != '/' {
                assert("replays"@ + "/"@ =~= "replays/"@);
                assert(relative@ =~= "replays/"@ + file_name@ + ".json"@);
            }
        }
        match OwnedReplay::new(arena_path, relative) {
            Ok(artifact) => Ok(ProvisionalReplay { artifact: Some(artifact) }),
            Err(e) => Err(e),
        }
    }

    /// A fresh artifact, named at random, in the replay directory: what
    /// reserving the artifact under a new random file name gives.
    pub fn create(arena_path: &str) -> (r: Result<ProvisionalReplay, ReplayPathError>)
        ensures
            exists|file_name: Seq<char>| #[trigger] reserved_as(arena_path@, file_name, r) && file_name.len() == 36
                && (forall|i: int| 0 <= i < file_name.len() ==> uuid_char(#[trigger] file_name[i]))
                && provisional_path(file_name) == "replays/"@ + file_name + ".json"@,
    {
        let file_name = new_replay_file_name();
        proof {
            assert(uuid_char(file_name@[0]));
        }
        ProvisionalReplay::reserve(arena_path, file_name.as_str())
    }

    /// The path, relative to the arena, that the match command writes to.
    pub fn command_path(&self) -> (r: &str)
        requires
            self.owned() is Some,
        ensures
            r@ == self.owned()->0.relative(),
    {
        match &self.artifact {
            Some(artifact) => artifact.relative_path(),
            None => "",
        }
    }

    /// Decides on the artifact after the command ran: a non-empty file
    /// waits for its match; an unusable or missing one is to be deleted and
    /// the match has none; a failed inspection is an error.
    pub fn finish(self, inspection: ArtifactInspection) -> (r: FinishOutcome)
        requires
            self.owned() is Some,
        ensures
            match inspection {
                ArtifactInspection::NonEmptyFile => r matches FinishOutcome::Accepted(p) && p.owned() == self.owned(),
                ArtifactInspection::Unusable => r matches FinishOutcome::Discard(o) && Some(o) == self.owned(),
                ArtifactInspection::NotFound => r matches FinishOutcome::Discard(o) && Some(o) == self.owned(),
                ArtifactInspection::Failed(m) => r matches FinishOutcome::Failed(n) && n@ == m@,
            },
    {
        let ProvisionalReplay { artifact } = self;
        match inspection {
            ArtifactInspection::NonEmptyFile => FinishOutcome::Accepted(PendingReplay { artifact }),
            ArtifactInspection::Unusable | ArtifactInspection::NotFound => match artifact {
                Some(owned) => FinishOutcome::Discard(owned),
                None => FinishOutcome::Accepted(PendingReplay { artifact: None }),
            },
            ArtifactInspection::Failed(message) => FinishOutcome::Failed(message),
        }
    }
}

impl PendingReplay {
    pub closed spec fn owned(&self) -> Option<OwnedReplay> {
        self.artifact
    }

    /// A match without a replay.
    pub fn none() -> (r: PendingReplay)
        ensures
            r.owned() is None,
    {
        PendingReplay { artifact: None }
    }

    /// The artifact, handed to the match that is being stored.
    pub fn into_artifact(self) -> (r: Option<OwnedReplay>)
        ensures
            r == self.owned(),
    {
        self.artifact
    }
}

impl Default for PendingReplay {
    fn default() -> (r: PendingReplay)
        ensures
            r.owned() is None,
    {
        PendingReplay { artifact: None }
    }
}

/// A stored replay that can be served.
pub struct ReadableReplay {
    path: String,
    participant_count: u8,
}

impl ReadableReplay {
    pub closed spec fn file(&self) -> Seq<char> {
        self.path@
    }

    pub closed spec fn participants(&self) -> u8 {
        self.participant_count
    }

    /// The absolute path of the artifact.
    pub fn path(&self) -> (r: &str)
        ensures
            r@ == self.file(),
    {
        self.path.as_str()
    }

    /// The number of bots of the match.
    pub fn participant_count(&self) -> (r: u8)
        ensures
            r == self.participants(),
    {
        self.participant_count
    }
}

/// Why a match's replay cannot be served.
#[derive(Debug, Clone, PartialEq, Eq)]
pub enum ReplayLookupError {
    MatchNotFound,
    /// The match was stored without a replay.
    Unavailable,
    InvalidArtifact(String),
    Internal(String),
}

/// Why a stored replay path is refused, in words.
pub open spec fn path_error_message(e: ReplayPathError) -> Seq<char> {
    match e {
        ReplayPathError::NotRelative => "replay path must be relative to the arena"@,
        ReplayPathError::OutsideReplayDirectory => "replay path must be inside the replay directory"@,
    }
}

/// Locates the replay of a stored match from its row (`None` when there is
/// no such match): its absolute path and number of bots, before the file
/// itself is examined.
pub fn locate_replay(arena_path: &str, row: Option<(Option<String>, u8)>) -> (r: Result<ReadableReplay, ReplayLookupError>)
    ensures
        match row {
            None => r == Err::<ReadableReplay, ReplayLookupError>(ReplayLookupError::MatchNotFound),
            Some((None, _)) => r == Err::<ReadableReplay, ReplayLookupError>(ReplayLookupError::Unavailable),
            Some((Some(relative), count)) => match resolved_replay(arena_path@, relative@) {
                Err(e) => r matches Err(ReplayLookupError::InvalidArtifact(m)) && m@ == path_error_message(e),
                Ok(path) => r matches Ok(found) && found.file() == path && found.participants() == count,
            },
        },
{
    match row {
        None => Err(ReplayLookupError::MatchNotFound),
        Some((None, _)) => Err(ReplayLookupError::Unavailable),
        Some((Some(relative), count)) => match resolve(arena_path, relative.as_str()) {
            Err(ReplayPathError::NotRelative) => Err(ReplayLookupError::InvalidArtifact(
                "replay path must be relative to the arena".to_owned(),
            )),
            Err(ReplayPathError::OutsideReplayDirectory) => Err(ReplayLookupError::InvalidArtifact(
                "replay path must be inside the replay directory".to_owned(),
            )),
            Ok(path) => Ok(ReadableReplay { path, participant_count: count }),
        },
    }
}

/// Accepts a located replay only when its file is a regular file with
/// content (`is_file` and `len` as the file system reports them).
pub fn accept_replay_file(found: ReadableReplay, is_file: bool, len: u64) -> (r: Result<ReadableReplay, ReplayLookupError>)
    ensures
        is_file && len > 0 ==> (r matches Ok(f) && f.file() == found.file() && f.participants() == found.participants()),
        !(is_file && len > 0) ==> (r matches Err(ReplayLookupError::InvalidArtifact(m))
            && m@ == "artifact is not a non-empty file"@),
{
    if !is_file || len == 0 {
        return Err(ReplayLookupError::InvalidArtifact("artifact is not a non-empty file".to_owned()));
    }
    Ok(found)
}

/// How many of `count` matches the retention removes: `percentage` percent
/// (at most all), rounded down.
pub open spec fn retention_amount(count: nat, percentage: u8) -> nat {
    let p: nat = if percentage > 100 { 100 } else { percentage as nat };
    count * p / 100
}

pub fn amount_to_delete(count: usize, percentage: u8) -> (r: usize)
    ensures
        r == retention_amount(count as nat, percentage),
{
    let p: u8 = if percentage > 100 { 100 } else { percentage };
    proof {
        assert((count as u128) * (p as u128) <= 0xffff_ffff_ffff_ffff * 100) by (nonlinear_arith)
            requires
                count <= 0xffff_ffff_ffff_ffff,
                p <= 100;
    }
    let wide: u128 = (count as u128) * (p as u128) / 100;
    proof {
        assert((count as u128) * (p as u128) / 100 <= count) by (nonlinear_arith)
            requires
                p <= 100;
    }
    wide as usize
}

} // verus!

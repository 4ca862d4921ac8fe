//! The decisions of the replay viewer: which session files may be served
//! and as what, what a renderer's output means, which sessions have
//! expired, and how renderer failures are reported. Processes, sessions and
//! files are handled by the application.
use vstd::prelude::*;
use crate::paths::{is_absolute_path, path_components, PathComponent};
use crate::replay_artifact::ReplayLookupError;
use crate::text::{chars_of, concat_str, string_from_chars, trim_vec};

verus! {

/// A replay session that has started: its identifier and the page that
/// shows it.
pub struct StartedReplay {
    pub session_id: String,
    pub viewer_url: String,
}

/// A file of a replay session and its media type.
pub struct ReplayAsset {
    pub bytes: Vec<u8>,
    pub content_type: String,
}

/// Why a replay cannot be shown.
#[derive(Debug, Clone, PartialEq, Eq)]
pub enum ReplayError {
    MatchNotFound,
    Unavailable,
    InvalidArtifact(String),
    InvalidCommand(String),
    StartupFailed(String),
    StartupTimeout(String),
    SessionNotFound,
    AssetNotFound,
    Internal(String),
}

impl From<ReplayLookupError> for ReplayError {
    fn from(error: ReplayLookupError) -> (r: ReplayError)
        ensures
            r == replay_error_of(error),
    {
        match error {
            ReplayLookupError::MatchNotFound => ReplayError::MatchNotFound,
            ReplayLookupError::Unavailable => ReplayError::Unavailable,
            ReplayLookupError::InvalidArtifact(message) => ReplayError::InvalidArtifact(message),
            ReplayLookupError::Internal(message) => ReplayError::Internal(message),
        }
    }
}

/// The viewer's error for a failed lookup: the same case, the same message.
pub open spec fn replay_error_of(error: ReplayLookupError) -> ReplayError {
    match error {
        ReplayLookupError::MatchNotFound => ReplayError::MatchNotFound,
        ReplayLookupError::Unavailable => ReplayError::Unavailable,
        ReplayLookupError::InvalidArtifact(message) => ReplayError::InvalidArtifact(message),
        ReplayLookupError::Internal(message) => ReplayError::Internal(message),
    }
}

impl vstd::std_specs::convert::FromSpecImpl<ReplayLookupError> for ReplayError {
    open spec fn obeys_from_spec() -> bool {
        true
    }

    open spec fn from_spec(v: ReplayLookupError) -> ReplayError {
        replay_error_of(v)
    }
}

impl ReplayError {
    /// The message shown for the error.
    pub open spec fn message(&self) -> Seq<char> {
        match self {
            ReplayError::MatchNotFound => "match not found"@,
            ReplayError::Unavailable => "this match has no replay artifact"@,
            ReplayError::InvalidArtifact(m) => "replay artifact is missing or invalid: "@ + m@,
            ReplayError::InvalidCommand(m) => "invalid replay command: "@ + m@,
            ReplayError::StartupFailed(m) => "replay renderer failed to start: "@ + m@,
            ReplayError::StartupTimeout(m) => "replay renderer startup timed out: "@ + m@,
            ReplayError::SessionNotFound => "replay session not found"@,
            ReplayError::AssetNotFound => "replay asset not found"@,
            ReplayError::Internal(m) => "replay subsystem failed: "@ + m@,
        }
    }

    pub fn to_string(&self) -> (r: String)
        ensures
            r@ == self.message(),
    {
        match self {
            ReplayError::MatchNotFound => "match not found".to_owned(),
            ReplayError::Unavailable => "this match has no replay artifact".to_owned(),
            ReplayError::InvalidArtifact(m) => concat_str("replay artifact is missing or invalid: ", m.as_str()),
            ReplayError::InvalidCommand(m) => concat_str("invalid replay command: ", m.as_str()),
            ReplayError::StartupFailed(m) => concat_str("replay renderer failed to start: ", m.as_str()),
            ReplayError::StartupTimeout(m) => concat_str("replay renderer startup timed out: ", m.as_str()),
            ReplayError::SessionNotFound => "replay session not found".to_owned(),
            ReplayError::AssetNotFound => "replay asset not found".to_owned(),
            ReplayError::Internal(m) => concat_str("replay subsystem failed: ", m.as_str()),
        }
    }
}

/// The text of bytes as `String::from_utf8_lossy` decodes them.
pub uninterp spec fn utf8_lossy(bytes: Seq<u8>) -> Seq<char>;

/// Calls `String::from_utf8_lossy`.
#[verifier::external_body]
fn lossy_text(bytes: &[u8]) -> (r: String)
    ensures
        r@ == utf8_lossy(bytes@),
{
    String::from_utf8_lossy(bytes).into_owned()
}

/// A renderer's error with its error output: appended to a failure, in
/// place of a timeout's message; unchanged when the output is blank.
pub fn with_renderer_stderr(error: ReplayError, stderr: &[u8]) -> (r: ReplayError)
    ensures
        ({
            let text = crate::text::trim_chars(utf8_lossy(stderr@));
            if text.len() == 0 {
                r == error
            } else {
                match error {
                    ReplayError::StartupFailed(m) => r matches ReplayError::StartupFailed(n) && n@ == m@ + ": "@ + text,
                    ReplayError::StartupTimeout(_) => r matches ReplayError::StartupTimeout(n) && n@ == text,
                    _ => r == error,
                }
            }
        }),
{
    let text = lossy_text(stderr);
    let trimmed = string_from_chars(&trim_vec(&chars_of(text.as_str())));
    if trimmed.as_str().is_empty() {
        return error;
    }
    match error {
        ReplayError::StartupFailed(message) => {
            let head = concat_str(message.as_str(), ": ");
            let full = concat_str(head.as_str(), trimmed.as_str());
            ReplayError::StartupFailed(full)
        },
        ReplayError::StartupTimeout(_) => ReplayError::StartupTimeout(trimmed),
        other => other,
    }
}

/// The page that shows a replay session.
pub open spec fn viewer_url_of(session_id: Seq<char>) -> Seq<char> {
    "/api/replays/"@ + session_id + "/test.html"@
}

pub fn started_replay(session_id: String) -> (r: StartedReplay)
    ensures
        r.session_id@ == session_id@,
        r.viewer_url@ == viewer_url_of(session_id@),
{
    let head = concat_str("/api/replays/", session_id.as_str());
    let viewer_url = concat_str(head.as_str(), "/test.html");
    StartedReplay { session_id, viewer_url }
}

/// The file a request names: `test.html` for an empty path.
pub open spec fn asset_file(relative: Seq<char>) -> Seq<char> {
    if relative.len() == 0 { "test.html"@ } else { relative }
}

/// The file of a session a request names: `test.html` for an empty path;
/// refused when absolute or when any component is not a plain name.
pub open spec fn asset_path_of(relative: Seq<char>) -> Option<Seq<char>> {
    let path = asset_file(relative);
    if crate::paths::path_is_absolute(path)
        || exists|i: int| 0 <= i < crate::paths::path_components_of(path).len()
            && (#[trigger] crate::paths::path_components_of(path)[i]) is None {
        None
    } else {
        Some(path)
    }
}

pub fn asset_path(relative: &str) -> (r: Result<String, ReplayError>)
    ensures
        match asset_path_of(relative@) {
            Some(p) => r matches Ok(s) && s@ == p,
            None => r == Err::<String, ReplayError>(ReplayError::AssetNotFound),
        },
{
    let path = if relative.is_empty() { "test.html".to_owned() } else { relative.to_owned() };
    if is_absolute_path(path.as_str()) {
        return Err(ReplayError::AssetNotFound);
    }
    let parts = path_components(path.as_str());
    let ghost views = parts@.map_values(|c: PathComponent| crate::paths::component_view(c));
    let mut i: usize = 0;
    while i < parts.len()
        invariant
            0 <= i <= parts@.len(),
            views == parts@.map_values(|c: PathComponent| crate::paths::component_view(c)),
            views == crate::paths::path_components_of(path@),
            path@ == asset_file(relative@),
            !crate::paths::path_is_absolute(path@),
            forall|j: int| 0 <= j < i ==> (#[trigger] views[j]) is Some,
        decreases parts.len() - i,
    {
        let normal = match &parts[i] {
            PathComponent::Normal(_) => true,
            PathComponent::Other => false,
        };
        assert(views[i as int] == crate::paths::component_view(parts@[i as int]));
        if !normal {
            assert(crate::paths::path_components_of(asset_file(relative@))[i as int] is None);
            return Err(ReplayError::AssetNotFound);
        }
        i += 1;
    }
    Ok(path)
}

/// What a session serves for the file at `path` (as `asset_path` gives
/// it), from the outcome of reading it: its bytes with the media type of
/// the path, `AssetNotFound` where the file does not exist (`Err(None)`),
/// or the read error's message (`Err(Some(..))`).
pub fn served_asset(path: &str, read: Result<Vec<u8>, Option<String>>) -> (r: Result<ReplayAsset, ReplayError>)
    ensures
        match read {
            Ok(bytes) => r matches Ok(a) && a.bytes == bytes && a.content_type@ == mime_type_of(path@),
            Err(None) => r == Err::<ReplayAsset, ReplayError>(ReplayError::AssetNotFound),
            Err(Some(m)) => r == Err::<ReplayAsset, ReplayError>(ReplayError::Internal(m)),
        },
{
    match read {
        Ok(bytes) => Ok(ReplayAsset { bytes, content_type: content_type(path) }),
        Err(None) => Err(ReplayError::AssetNotFound),
        Err(Some(m)) => Err(ReplayError::Internal(m)),
    }
}

/// The media type `mime_guess` gives a path, `application/octet-stream`
/// when it knows none.
pub uninterp spec fn mime_type_of(path: Seq<char>) -> Seq<char>;

/// Calls `mime_guess::from_path(..).first_or_octet_stream()`.
#[verifier::external_body]
pub(crate) fn content_type(path: &str) -> (r: String)
    ensures
        r@ == mime_type_of(path@),
{
    mime_guess::from_path(path).first_or_octet_stream().to_string()
}

/// The directory a CodinGame renderer announces on a line of its output:
/// the text after `Exposed web server dir: `, trimmed.
pub open spec fn exposed_directory_of(line: Seq<char>) -> Option<Seq<char>> {
    let prefix = "Exposed web server dir: "@;
    if line.len() >= prefix.len() && line.take(prefix.len() as int) == prefix {
        Some(crate::text::trim_chars(line.skip(prefix.len() as int)))
    } else {
        None
    }
}

pub fn exposed_directory(line: &str) -> (r: Option<String>)
    ensures
        match exposed_directory_of(line@) {
            Some(d) => r matches Some(s) && s@ == d,
            None => r is None,
        },
{
    let chars = chars_of(line);
    let prefix = chars_of("Exposed web server dir: ");
    if chars.len() < prefix.len() {
        return None;
    }
    let head = crate::text::copy_range(&chars, 0, prefix.len());
    assert(head@ =~= line@.take(prefix@.len() as int));
    if !crate::text::chars_equal(&head, &prefix) {
        return None;
    }
    let rest = crate::text::copy_range(&chars, prefix.len(), chars.len());
    assert(rest@ =~= line@.skip(prefix@.len() as int));
    Some(string_from_chars(&trim_vec(&rest)))
}

/// Whether `Path::starts_with` holds: `prefix`'s components begin `path`'s.
pub uninterp spec fn path_starts_with(path: Seq<char>, prefix: Seq<char>) -> bool;

/// Calls `Path::starts_with`.
#[verifier::external_body]
fn starts_with_path(path: &str, prefix: &str) -> (r: bool)
    ensures
        r == path_starts_with(path@, prefix@),
{
    std::path::Path::new(path).starts_with(prefix)
}

/// Whether `Path`s with these texts are equal (component by component).
pub uninterp spec fn same_path(a: Seq<char>, b: Seq<char>) -> bool;

/// Calls `==` on `Path`s.
#[verifier::external_body]
fn paths_equal(a: &str, b: &str) -> (r: bool)
    ensures
        r == same_path(a@, b@),
{
    std::path::Path::new(a) == std::path::Path::new(b)
}

/// A renderer may only expose a directory strictly inside its temporary
/// directory (both canonical).
pub fn check_exposed_directory(exposed: &str, temporary: &str) -> (r: Result<(), ReplayError>)
    ensures
        r is Ok <==> (!same_path(exposed@, temporary@) && path_starts_with(exposed@, temporary@)),
        r is Err ==> (r matches Err(ReplayError::StartupFailed(m))
            && m@ == "renderer exposed a directory outside its temporary directory"@),
{
    if paths_equal(exposed, temporary) || !starts_with_path(exposed, temporary) {
        return Err(ReplayError::StartupFailed(
            "renderer exposed a directory outside its temporary directory".to_owned(),
        ));
    }
    Ok(())
}

/// The sessions idle for at least `idle_lifetime`, given each session's
/// identifier and idle time, in their order.
pub open spec fn expired_of(sessions: Seq<(String, u64)>, idle_lifetime: u64) -> Seq<Seq<char>>
    decreases sessions.len(),
{
    if sessions.len() == 0 {
        Seq::empty()
    } else if sessions.last().1 >= idle_lifetime {
        expired_of(sessions.drop_last(), idle_lifetime).push(sessions.last().0@)
    } else {
        expired_of(sessions.drop_last(), idle_lifetime)
    }
}

pub fn expired_sessions(sessions: &Vec<(String, u64)>, idle_lifetime: u64) -> (r: Vec<String>)
    ensures
        crate::referee_adapter::views(r@) == expired_of(sessions@, idle_lifetime),
{
    let mut out: Vec<String> = Vec::new();
    let mut i: usize = 0;
    while i < sessions.len()
        invariant
            0 <= i <= sessions@.len(),
            crate::referee_adapter::views(out@) == expired_of(sessions@.take(i as int), idle_lifetime),
        decreases sessions.len() - i,
    {
        proof {
            assert(sessions@.take(i + 1).drop_last() =~= sessions@.take(i as int));
            assert(sessions@.take(i + 1).last() == sessions@[i as int]);
        }
        if sessions[i].1 >= idle_lifetime {
            let ghost before = out@;
            let id = sessions[i].0.clone();
            let ghost t = id@;
            out.push(id);
            assert(crate::referee_adapter::views(out@) =~= crate::referee_adapter::views(before).push(t));
        }
        i += 1;
    }
    assert(sessions@.take(sessions@.len() as int) =~= sessions@);
    out
}

/// The failure of a renderer that exited unsuccessfully: its trimmed error
/// output, or the exit status where that is blank.
pub fn exit_failure(stderr: &[u8], status: &str) -> (r: ReplayError)
    ensures
        ({
            let text = crate::text::trim_chars(utf8_lossy(stderr@));
            r matches ReplayError::StartupFailed(m) && m@ == (if text.len() == 0 {
                "renderer exited with "@ + status@
            } else {
                text
            })
        }),
{
    let text = lossy_text(stderr);
    let trimmed = string_from_chars(&trim_vec(&chars_of(text.as_str())));
    if trimmed.as_str().is_empty() {
        ReplayError::StartupFailed(concat_str("renderer exited with ", status))
    } else {
        ReplayError::StartupFailed(trimmed)
    }
}

} // verus!

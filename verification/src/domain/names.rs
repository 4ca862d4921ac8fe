use vstd::prelude::*;
use crate::text::{chars_of, string_from_chars};

verus! {

/// Why a text was refused as a name.
#[derive(Debug, Clone, Copy, PartialEq, Eq, Structural)]
pub enum NameError {
    /// The text is empty.
    Empty,
    /// The UTF-8 encoding of the text has `limit` bytes or more.
    TooLong { limit: usize },
}

/// Outcome of checking a text against a byte-length limit: it must be
/// non-empty and its UTF-8 encoding shorter than `limit` bytes.
pub open spec fn name_check(text: Seq<char>, limit: usize) -> Result<(), NameError> {
    if text.len() == 0 {
        Err(NameError::Empty)
    } else if crate::text::utf8_len(text) >= limit {
        Err(NameError::TooLong { limit })
    } else {
        Ok(())
    }
}

/// Checks `text` against the rules shared by every name type.
pub fn check_name(text: &str, limit: usize) -> (r: Result<(), NameError>)
    ensures
        r == name_check(text@, limit),
{
    if text.is_empty() {
        Err(NameError::Empty)
    } else if text.as_bytes().len() >= limit {
        Err(NameError::TooLong { limit })
    } else {
        Ok(())
    }
}

/// Byte limit of bot names.
pub const BOT_NAME_LIMIT: usize = 32;
/// Byte limit of language names.
pub const LANGUAGE_LIMIT: usize = 32;
/// Byte limit of leaderboard names.
pub const LEADERBOARD_NAME_LIMIT: usize = 64;
/// Byte limit of worker names.
pub const WORKER_NAME_LIMIT: usize = 32;

/// Name of a bot: non-empty and shorter than 32 bytes.
#[derive(Debug, Clone, Hash)]
pub struct BotName(String);

/// Name of a programming language: non-empty and shorter than 32 bytes.
#[derive(Debug, Clone, Hash)]
pub struct Language(String);

/// Name of a leaderboard: non-empty and shorter than 64 bytes.
#[derive(Debug, Clone, Hash)]
pub struct LeaderboardName(String);

/// Name of a worker: non-empty and shorter than 32 bytes.
#[derive(Debug, Clone, Hash)]
pub struct WorkerName(String);

/// Source code of a bot; any text is accepted.
#[derive(Debug, Clone, Hash)]
pub struct SourceCode(String);

impl View for BotName {
    type V = Seq<char>;

    closed spec fn view(&self) -> Seq<char> {
        self.0@
    }
}

impl View for Language {
    type V = Seq<char>;

    closed spec fn view(&self) -> Seq<char> {
        self.0@
    }
}

impl View for LeaderboardName {
    type V = Seq<char>;

    closed spec fn view(&self) -> Seq<char> {
        self.0@
    }
}

impl View for WorkerName {
    type V = Seq<char>;

    closed spec fn view(&self) -> Seq<char> {
        self.0@
    }
}

impl View for SourceCode {
    type V = Seq<char>;

    closed spec fn view(&self) -> Seq<char> {
        self.0@
    }
}

impl BotName {
    /// Whether the name obeys the bot name rules.
    pub closed spec fn wf(&self) -> bool {
        name_check(self.0@, BOT_NAME_LIMIT) is Ok
    }

    pub fn as_str(&self) -> (r: &str)
        ensures
            r@ == self@,
    {
        self.0.as_str()
    }

    /// A copy of this name.
    pub fn duplicate(&self) -> (r: BotName)
        ensures
            r@ == self@,
    {
        BotName(string_from_chars(&chars_of(self.0.as_str())))
    }

    /// Whether both names hold the same text.
    pub fn same_as(&self, other: &BotName) -> (r: bool)
        ensures
            r == (self@ == other@),
    {
        crate::text::str_equal(self.0.as_str(), other.0.as_str())
    }
}

impl Language {
    pub fn as_str(&self) -> (r: &str)
        ensures
            r@ == self@,
    {
        self.0.as_str()
    }

    /// A copy of this name.
    pub fn duplicate(&self) -> (r: Language)
        ensures
            r@ == self@,
    {
        Language(string_from_chars(&chars_of(self.0.as_str())))
    }
}

impl LeaderboardName {
    /// The name of the leaderboard that every arena has.
    pub fn global() -> (r: LeaderboardName)
        ensures
            r@ == seq!['G', 'l', 'o', 'b', 'a', 'l'],
    {
        let mut chars: Vec<char> = Vec::new();
        chars.push('G');
        chars.push('l');
        chars.push('o');
        chars.push('b');
        chars.push('a');
        chars.push('l');
        LeaderboardName(string_from_chars(&chars))
    }

    pub fn as_str(&self) -> (r: &str)
        ensures
            r@ == self@,
    {
        self.0.as_str()
    }
}

impl WorkerName {
    /// The name of the worker built into the arena.
    pub fn embedded() -> (r: WorkerName)
        ensures
            r@ == seq!['e', 'm', 'b', 'e', 'd', 'd', 'e', 'd'],
    {
        let mut chars: Vec<char> = Vec::new();
        chars.push('e');
        chars.push('m');
        chars.push('b');
        chars.push('e');
        chars.push('d');
        chars.push('d');
        chars.push('e');
        chars.push('d');
        WorkerName(string_from_chars(&chars))
    }

    pub fn as_str(&self) -> (r: &str)
        ensures
            r@ == self@,
    {
        self.0.as_str()
    }

    /// A copy of this name.
    pub fn duplicate(&self) -> (r: WorkerName)
        ensures
            r@ == self@,
    {
        WorkerName(string_from_chars(&chars_of(self.0.as_str())))
    }
}

impl SourceCode {
    pub fn as_str(&self) -> (r: &str)
        ensures
            r@ == self@,
    {
        self.0.as_str()
    }
}

impl TryFrom<String> for BotName {
    type Error = NameError;

    fn try_from(src: String) -> (r: Result<BotName, NameError>)
        ensures
            r is Ok <==> name_check(src@, BOT_NAME_LIMIT) is Ok,
            r matches Ok(name) ==> name@ == src@ && name.wf(),
            r matches Err(e) ==> name_check(src@, BOT_NAME_LIMIT) == Err::<(), NameError>(e),
    {
        match check_name(src.as_str(), BOT_NAME_LIMIT) {
            Ok(()) => Ok(BotName(src)),
            Err(e) => Err(e),
        }
    }
}

impl vstd::std_specs::convert::TryFromSpecImpl<String> for BotName {
    open spec fn obeys_try_from_spec() -> bool {
        true
    }

    closed spec fn try_from_spec(v: String) -> Result<BotName, NameError> {
        match name_check(v@, BOT_NAME_LIMIT) {
            Ok(()) => Ok(BotName(v)),
            Err(e) => Err(e),
        }
    }
}

impl TryFrom<String> for Language {
    type Error = NameError;

    fn try_from(src: String) -> (r: Result<Language, NameError>)
        ensures
            r is Ok <==> name_check(src@, LANGUAGE_LIMIT) is Ok,
            r matches Ok(name) ==> name@ == src@,
            r matches Err(e) ==> name_check(src@, LANGUAGE_LIMIT) == Err::<(), NameError>(e),
    {
        match check_name(src.as_str(), LANGUAGE_LIMIT) {
            Ok(()) => Ok(Language(src)),
            Err(e) => Err(e),
        }
    }
}

impl vstd::std_specs::convert::TryFromSpecImpl<String> for Language {
    open spec fn obeys_try_from_spec() -> bool {
        true
    }

    closed spec fn try_from_spec(v: String) -> Result<Language, NameError> {
        match name_check(v@, LANGUAGE_LIMIT) {
            Ok(()) => Ok(Language(v)),
            Err(e) => Err(e),
        }
    }
}

impl TryFrom<String> for LeaderboardName {
    type Error = NameError;

    fn try_from(src: String) -> (r: Result<LeaderboardName, NameError>)
        ensures
            r is Ok <==> name_check(src@, LEADERBOARD_NAME_LIMIT) is Ok,
            r matches Ok(name) ==> name@ == src@,
            r matches Err(e) ==> name_check(src@, LEADERBOARD_NAME_LIMIT) == Err::<(), NameError>(e),
    {
        match check_name(src.as_str(), LEADERBOARD_NAME_LIMIT) {
            Ok(()) => Ok(LeaderboardName(src)),
            Err(e) => Err(e),
        }
    }
}

impl vstd::std_specs::convert::TryFromSpecImpl<String> for LeaderboardName {
    open spec fn obeys_try_from_spec() -> bool {
        true
    }

    closed spec fn try_from_spec(v: String) -> Result<LeaderboardName, NameError> {
        match name_check(v@, LEADERBOARD_NAME_LIMIT) {
            Ok(()) => Ok(LeaderboardName(v)),
            Err(e) => Err(e),
        }
    }
}

impl TryFrom<String> for WorkerName {
    type Error = NameError;

    fn try_from(src: String) -> (r: Result<WorkerName, NameError>)
        ensures
            r is Ok <==> name_check(src@, WORKER_NAME_LIMIT) is Ok,
            r matches Ok(name) ==> name@ == src@,
            r matches Err(e) ==> name_check(src@, WORKER_NAME_LIMIT) == Err::<(), NameError>(e),
    {
        match check_name(src.as_str(), WORKER_NAME_LIMIT) {
            Ok(()) => Ok(WorkerName(src)),
            Err(e) => Err(e),
        }
    }
}

impl vstd::std_specs::convert::TryFromSpecImpl<String> for WorkerName {
    open spec fn obeys_try_from_spec() -> bool {
        true
    }

    closed spec fn try_from_spec(v: String) -> Result<WorkerName, NameError> {
        match name_check(v@, WORKER_NAME_LIMIT) {
            Ok(()) => Ok(WorkerName(v)),
            Err(e) => Err(e),
        }
    }
}

impl From<BotName> for String {
    fn from(value: BotName) -> (r: String)
        ensures
            r@ == value@,
    {
        value.0
    }
}

impl vstd::std_specs::convert::FromSpecImpl<BotName> for String {
    open spec fn obeys_from_spec() -> bool {
        false
    }

    open spec fn from_spec(v: BotName) -> String {
        arbitrary()
    }
}

impl From<Language> for String {
    fn from(value: Language) -> (r: String)
        ensures
            r@ == value@,
    {
        value.0
    }
}

impl vstd::std_specs::convert::FromSpecImpl<Language> for String {
    open spec fn obeys_from_spec() -> bool {
        false
    }

    open spec fn from_spec(v: Language) -> String {
        arbitrary()
    }
}

impl From<LeaderboardName> for String {
    fn from(value: LeaderboardName) -> (r: String)
        ensures
            r@ == value@,
    {
        value.0
    }
}

impl vstd::std_specs::convert::FromSpecImpl<LeaderboardName> for String {
    open spec fn obeys_from_spec() -> bool {
        false
    }

    open spec fn from_spec(v: LeaderboardName) -> String {
        arbitrary()
    }
}

impl From<WorkerName> for String {
    fn from(value: WorkerName) -> (r: String)
        ensures
            r@ == value@,
    {
        value.0
    }
}

impl vstd::std_specs::convert::FromSpecImpl<WorkerName> for String {
    open spec fn obeys_from_spec() -> bool {
        false
    }

    open spec fn from_spec(v: WorkerName) -> String {
        arbitrary()
    }
}

impl From<SourceCode> for String {
    fn from(value: SourceCode) -> (r: String)
        ensures
            r@ == value@,
    {
        value.0
    }
}

impl vstd::std_specs::convert::FromSpecImpl<SourceCode> for String {
    open spec fn obeys_from_spec() -> bool {
        false
    }

    open spec fn from_spec(v: SourceCode) -> String {
        arbitrary()
    }
}

impl From<String> for SourceCode {
    fn from(src: String) -> (r: SourceCode)
        ensures
            r@ == src@,
    {
        SourceCode(src)
    }
}

impl vstd::std_specs::convert::FromSpecImpl<String> for SourceCode {
    open spec fn obeys_from_spec() -> bool {
        false
    }

    open spec fn from_spec(v: String) -> SourceCode {
        arbitrary()
    }
}

impl core::ops::Deref for SourceCode {
    type Target = str;

    fn deref(&self) -> (r: &str)
        ensures
            r@ == self@,
    {
        self.0.as_str()
    }
}

impl core::ops::Deref for Language {
    type Target = str;

    fn deref(&self) -> (r: &str)
        ensures
            r@ == self@,
    {
        self.0.as_str()
    }
}

impl core::ops::Deref for LeaderboardName {
    type Target = str;

    fn deref(&self) -> (r: &str)
        ensures
            r@ == self@,
    {
        self.0.as_str()
    }
}

impl core::ops::Deref for WorkerName {
    type Target = str;

    fn deref(&self) -> (r: &str)
        ensures
            r@ == self@,
    {
        self.0.as_str()
    }
}

} // verus!

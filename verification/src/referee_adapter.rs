//! The referee protocol: the command lines that play and serve a match, and
//! the checks on what a referee reports.
use vstd::prelude::*;
use serde_json::Value;
use crate::config::{CodingameJarRefereeConfig, CommandRefereeConfig, ManagedCodingameRefereeConfig, RefereeConfig};
use crate::paths::{is_absolute_path, join_path};
use crate::text::{chars_of, contains_trimmed_line, copy_range, decimal_string, has_trimmed_line,
    natural_decimal_chars, parse_unsigned_vec, replace_all, replace_text, str_equal, string_from_chars, trim_chars,
    trim_vec};

verus! {

/// Plays or serves matches with the referee of the arena's configuration.
pub enum RefereeAdapter<'a> {
    CodingameJar(&'a CodingameJarRefereeConfig),
    Command(&'a CommandRefereeConfig),
    /// The arena's own build of a CodinGame referee.
    ManagedCodingame(&'a ManagedCodingameRefereeConfig),
}

/// The JAR settings of the managed referee: its build in the arena, with
/// the configured Java launcher and the default league.
pub open spec fn is_managed_jar(jar: CodingameJarRefereeConfig, config: ManagedCodingameRefereeConfig) -> bool {
    &&& java_program(jar) == (match config.java {
        Some(java) => java@,
        None => "java"@,
    })
    &&& jar.path@ == MANAGED_ARTIFACT@
    &&& jar.league is None
}

/// Where the managed referee's build lives, relative to the arena.
pub const MANAGED_ARTIFACT: &'static str = ".cgarena/referee/referee.jar";

fn managed_jar_exec(config: &ManagedCodingameRefereeConfig) -> (r: CodingameJarRefereeConfig)
    ensures
        is_managed_jar(r, *config),
{
    CodingameJarRefereeConfig { java: config.java.clone(), path: MANAGED_ARTIFACT.to_owned(), league: None }
}

/// Where the outcome of a played match is read from.
#[derive(Clone, Copy, Debug, PartialEq, Eq, Structural)]
pub enum MatchResultSource {
    CommandStdout,
    CodingameReplay,
}

/// The command line that plays one match.
pub struct PreparedMatchCommand {
    pub argv: Vec<String>,
    pub result_source: MatchResultSource,
}

/// The command line that serves a replay.
pub struct PreparedReplayCommand {
    pub program: String,
    pub args: Vec<String>,
}

/// Why a referee command line cannot be built.
#[derive(Debug)]
pub enum RefereeError {
    /// A CodinGame referee always writes a replay.
    CodingameReplayPathMissing,
    /// The `play_match` command line has unbalanced quotes.
    PlayMatchQuoting,
    /// `play_match` holds `{REPLAY_PATH}` and no replay path was given.
    CommandReplayPathMissing,
    /// `play_match` holds this `{P<n>}` placeholder for a missing player.
    MissingPlayer(String),
    /// `play_match` expands to nothing.
    BlankPlayMatch,
    /// The `watch_replay` command line has unbalanced quotes.
    WatchReplayQuoting,
    /// `watch_replay` holds nothing.
    BlankWatchReplay,
    /// `watch_replay` lacks this placeholder.
    MissingPlaceholder(String),
}

/// The text of each string.
pub open spec fn views(v: Seq<String>) -> Seq<Seq<char>> {
    v.map_values(|s: String| s@)
}

/// The words of `line` as the `shell-words` crate splits it (quotes and
/// escapes of the POSIX shell), or `None` where a quote is left open.
pub uninterp spec fn shell_words_split(line: Seq<char>) -> Option<Seq<Seq<char>>>;

/// Calls `shell_words::split`: its words, or `None` on its `ParseError`.
#[verifier::external_body]
fn shell_split(line: &str) -> (r: Option<Vec<String>>)
    ensures
        r matches Some(words) ==> shell_words_split(line@) == Some(views(words@)),
        r is None ==> shell_words_split(line@) is None,
{
    shell_words::split(line).ok()
}

/// Number in a `{P<n>}` placeholder, as `usize::from_str` reads it.
pub open spec fn player_placeholder(part: Seq<char>) -> Option<nat> {
    if part.len() >= 3 && part[0] == '{' && part[1] == 'P' && part.last() == '}' {
        crate::text::parse_unsigned(part.subrange(2, part.len() - 1), usize::MAX as nat)
    } else {
        None
    }
}

/// What one word of `play_match` becomes: `{SEED}` the seed, `{PLAYERS}`
/// every player command, `{REPLAY_PATH}` the replay path, `{P<n>}` the
/// command of player n (`{P0}` that of the first), anything else itself.
/// An error names the missing replay path (`None`) or the placeholder of a
/// missing player.
pub open spec fn expand_part(
    part: Seq<char>,
    seed: i64,
    players: Seq<Seq<char>>,
    replay: Option<Seq<char>>,
) -> Result<Seq<Seq<char>>, Option<Seq<char>>> {
    if part == "{SEED}"@ {
        Ok(seq![crate::text::decimal(seed as int)])
    } else if part == "{PLAYERS}"@ {
        Ok(players)
    } else if part == "{REPLAY_PATH}"@ {
        match replay {
            Some(p) => Ok(seq![p]),
            None => Err(None),
        }
    } else {
        match player_placeholder(part) {
            Some(n) => {
                let index: int = if n == 0 { 0 } else { n - 1 };
                if index < players.len() {
                    Ok(seq![players[index]])
                } else {
                    Err(Some(part))
                }
            },
            None => Ok(seq![part]),
        }
    }
}

/// The words of `template` expanded in order; the first failing word decides
/// the error.
pub open spec fn expand_template(
    template: Seq<Seq<char>>,
    seed: i64,
    players: Seq<Seq<char>>,
    replay: Option<Seq<char>>,
) -> Result<Seq<Seq<char>>, Option<Seq<char>>>
    decreases template.len(),
{
    if template.len() == 0 {
        Ok(Seq::empty())
    } else {
        match expand_template(template.drop_last(), seed, players, replay) {
            Err(e) => Err(e),
            Ok(prefix) => match expand_part(template.last(), seed, players, replay) {
                Err(e) => Err(e),
                Ok(piece) => Ok(prefix + piece),
            },
        }
    }
}

/// `r` is what the expansion `outcome` of a `play_match` template gives:
/// the words, unless there are none, or the error it names.
pub open spec fn command_argv_result(
    r: Result<Vec<String>, RefereeError>,
    outcome: Result<Seq<Seq<char>>, Option<Seq<char>>>,
) -> bool {
    match outcome {
        Ok(argv) => if argv.len() == 0 {
            r matches Err(RefereeError::BlankPlayMatch)
        } else {
            r matches Ok(v) && views(v@) == argv
        },
        Err(None) => r matches Err(RefereeError::CommandReplayPathMissing),
        Err(Some(part)) => r matches Err(RefereeError::MissingPlayer(p)) && p@ == part,
    }
}

/// The number in a `{P<n>}` placeholder.
fn player_placeholder_exec(part: &String) -> (r: Option<usize>)
    ensures
        r matches Some(n) ==> player_placeholder(part@) == Some(n as nat),
        r is None ==> player_placeholder(part@) is None,
{
    let chars = chars_of(part.as_str());
    let n = chars.len();
    if n >= 3 && chars[0] == '{' && chars[1] == 'P' && chars[n - 1] == '}' {
        let inner = copy_range(&chars, 2, n - 1);
        proof {
            assert(chars@.last() == chars@[n - 1]);
        }
        match parse_unsigned_vec(&inner, usize::MAX as u64) {
            Some(v) => Some(v as usize),
            None => None,
        }
    } else {
        None
    }
}

/// Expands the words of a `play_match` template (as `shell_words::split`
/// gave them) for one match.
pub fn expand_match_template(
    template: &Vec<String>,
    seed: i64,
    players: &Vec<String>,
    replay_path: Option<&str>,
) -> (r: Result<Vec<String>, RefereeError>)
    ensures
        command_argv_result(r, expand_template(views(template@), seed, views(players@), match replay_path {
            Some(p) => Some(p@),
            None => None,
        })),
{
    let ghost replay = match replay_path {
        Some(p) => Some(p@),
        None => None::<Seq<char>>,
    };
    let ghost ps = views(players@);
    let ghost tv = views(template@);
    let mut argv: Vec<String> = Vec::new();
    proof {
        assert(tv.subrange(0, 0) =~= Seq::<Seq<char>>::empty());
        assert(views(argv@) =~= Seq::<Seq<char>>::empty());
    }
    let mut i: usize = 0;
    while i < template.len()
        invariant
            0 <= i <= template@.len(),
            ps == views(players@),
            tv == views(template@),
            replay == (match replay_path { Some(p) => Some(p@), None => None::<Seq<char>> }),
            expand_template(tv.subrange(0, i as int), seed, ps, replay) == Ok::<Seq<Seq<char>>, Option<Seq<char>>>(views(argv@)),
        decreases template.len() - i,
    {
        let part = &template[i];
        let ghost prefix = tv.subrange(0, i as int);
        proof {
            assert(tv.subrange(0, i + 1).drop_last() =~= prefix);
            assert(tv.subrange(0, i + 1).last() == part@);
        }
        let ghost before = views(argv@);
        if str_equal(part.as_str(), "{SEED}") {
            argv.push(decimal_string(seed));
            proof {
                assert(views(argv@) =~= before + seq![crate::text::decimal(seed as int)]);
            }
        } else if str_equal(part.as_str(), "{PLAYERS}") {
            let mut k: usize = 0;
            while k < players.len()
                invariant
                    0 <= k <= players@.len(),
                    ps == views(players@),
                    views(argv@) == before + ps.subrange(0, k as int),
                decreases players.len() - k,
            {
                let ghost prev = argv@;
                let next = players[k].clone();
                argv.push(next);
                proof {
                    assert(argv@ == prev.push(next));
                    assert(views(argv@) =~= views(prev).push(ps[k as int]));
                    assert(ps.subrange(0, k + 1) =~= ps.subrange(0, k as int).push(ps[k as int]));
                }
                k += 1;
            }
            proof {
                assert(ps.subrange(0, players@.len() as int) =~= ps);
            }
        } else if str_equal(part.as_str(), "{REPLAY_PATH}") {
            match replay_path {
                Some(p) => {
                    argv.push(p.to_owned());
                    proof {
                        assert(views(argv@) =~= before + seq![p@]);
                    }
                },
                None => {
                    proof {
                        lemma_expand_template_error(tv, seed, ps, replay, i + 1);
                    }
                    return Err(RefereeError::CommandReplayPathMissing);
                },
            }
        } else {
            match player_placeholder_exec(part) {
                Some(n) => {
                    let index: usize = if n == 0 { 0 } else { n - 1 };
                    if index < players.len() {
                        argv.push(players[index].clone());
                        proof {
                            assert(views(argv@) =~= before + seq![ps[index as int]]);
                        }
                    } else {
                        proof {
                            lemma_expand_template_error(tv, seed, ps, replay, i + 1);
                        }
                        return Err(RefereeError::MissingPlayer(part.clone()));
                    }
                },
                None => {
                    argv.push(part.clone());
                    proof {
                        assert(views(argv@) =~= before + seq![part@]);
                    }
                },
            }
        }
        i += 1;
    }
    proof {
        assert(tv.subrange(0, tv.len() as int) =~= tv);
    }
    if argv.len() == 0 {
        return Err(RefereeError::BlankPlayMatch);
    }
    Ok(argv)
}

/// An error of a prefix of the template is the error of the whole.
proof fn lemma_expand_template_error(
    template: Seq<Seq<char>>,
    seed: i64,
    players: Seq<Seq<char>>,
    replay: Option<Seq<char>>,
    n: int,
)
    requires
        0 <= n <= template.len(),
        expand_template(template.subrange(0, n), seed, players, replay) is Err,
    ensures
        expand_template(template, seed, players, replay) == expand_template(template.subrange(0, n), seed, players, replay),
    decreases template.len() - n,
{
    if n < template.len() {
        assert(template.subrange(0, n + 1).drop_last() =~= template.subrange(0, n));
        lemma_expand_template_error(template, seed, players, replay, n + 1);
    } else {
        assert(template.subrange(0, n) =~= template);
    }
}


/// The Java launcher of a CodinGame referee.
pub open spec fn java_program(config: CodingameJarRefereeConfig) -> Seq<char> {
    match config.java {
        Some(java) => java@,
        None => "java"@,
    }
}

/// `-p1`, the first command, `-p2`, the second, ..., for the first `n`
/// players.
pub open spec fn player_flags(players: Seq<Seq<char>>, n: int) -> Seq<Seq<char>>
    decreases n,
{
    if n <= 0 {
        Seq::empty()
    } else {
        player_flags(players, n - 1) + seq![seq!['-', 'p'] + crate::text::natural_digits(n as nat), players[n - 1]]
    }
}

/// The league a CodinGame referee plays.
pub open spec fn league_of(config: CodingameJarRefereeConfig) -> nat {
    match config.league {
        Some(league) => league as nat,
        None => 19,
    }
}

/// The command line that plays a match with a CodinGame referee.
pub open spec fn codingame_match_argv(
    config: CodingameJarRefereeConfig,
    seed: i64,
    players: Seq<Seq<char>>,
    replay: Seq<char>,
) -> Seq<Seq<char>> {
    seq![java_program(config), "--add-opens"@, "java.base/java.lang=ALL-UNNAMED"@, "-jar"@, config.path@]
        + player_flags(players, players.len() as int)
        + seq!["-seed"@, crate::text::decimal(seed as int), "-league"@, crate::text::natural_digits(league_of(config)), "-l"@, replay]
}

fn java_launcher(config: &CodingameJarRefereeConfig) -> (r: String)
    ensures
        r@ == java_program(*config),
{
    match &config.java {
        Some(java) => java.clone(),
        None => "java".to_owned(),
    }
}

fn push_text(argv: &mut Vec<String>, text: &str)
    ensures
        views(final(argv)@) == views(old(argv)@).push(text@),
{
    let ghost prev = argv@;
    argv.push(text.to_owned());
    proof {
        assert(views(argv@) =~= views(prev).push(text@));
    }
}

fn push_string(argv: &mut Vec<String>, text: String)
    ensures
        views(final(argv)@) == views(old(argv)@).push(text@),
{
    let ghost prev = argv@;
    let ghost t = text@;
    argv.push(text);
    proof {
        assert(views(argv@) =~= views(prev).push(t));
    }
}

/// `-p` followed by the number `n`.
fn player_flag(n: u64) -> (r: String)
    ensures
        r@ == seq!['-', 'p'] + crate::text::natural_digits(n as nat),
{
    let digits = natural_decimal_chars(n);
    let mut chars: Vec<char> = Vec::new();
    chars.push('-');
    chars.push('p');
    let mut i: usize = 0;
    while i < digits.len()
        invariant
            0 <= i <= digits@.len(),
            chars@ == seq!['-', 'p'] + digits@.subrange(0, i as int),
        decreases digits.len() - i,
    {
        chars.push(digits[i]);
        i += 1;
        assert(chars@ =~= seq!['-', 'p'] + digits@.subrange(0, i as int));
    }
    assert(digits@.subrange(0, digits@.len() as int) =~= digits@);
    string_from_chars(&chars)
}

/// The command line that plays a match with a CodinGame referee.
fn codingame_argv(config: &CodingameJarRefereeConfig, seed: i64, players: &Vec<String>, replay: &str) -> (r: Vec<String>)
    ensures
        views(r@) == codingame_match_argv(*config, seed, views(players@), replay@),
{
    let ghost ps = views(players@);
    let mut argv: Vec<String> = Vec::new();
    push_string(&mut argv, java_launcher(config));
    push_text(&mut argv, "--add-opens");
    push_text(&mut argv, "java.base/java.lang=ALL-UNNAMED");
    push_text(&mut argv, "-jar");
    push_string(&mut argv, config.path.clone());
    let ghost head = views(argv@);
    proof {
        assert(head =~= seq![java_program(*config), "--add-opens"@, "java.base/java.lang=ALL-UNNAMED"@, "-jar"@, config.path@]);
    }
    let mut i: usize = 0;
    while i < players.len()
        invariant
            0 <= i <= players@.len(),
            ps == views(players@),
            views(argv@) == head + player_flags(ps, i as int),
        decreases players.len() - i,
    {
        push_string(&mut argv, player_flag(i as u64 + 1));
        push_string(&mut argv, players[i].clone());
        i += 1;
        proof {
            assert(views(argv@) =~= head + player_flags(ps, i as int));
        }
    }
    let league: u32 = match config.league {
        Some(league) => league,
        None => 19,
    };
    push_text(&mut argv, "-seed");
    push_string(&mut argv, decimal_string(seed));
    push_text(&mut argv, "-league");
    push_string(&mut argv, string_from_chars(&natural_decimal_chars(league as u64)));
    push_text(&mut argv, "-l");
    push_text(&mut argv, replay);
    proof {
        assert(views(argv@) =~= codingame_match_argv(*config, seed, ps, replay@));
    }
    argv
}

impl<'a> RefereeAdapter<'a> {
    /// The adapter of a referee configuration.
    pub fn from_config(config: &'a RefereeConfig) -> (r: RefereeAdapter<'a>)
        ensures
            match config {
                RefereeConfig::CodingameJar(c) => r matches RefereeAdapter::CodingameJar(a) && *a == c,
                RefereeConfig::Command(c) => r matches RefereeAdapter::Command(a) && *a == c,
                RefereeConfig::ManagedCodingame(c) => r matches RefereeAdapter::ManagedCodingame(a) && *a == c,
            },
    {
        match config {
            RefereeConfig::CodingameJar(c) => RefereeAdapter::CodingameJar(c),
            RefereeConfig::Command(c) => RefereeAdapter::Command(c),
            RefereeConfig::ManagedCodingame(c) => RefereeAdapter::ManagedCodingame(c),
        }
    }

    /// Whether a played match leaves a replay: always with a CodinGame
    /// referee, and with a command referee whose `play_match` mentions
    /// `{REPLAY_PATH}`.
    pub fn match_replay_required(&self) -> (r: bool)
        ensures
            r == match self {
                RefereeAdapter::CodingameJar(_) => true,
                RefereeAdapter::ManagedCodingame(_) => true,
                RefereeAdapter::Command(c) => crate::text::contains_text(c.play_match@, "{REPLAY_PATH}"@),
            },
    {
        match self {
            RefereeAdapter::CodingameJar(_) => true,
            RefereeAdapter::ManagedCodingame(_) => true,
            RefereeAdapter::Command(c) => {
                let hay = chars_of(c.play_match.as_str());
                let needle = chars_of("{REPLAY_PATH}");
                crate::text::contains_text_vec(&hay, &needle)
            },
        }
    }

    /// The command line that plays one match with the given player commands
    /// and seed, writing its replay to `replay_path` where given.
    pub fn prepare_match_command(
        &self,
        seed: i64,
        player_commands: &Vec<String>,
        replay_path: Option<&str>,
    ) -> (r: Result<PreparedMatchCommand, RefereeError>)
        ensures
            match self {
                RefereeAdapter::CodingameJar(c) => match replay_path {
                    None => r matches Err(RefereeError::CodingameReplayPathMissing),
                    Some(p) => r matches Ok(cmd) && cmd.result_source == MatchResultSource::CodingameReplay
                        && views(cmd.argv@) == codingame_match_argv(**c, seed, views(player_commands@), p@),
                },
                RefereeAdapter::ManagedCodingame(c) => match replay_path {
                    None => r matches Err(RefereeError::CodingameReplayPathMissing),
                    Some(p) => r matches Ok(cmd) && cmd.result_source == MatchResultSource::CodingameReplay
                        && exists|jar: CodingameJarRefereeConfig| is_managed_jar(jar, **c)
                            && views(cmd.argv@) == codingame_match_argv(jar, seed, views(player_commands@), p@),
                },
                RefereeAdapter::Command(c) => match shell_words_split(c.play_match@) {
                    None => r matches Err(RefereeError::PlayMatchQuoting),
                    Some(template) => (r matches Ok(cmd) ==> cmd.result_source == MatchResultSource::CommandStdout)
                        && command_argv_result(match r {
                            Ok(cmd) => Ok(cmd.argv),
                            Err(e) => Err(e),
                        }, expand_template(template, seed, views(player_commands@), match replay_path {
                            Some(p) => Some(p@),
                            None => None,
                        })),
                },
            },
    {
        match self {
            RefereeAdapter::CodingameJar(config) => match replay_path {
                None => Err(RefereeError::CodingameReplayPathMissing),
                Some(path) => Ok(PreparedMatchCommand {
                    argv: codingame_argv(config, seed, player_commands, path),
                    result_source: MatchResultSource::CodingameReplay,
                }),
            },
            RefereeAdapter::ManagedCodingame(config) => match replay_path {
                None => Err(RefereeError::CodingameReplayPathMissing),
                Some(path) => {
                    let jar = managed_jar_exec(config);
                    Ok(PreparedMatchCommand {
                        argv: codingame_argv(&jar, seed, player_commands, path),
                        result_source: MatchResultSource::CodingameReplay,
                    })
                },
            },
            RefereeAdapter::Command(config) => match shell_split(config.play_match.as_str()) {
                None => Err(RefereeError::PlayMatchQuoting),
                Some(template) => match expand_match_template(&template, seed, player_commands, replay_path) {
                    Ok(argv) => Ok(PreparedMatchCommand { argv, result_source: MatchResultSource::CommandStdout }),
                    Err(e) => Err(e),
                },
            },
        }
    }
}


/// Position of the first word equal to `x`.
pub open spec fn first_equal(parts: Seq<Seq<char>>, x: Seq<char>) -> Option<int> {
    if exists|i: int| 0 <= i < parts.len() && parts[i] == x {
        Some(choose|i: int| 0 <= i < parts.len() && parts[i] == x && forall|j: int| 0 <= j < i ==> parts[j] != x)
    } else {
        None
    }
}

proof fn lemma_first_equal_at(parts: Seq<Seq<char>>, x: Seq<char>, i: int)
    requires
        0 <= i < parts.len(),
        parts[i] == x,
        forall|j: int| 0 <= j < i ==> parts[j] != x,
    ensures
        first_equal(parts, x) == Some(i),
{
    assert(exists|w: int| 0 <= w < parts.len() && parts[w] == x && forall|j: int| 0 <= j < w ==> parts[j] != x);
    let w = choose|w: int| 0 <= w < parts.len() && parts[w] == x && forall|j: int| 0 <= j < w ==> parts[j] != x;
    if w > i {
        assert(parts[i] == x);
    }
    if w < i {
        assert(parts[w] != x);
    }
}

/// `parts` with the first word equal to `placeholder` replaced by `value`;
/// `None` when there is no such word.
#[verifier::opaque]
pub open spec fn replace_first(parts: Seq<Seq<char>>, placeholder: Seq<char>, value: Seq<char>) -> Option<Seq<Seq<char>>> {
    match first_equal(parts, placeholder) {
        Some(i) => Some(parts.update(i, value)),
        None => None,
    }
}

/// The words of a `watch_replay` template with `{REPLAY_PATH}`,
/// `{REPLAY_DIR}`, `{PORT}` and `{PLAYER_COUNT}` filled in, in that order.
/// An error is `None` for a blank template, else the first placeholder
/// missing.
pub open spec fn fill_replay(
    parts: Seq<Seq<char>>,
    artifact: Seq<char>,
    session: Seq<char>,
    port: u16,
    players: u8,
) -> Result<Seq<Seq<char>>, Option<Seq<char>>> {
    if parts.len() == 0 {
        Err(None)
    } else {
        match replace_first(parts, "{REPLAY_PATH}"@, artifact) {
            None => Err(Some("{REPLAY_PATH}"@)),
            Some(p1) => match replace_first(p1, "{REPLAY_DIR}"@, session) {
                None => Err(Some("{REPLAY_DIR}"@)),
                Some(p2) => match replace_first(p2, "{PORT}"@, crate::text::natural_digits(port as nat)) {
                    None => Err(Some("{PORT}"@)),
                    Some(p3) => match replace_first(p3, "{PLAYER_COUNT}"@, crate::text::natural_digits(players as nat)) {
                        None => Err(Some("{PLAYER_COUNT}"@)),
                        Some(p4) => Ok(p4),
                    },
                },
            },
        }
    }
}

/// `r` is what the filled template `outcome` gives: its first word is the
/// program and the rest its arguments.
pub open spec fn replay_command_result(
    r: Result<PreparedReplayCommand, RefereeError>,
    outcome: Result<Seq<Seq<char>>, Option<Seq<char>>>,
) -> bool {
    match outcome {
        Ok(words) => r matches Ok(cmd) && cmd.program@ == words[0] && views(cmd.args@) == words.drop_first(),
        Err(None) => r matches Err(RefereeError::BlankWatchReplay),
        Err(Some(placeholder)) => r matches Err(RefereeError::MissingPlaceholder(p)) && p@ == placeholder,
    }
}

/// Replaces the first word equal to `placeholder`.
fn replace_first_exec(parts: &mut Vec<String>, placeholder: &str, value: String) -> (found: bool)
    ensures
        match replace_first(views(old(parts)@), placeholder@, value@) {
            Some(next) => found && views(final(parts)@) == next,
            None => !found,
        },
        final(parts)@.len() == old(parts)@.len(),
{
    let ghost before = views(parts@);
    reveal(replace_first);
    let mut i: usize = 0;
    while i < parts.len()
        invariant
            0 <= i <= parts@.len(),
            views(parts@) == before,
            before == views(old(parts)@),
            forall|j: int| 0 <= j < i ==> before[j] != placeholder@,
        decreases parts.len() - i,
    {
        if str_equal(parts[i].as_str(), placeholder) {
            proof {
                reveal(replace_first);
                lemma_first_equal_at(before, placeholder@, i as int);
            }
            let ghost v = value@;
            parts.set(i, value);
            proof {
                assert(views(parts@) =~= before.update(i as int, v));
            }
            return true;
        }
        i += 1;
    }
    false
}

/// Fills in the placeholders of a `watch_replay` template (as
/// `shell_words::split` gave it).
pub fn fill_replay_template(
    parts: Vec<String>,
    artifact_path: &str,
    session_directory: &str,
    port: u16,
    participant_count: u8,
) -> (r: Result<PreparedReplayCommand, RefereeError>)
    ensures
        replay_command_result(r, fill_replay(views(parts@), artifact_path@, session_directory@, port, participant_count)),
{
    let ghost p0 = views(parts@);
    let mut parts = parts;
    if parts.len() == 0 {
        return Err(RefereeError::BlankWatchReplay);
    }
    if !replace_first_exec(&mut parts, "{REPLAY_PATH}", artifact_path.to_owned()) {
        return Err(RefereeError::MissingPlaceholder("{REPLAY_PATH}".to_owned()));
    }
    let ghost p1 = views(parts@);
    assert(replace_first(p0, "{REPLAY_PATH}"@, artifact_path@) == Some(p1));
    if !replace_first_exec(&mut parts, "{REPLAY_DIR}", session_directory.to_owned()) {
        return Err(RefereeError::MissingPlaceholder("{REPLAY_DIR}".to_owned()));
    }
    let ghost p2 = views(parts@);
    assert(replace_first(p1, "{REPLAY_DIR}"@, session_directory@) == Some(p2));
    let port_text = string_from_chars(&natural_decimal_chars(port as u64));
    if !replace_first_exec(&mut parts, "{PORT}", port_text) {
        return Err(RefereeError::MissingPlaceholder("{PORT}".to_owned()));
    }
    let ghost p3 = views(parts@);
    let count_text = string_from_chars(&natural_decimal_chars(participant_count as u64));
    if !replace_first_exec(&mut parts, "{PLAYER_COUNT}", count_text) {
        return Err(RefereeError::MissingPlaceholder("{PLAYER_COUNT}".to_owned()));
    }
    let ghost words = views(parts@);
    assert(fill_replay(p0, artifact_path@, session_directory@, port, participant_count) == Ok::<Seq<Seq<char>>, Option<Seq<char>>>(words));
    let program = parts.remove(0);
    proof {
        assert(views(parts@) =~= words.drop_first());
    }
    Ok(PreparedReplayCommand { program, args: parts })
}

/// The arguments that make a CodinGame referee serve a replay.
pub open spec fn codingame_replay_args(
    config: CodingameJarRefereeConfig,
    artifact: Seq<char>,
    temporary: Seq<char>,
    port: u16,
) -> Seq<Seq<char>> {
    seq!["-Djava.io.tmpdir="@ + temporary, "--add-opens"@, "java.base/java.lang=ALL-UNNAMED"@, "-jar"@, config.path@,
        "-r"@, artifact, "-port"@, crate::text::natural_digits(port as nat)]
}

impl<'a> RefereeAdapter<'a> {
    /// The command line that serves the replay at `artifact_path` on `port`,
    /// writing its pages to `session_directory`.
    pub fn prepare_replay_command(
        &self,
        artifact_path: &str,
        session_directory: &str,
        temporary_directory: &str,
        port: u16,
        participant_count: u8,
    ) -> (r: Result<PreparedReplayCommand, RefereeError>)
        ensures
            match self {
                RefereeAdapter::CodingameJar(c) => r matches Ok(cmd) && cmd.program@ == java_program(**c)
                    && views(cmd.args@) == codingame_replay_args(**c, artifact_path@, temporary_directory@, port),
                RefereeAdapter::ManagedCodingame(c) => r matches Ok(cmd) && exists|jar: CodingameJarRefereeConfig|
                    is_managed_jar(jar, **c) && cmd.program@ == java_program(jar)
                    && views(cmd.args@) == codingame_replay_args(jar, artifact_path@, temporary_directory@, port),
                RefereeAdapter::Command(c) => match shell_words_split(c.watch_replay@) {
                    None => r matches Err(RefereeError::WatchReplayQuoting),
                    Some(parts) => replay_command_result(r, fill_replay(parts, artifact_path@, session_directory@, port, participant_count)),
                },
            },
    {
        match self {
            RefereeAdapter::ManagedCodingame(config) => {
                let jar = managed_jar_exec(config);
                codingame_replay_command(&jar, artifact_path, temporary_directory, port)
            },
            RefereeAdapter::CodingameJar(config) => codingame_replay_command(config, artifact_path, temporary_directory, port),
            RefereeAdapter::Command(config) => match shell_split(config.watch_replay.as_str()) {
                None => Err(RefereeError::WatchReplayQuoting),
                Some(parts) => fill_replay_template(parts, artifact_path, session_directory, port, participant_count),
            },
        }
    }
}

/// The command that makes a CodinGame referee serve a replay.
fn codingame_replay_command(config: &CodingameJarRefereeConfig, artifact_path: &str, temporary_directory: &str, port: u16)
    -> (r: Result<PreparedReplayCommand, RefereeError>)
    ensures
        r matches Ok(cmd) && cmd.program@ == java_program(*config)
            && views(cmd.args@) == codingame_replay_args(*config, artifact_path@, temporary_directory@, port),
{
    let mut args: Vec<String> = Vec::new();
    push_string(&mut args, crate::text::concat_str("-Djava.io.tmpdir=", temporary_directory));
    push_text(&mut args, "--add-opens");
    push_text(&mut args, "java.base/java.lang=ALL-UNNAMED");
    push_text(&mut args, "-jar");
    push_string(&mut args, config.path.clone());
    push_text(&mut args, "-r");
    push_text(&mut args, artifact_path);
    push_text(&mut args, "-port");
    push_string(&mut args, string_from_chars(&natural_decimal_chars(port as u64)));
    proof {
        assert(views(args@) =~= codingame_replay_args(*config, artifact_path@, temporary_directory@, port));
    }
    Ok(PreparedReplayCommand { program: java_launcher(config), args })
}

/// A value a referee reported, for the whole match or one player, for the
/// whole match or one turn.
#[derive(Debug, Clone)]
pub struct MatchCommandAttribute {
    pub name: String,
    pub player: Option<usize>,
    pub turn: Option<u16>,
    pub value: String,
}

impl Default for MatchCommandAttribute {
    fn default() -> (r: MatchCommandAttribute)
        ensures
            r.name@ == Seq::<char>::empty(),
            r.player is None,
            r.turn is None,
            r.value@ == Seq::<char>::empty(),
    {
        MatchCommandAttribute { name: String::new(), player: None, turn: None, value: String::new() }
    }
}

/// What a referee reports of a played match: per player its score (may be
/// absent), rank (0 is best) and whether it erred, and the attributes.
#[derive(Debug)]
pub struct MatchCommandOutput {
    pub scores: Vec<i32>,
    pub ranks: Vec<u8>,
    pub errors: Vec<u8>,
    pub attributes: Vec<MatchCommandAttribute>,
}

/// Why a referee's report is refused.
#[derive(Debug, Clone, Copy, PartialEq, Eq, Structural)]
pub enum MatchResultError {
    /// Ranks and errors must come for every bot.
    WrongLength { bot_count: usize },
    /// Scores, where given, must come for every bot.
    WrongScoreCount { scores: usize, bot_count: usize },
    /// An attribute names a player who did not play.
    MissingPlayer { player: usize },
}

/// The attribute names a player outside `0..bot_count`.
pub open spec fn names_stray_player(a: MatchCommandAttribute, bot_count: usize) -> bool {
    a.player matches Some(p) && p >= bot_count
}

/// Position of the first attribute that names a player outside `0..bot_count`.
pub open spec fn first_stray_player(attributes: Seq<MatchCommandAttribute>, bot_count: usize) -> Option<int> {
    if exists|i: int| 0 <= i < attributes.len() && #[trigger] names_stray_player(attributes[i], bot_count) {
        Some(choose|i: int| 0 <= i < attributes.len() && #[trigger] names_stray_player(attributes[i], bot_count)
            && forall|j: int| 0 <= j < i ==> !names_stray_player(#[trigger] attributes[j], bot_count))
    } else {
        None
    }
}

/// Checks a referee's report of a match between `bot_count` bots.
pub fn validate_match_result(result: &MatchCommandOutput, bot_count: usize) -> (r: Result<(), MatchResultError>)
    ensures
        result.ranks@.len() != bot_count || result.errors@.len() != bot_count
            ==> r == Err::<(), MatchResultError>(MatchResultError::WrongLength { bot_count }),
        result.ranks@.len() == bot_count && result.errors@.len() == bot_count && result.scores@.len() != 0
            && result.scores@.len() != bot_count
            ==> r == Err::<(), MatchResultError>(MatchResultError::WrongScoreCount { scores: result.scores@.len() as usize, bot_count }),
        result.ranks@.len() == bot_count && result.errors@.len() == bot_count
            && (result.scores@.len() == 0 || result.scores@.len() == bot_count)
            ==> match first_stray_player(result.attributes@, bot_count) {
                Some(i) => r == Err::<(), MatchResultError>(MatchResultError::MissingPlayer { player: result.attributes@[i].player->0 }),
                None => r is Ok,
            },
{
    if result.ranks.len() != bot_count || result.errors.len() != bot_count {
        return Err(MatchResultError::WrongLength { bot_count });
    }
    if result.scores.len() != 0 && result.scores.len() != bot_count {
        return Err(MatchResultError::WrongScoreCount { scores: result.scores.len(), bot_count });
    }
    let attributes = &result.attributes;
    let mut i: usize = 0;
    while i < attributes.len()
        invariant
            0 <= i <= attributes@.len(),
            attributes@ == result.attributes@,
            result.ranks@.len() == bot_count && result.errors@.len() == bot_count,
            result.scores@.len() == 0 || result.scores@.len() == bot_count,
            forall|j: int| 0 <= j < i ==> !names_stray_player(#[trigger] attributes@[j], bot_count),
        decreases attributes.len() - i,
    {
        match attributes[i].player {
            Some(player) => {
                if player >= bot_count {
                    proof {
                        let a = attributes@;
                        assert(names_stray_player(a[i as int], bot_count));
                        assert(exists|w: int| 0 <= w < a.len() && #[trigger] names_stray_player(a[w], bot_count)
                            && forall|j: int| 0 <= j < w ==> !names_stray_player(#[trigger] a[j], bot_count));
                        let w = choose|w: int| 0 <= w < a.len() && #[trigger] names_stray_player(a[w], bot_count)
                            && forall|j: int| 0 <= j < w ==> !names_stray_player(#[trigger] a[j], bot_count);
                        if w < i {
                            assert(!names_stray_player(a[w], bot_count));
                        }
                        if w > i {
                            assert(!names_stray_player(a[i as int], bot_count));
                        }
                    }
                    return Err(MatchResultError::MissingPlayer { player });
                }
            },
            None => {},
        }
        i += 1;
    }
    Ok(())
}

/// Whether `c` is alphabetic or numeric in Unicode's sense.
pub uninterp spec fn unicode_alphanumeric(c: char) -> bool;

/// Calls `char::is_alphanumeric`.
#[verifier::external_body]
fn char_is_alphanumeric(c: char) -> (r: bool)
    ensures
        r == unicode_alphanumeric(c),
{
    c.is_alphanumeric()
}

/// A name of letters, digits and underscores, not empty.
pub open spec fn is_attribute_name(name: Seq<char>) -> bool {
    name.len() > 0 && forall|i: int| 0 <= i < name.len() ==> unicode_alphanumeric(#[trigger] name[i]) || name[i] == '_'
}

/// What a turn marker `[n]` and the rest of a line give: the turn and the
/// text after the marker, or the whole text when there is no marker.
pub open spec fn split_turn(rest: Seq<char>) -> Option<(Option<u16>, Seq<char>)> {
    if rest.len() > 0 && rest[0] == '[' {
        let inner = rest.drop_first();
        match crate::text::first_index_of(inner, ']') {
            None => None,
            Some(k) => match crate::text::parse_unsigned(inner.take(k), 65535) {
                None => None,
                Some(v) => Some((Some(v as u16), inner.skip(k + 1))),
            },
        }
    } else {
        Some((None, rest))
    }
}

/// The attribute a line of a CodinGame player's error output declares:
/// `[TDATA] name = value` for the match, `[PDATA] name = value` for that
/// player, either optionally with `[turn]` after the tag; the tags in any
/// letter case, spaces around the parts ignored.
pub open spec fn codingame_attribute(line: Seq<char>, player: usize) -> Option<(Seq<char>, Option<usize>, Option<u16>, Seq<char>)> {
    let t = crate::text::trim_chars(line);
    let tagged: Option<(Option<usize>, Seq<char>)> = if crate::text::starts_with_ignoring_ascii_case(t, "[TDATA]"@) {
        Some((None, t.skip("[TDATA]"@.len() as int)))
    } else if crate::text::starts_with_ignoring_ascii_case(t, "[PDATA]"@) {
        Some((Some(player), t.skip("[PDATA]"@.len() as int)))
    } else {
        None
    };
    match tagged {
        None => None,
        Some((owner, rest)) => match split_turn(crate::text::trim_start_chars(rest)) {
            None => None,
            Some((turn, after)) => {
                let body = crate::text::trim_chars(after);
                match crate::text::first_index_of(body, '=') {
                    None => None,
                    Some(e) => {
                        let name = crate::text::trim_chars(body.take(e));
                        if is_attribute_name(name) {
                            Some((name, owner, turn, crate::text::trim_chars(body.skip(e + 1))))
                        } else {
                            None
                        }
                    },
                }
            },
        },
    }
}

/// `value` after `prefix`, letter case of ASCII letters ignored.
pub fn strip_prefix_ignore_ascii_case<'a>(value: &'a str, prefix: &str) -> (r: Option<&'a str>)
    ensures
        r is Some <==> crate::text::starts_with_ignoring_ascii_case(value@, prefix@),
        r matches Some(rest) ==> rest@ == value@.skip(prefix@.len() as int),
{
    let v = chars_of(value);
    let p = chars_of(prefix);
    if v.len() < p.len() {
        return None;
    }
    let mut i: usize = 0;
    while i < p.len()
        invariant
            v@ == value@,
            p@ == prefix@,
            v@.len() >= p@.len(),
            0 <= i <= p@.len(),
            forall|j: int| 0 <= j < i ==> crate::text::ascii_lower(#[trigger] value@[j]) == crate::text::ascii_lower(prefix@[j]),
        decreases p.len() - i,
    {
        if !crate::text::chars_eq_ignore_ascii_case(v[i], p[i]) {
            return None;
        }
        i += 1;
    }
    let rest = value.substring_char(p.len(), v.len());
    assert(rest@ =~= value@.skip(prefix@.len() as int));
    Some(rest)
}

/// The turn marker at the start of `rest`, if any.
fn split_turn_exec(rest: &Vec<char>) -> (r: Option<(Option<u16>, Vec<char>)>)
    ensures
        match split_turn(rest@) {
            None => r is None,
            Some((turn, after)) => r matches Some((t, a)) && t == turn && a@ == after,
        },
{
    if rest.len() > 0 && rest[0] == '[' {
        let inner = copy_range(rest, 1, rest.len());
        assert(inner@ =~= rest@.drop_first());
        match crate::text::find_char(&inner, ']') {
            None => None,
            Some(k) => {
                let digits = copy_range(&inner, 0, k);
                assert(digits@ =~= inner@.take(k as int));
                match parse_unsigned_vec(&digits, 65535) {
                    None => None,
                    Some(v) => {
                        let after = copy_range(&inner, k + 1, inner.len());
                        assert(after@ =~= inner@.skip(k + 1));
                        Some((Some(v as u16), after))
                    },
                }
            },
        }
    } else {
        Some((None, copy_range(rest, 0, rest.len())))
    }
}

fn is_attribute_name_exec(name: &Vec<char>) -> (r: bool)
    ensures
        r == is_attribute_name(name@),
{
    if name.len() == 0 {
        return false;
    }
    let mut i: usize = 0;
    while i < name.len()
        invariant
            0 <= i <= name@.len(),
            forall|j: int| 0 <= j < i ==> unicode_alphanumeric(#[trigger] name@[j]) || name@[j] == '_',
        decreases name.len() - i,
    {
        if !(char_is_alphanumeric(name[i]) || name[i] == '_') {
            return false;
        }
        i += 1;
    }
    true
}

/// The attribute that a line of a CodinGame player's error output declares,
/// for player `player` where it is tagged `[PDATA]`.
pub fn parse_codingame_attribute(line: &str, player: usize) -> (r: Option<MatchCommandAttribute>)
    ensures
        match codingame_attribute(line@, player) {
            None => r is None,
            Some((name, owner, turn, value)) => r matches Some(a) && a.name@ == name && a.player == owner
                && a.turn == turn && a.value@ == value,
        },
{
    let t = crate::text::trim_vec(&chars_of(line));
    let text = string_from_chars(&t);
    let tagged: Option<(Option<usize>, &str)> = match strip_prefix_ignore_ascii_case(text.as_str(), "[TDATA]") {
        Some(rest) => Some((None, rest)),
        None => match strip_prefix_ignore_ascii_case(text.as_str(), "[PDATA]") {
            Some(rest) => Some((Some(player), rest)),
            None => None,
        },
    };
    let (owner, rest) = match tagged {
        None => return None,
        Some(pair) => pair,
    };
    let rest = crate::text::trim_start_vec(&chars_of(rest));
    let (turn, after) = match split_turn_exec(&rest) {
        None => return None,
        Some(pair) => pair,
    };
    let body = crate::text::trim_vec(&after);
    let found = crate::text::find_char(&body, '=');
    let e = match found {
        None => return None,
        Some(e) => e,
    };
    assert(e < body@.len());
    let raw_name = copy_range(&body, 0, e);
    let name = crate::text::trim_vec(&raw_name);
    assert(raw_name@ =~= body@.take(e as int));
    if !is_attribute_name_exec(&name) {
        return None;
    }
    let raw_value = copy_range(&body, e + 1, body.len());
    assert(raw_value@ =~= body@.skip(e + 1));
    let value = crate::text::trim_vec(&raw_value);
    Some(MatchCommandAttribute {
        name: string_from_chars(&name),
        player: owner,
        turn,
        value: string_from_chars(&value),
    })
}


/// What is read of a CodinGame replay file (JSON): the entries of its
/// `scores` object, each with its value where that is an integer that fits
/// an `i64`, and the entries of its `errors` object, each with the items of
/// its value where that is an array (an item's text where it is a string)
/// and no items otherwise; `None` where the file has no such object.
/// Within an object, keys are distinct.
pub struct CodingameReplay {
    pub scores: Option<Vec<(String, Option<i64>)>>,
    pub errors: Option<Vec<(String, Vec<Option<String>>)>>,
}

/// Why a CodinGame replay gives no match result.
#[derive(Debug, Clone, Copy, PartialEq, Eq, Structural)]
pub enum CodingameReplayError {
    /// The replay has no `scores` object.
    NoScores,
    /// The number of scores is not the number of bots.
    ScoreCount { scores: usize, players: usize },
    /// A player's score is missing or not an integer.
    ScoreNotInteger,
    /// A player's score does not fit an `i32`.
    ScoreOutOfRange,
}

/// Value of the entry with key `key`.
pub open spec fn lookup_text<V>(entries: Seq<(String, V)>, key: Seq<char>) -> Option<V>
    decreases entries.len(),
{
    if entries.len() == 0 {
        None
    } else if entries[0].0@ == key {
        Some(entries[0].1)
    } else {
        lookup_text(entries.drop_first(), key)
    }
}

/// The scores of players `0..n`, read under the keys `"0"`, `"1"`, ...;
/// the first player without a fitting integer score decides the error.
pub open spec fn scores_of(entries: Seq<(String, Option<i64>)>, n: nat) -> Result<Seq<i32>, CodingameReplayError>
    decreases n,
{
    if n == 0 {
        Ok(Seq::empty())
    } else {
        match scores_of(entries, (n - 1) as nat) {
            Err(e) => Err(e),
            Ok(prev) => match lookup_text(entries, crate::text::natural_digits((n - 1) as nat)) {
                Some(Some(v)) => if i32::MIN <= v && v <= i32::MAX {
                    Ok(prev.push(v as i32))
                } else {
                    Err(CodingameReplayError::ScoreOutOfRange)
                },
                _ => Err(CodingameReplayError::ScoreNotInteger),
            },
        }
    }
}

/// How many of the first `n` scores are greater than `x`.
pub open spec fn greater_count(scores: Seq<i32>, x: i32, n: int) -> nat
    decreases n,
{
    if n <= 0 {
        0
    } else if x < scores[n - 1] {
        greater_count(scores, x, n - 1) + 1
    } else {
        greater_count(scores, x, n - 1)
    }
}

/// The rank of player `i`: the number of players who scored more (kept in
/// a byte, as the referee protocol does).
pub open spec fn rank_of(scores: Seq<i32>, i: int) -> u8 {
    (greater_count(scores, scores[i], scores.len() as int) % 256) as u8
}

/// An attribute as a tuple of name, player, turn and value.
pub open spec fn attribute_view(a: MatchCommandAttribute) -> (Seq<char>, Option<usize>, Option<u16>, Seq<char>) {
    (a.name@, a.player, a.turn, a.value@)
}

/// The attributes the lines declare, in order.
pub open spec fn lines_attributes(lines: Seq<Seq<char>>, player: usize) -> Seq<(Seq<char>, Option<usize>, Option<u16>, Seq<char>)>
    decreases lines.len(),
{
    if lines.len() == 0 {
        Seq::empty()
    } else {
        let prev = lines_attributes(lines.drop_last(), player);
        match codingame_attribute(lines.last(), player) {
            Some(a) => prev.push(a),
            None => prev,
        }
    }
}

/// The lines of each text, one after another; items that are not texts
/// give none.
pub open spec fn texts_lines(texts: Seq<Option<String>>) -> Seq<Seq<char>>
    decreases texts.len(),
{
    if texts.len() == 0 {
        Seq::empty()
    } else {
        texts_lines(texts.drop_last()) + match texts.last() {
            Some(t) => crate::text::text_lines(t@),
            None => Seq::empty(),
        }
    }
}

/// The entries of an `errors` object.
pub open spec fn errors_view(errors: Option<Vec<(String, Vec<Option<String>>)>>) -> Option<Seq<(String, Vec<Option<String>>)>> {
    match errors {
        Some(e) => Some(e@),
        None => None,
    }
}

/// The attributes in the error output of player `player`.
pub open spec fn player_attributes(
    errors: Option<Seq<(String, Vec<Option<String>>)>>,
    player: usize,
) -> Seq<(Seq<char>, Option<usize>, Option<u16>, Seq<char>)> {
    match errors {
        None => Seq::empty(),
        Some(entries) => match lookup_text(entries, crate::text::natural_digits(player as nat)) {
            None => Seq::empty(),
            Some(texts) => lines_attributes(texts_lines(texts@), player),
        },
    }
}

/// The attributes in the error output of players `0..n`, player by player.
pub open spec fn replay_attributes(
    errors: Option<Seq<(String, Vec<Option<String>>)>>,
    n: nat,
) -> Seq<(Seq<char>, Option<usize>, Option<u16>, Seq<char>)>
    decreases n,
{
    if n == 0 {
        Seq::empty()
    } else {
        replay_attributes(errors, (n - 1) as nat) + player_attributes(errors, (n - 1) as usize)
    }
}

fn lookup_text_exec<V: Copy>(entries: &Vec<(String, V)>, key: &str) -> (r: Option<V>)
    ensures
        r == lookup_text(entries@, key@),
{
    let mut i: usize = 0;
    assert(entries@.skip(0) =~= entries@);
    while i < entries.len()
        invariant
            0 <= i <= entries@.len(),
            lookup_text(entries@, key@) == lookup_text(entries@.skip(i as int), key@),
        decreases entries.len() - i,
    {
        proof {
            assert(entries@.skip(i as int).drop_first() =~= entries@.skip(i + 1));
            assert(entries@.skip(i as int)[0] == entries@[i as int]);
        }
        if str_equal(entries[i].0.as_str(), key) {
            return Some(entries[i].1);
        }
        i += 1;
    }
    None
}

fn lookup_texts<'a>(entries: &'a Vec<(String, Vec<Option<String>>)>, key: &str) -> (r: Option<&'a Vec<Option<String>>>)
    ensures
        match lookup_text(entries@, key@) {
            None => r is None,
            Some(texts) => r matches Some(t) && *t == texts,
        },
{
    let mut i: usize = 0;
    assert(entries@.skip(0) =~= entries@);
    while i < entries.len()
        invariant
            0 <= i <= entries@.len(),
            lookup_text(entries@, key@) == lookup_text(entries@.skip(i as int), key@),
        decreases entries.len() - i,
    {
        proof {
            assert(entries@.skip(i as int).drop_first() =~= entries@.skip(i + 1));
            assert(entries@.skip(i as int)[0] == entries@[i as int]);
        }
        if str_equal(entries[i].0.as_str(), key) {
            return Some(&entries[i].1);
        }
        i += 1;
    }
    None
}

/// The attributes in the error output of one player.
fn collect_player_attributes(errors: &Option<Vec<(String, Vec<Option<String>>)>>, player: usize, out: &mut Vec<MatchCommandAttribute>)
    ensures
        final(out)@.map_values(|a: MatchCommandAttribute| attribute_view(a)) == old(out)@.map_values(|a: MatchCommandAttribute| attribute_view(a))
            + player_attributes(errors_view(*errors), player),
{
    let ghost start = out@.map_values(|a: MatchCommandAttribute| attribute_view(a));
    let entries = match errors {
        None => {
            assert(start + Seq::<(Seq<char>, Option<usize>, Option<u16>, Seq<char>)>::empty() =~= start);
            return;
        },
        Some(entries) => entries,
    };
    let key = string_from_chars(&natural_decimal_chars(player as u64));
    let texts = match lookup_texts(entries, key.as_str()) {
        None => {
            assert(start + Seq::<(Seq<char>, Option<usize>, Option<u16>, Seq<char>)>::empty() =~= start);
            return;
        },
        Some(texts) => texts,
    };
    let mut lines: Vec<String> = Vec::new();
    let mut t: usize = 0;
    while t < texts.len()
        invariant
            0 <= t <= texts@.len(),
            crate::text::line_texts(lines@) == texts_lines(texts@.subrange(0, t as int)),
        decreases texts.len() - t,
    {
        let more = match &texts[t] {
            Some(text) => crate::text::lines_of(text.as_str()),
            None => Vec::new(),
        };
        proof {
            if texts@[t as int] is None {
                assert(crate::text::line_texts(more@) =~= Seq::<Seq<char>>::empty());
            }
        }
        let ghost before = crate::text::line_texts(lines@);
        let mut k: usize = 0;
        while k < more.len()
            invariant
                0 <= k <= more@.len(),
                crate::text::line_texts(lines@) == before + crate::text::line_texts(more@).subrange(0, k as int),
            decreases more.len() - k,
        {
            let ghost prev = lines@;
            lines.push(more[k].clone());
            proof {
                assert(crate::text::line_texts(lines@) =~= crate::text::line_texts(prev).push(more@[k as int]@));
                assert(crate::text::line_texts(more@).subrange(0, k + 1) =~= crate::text::line_texts(more@).subrange(0, k as int).push(more@[k as int]@));
            }
            k += 1;
        }
        proof {
            assert(crate::text::line_texts(more@).subrange(0, more@.len() as int) =~= crate::text::line_texts(more@));
            assert(texts@.subrange(0, t + 1).drop_last() =~= texts@.subrange(0, t as int));
        }
        t += 1;
    }
    proof {
        assert(texts@.subrange(0, texts@.len() as int) =~= texts@);
    }
    let ghost all_lines = crate::text::line_texts(lines@);
    let mut j: usize = 0;
    while j < lines.len()
        invariant
            0 <= j <= lines@.len(),
            all_lines == crate::text::line_texts(lines@),
            out@.map_values(|a: MatchCommandAttribute| attribute_view(a)) == start + lines_attributes(all_lines.subrange(0, j as int), player),
        decreases lines.len() - j,
    {
        let ghost prev = out@;
        proof {
            assert(all_lines.subrange(0, j + 1).drop_last() =~= all_lines.subrange(0, j as int));
            assert(all_lines.subrange(0, j + 1).last() == lines@[j as int]@);
        }
        match parse_codingame_attribute(lines[j].as_str(), player) {
            Some(a) => {
                out.push(a);
                proof {
                    assert(out@.map_values(|a: MatchCommandAttribute| attribute_view(a))
                        =~= prev.map_values(|a: MatchCommandAttribute| attribute_view(a)).push(attribute_view(out@.last())));
                }
            },
            None => {},
        }
        j += 1;
    }
    proof {
        assert(all_lines.subrange(0, all_lines.len() as int) =~= all_lines);
    }
}

/// The number of scores greater than `x`.
fn count_greater(scores: &Vec<i32>, x: i32) -> (r: usize)
    ensures
        r == greater_count(scores@, x, scores@.len() as int),
{
    let mut count: usize = 0;
    let mut j: usize = 0;
    while j < scores.len()
        invariant
            0 <= j <= scores@.len(),
            count == greater_count(scores@, x, j as int),
            count <= j,
        decreases scores.len() - j,
    {
        if x < scores[j] {
            count += 1;
        }
        j += 1;
    }
    count
}

/// `r` is the result of a match between `player_count` bots as read from
/// the replay: refused without a `scores` object or with another number of
/// scores, or by the first player without a score that fits an `i32`;
/// otherwise the scores, the ranks (the number of players who scored
/// more), an error for each negative score, and the attributes the
/// players declared in their error output.
pub open spec fn codingame_result(replay: CodingameReplay, player_count: usize, r: Result<MatchCommandOutput, CodingameReplayError>) -> bool {
    match replay.scores {
        None => r == Err::<MatchCommandOutput, CodingameReplayError>(CodingameReplayError::NoScores),
        Some(entries) => if entries@.len() != player_count {
            r == Err::<MatchCommandOutput, CodingameReplayError>(CodingameReplayError::ScoreCount { scores: entries@.len() as usize, players: player_count })
        } else {
            match scores_of(entries@, player_count as nat) {
                Err(e) => r == Err::<MatchCommandOutput, CodingameReplayError>(e),
                Ok(scores) => r matches Ok(out) && out.scores@ == scores
                    && out.ranks@.len() == player_count && out.errors@.len() == player_count
                    && (forall|i: int| 0 <= i < player_count ==> out.ranks@[i] == rank_of(scores, i)
                        && out.errors@[i] == (if scores[i] < 0 { 1u8 } else { 0u8 }))
                    && out.attributes@.map_values(|a: MatchCommandAttribute| attribute_view(a))
                        == replay_attributes(errors_view(replay.errors), player_count as nat),
            }
        },
    }
}

/// The replay that `serde_json` reads from `bytes`: its `scores` and
/// `errors` objects as `CodingameReplay` holds them; none where the bytes
/// are not JSON.
pub uninterp spec fn codingame_replay_json(bytes: Seq<u8>) -> Option<CodingameReplay>;

/// What `serde_json` reads of a replay's `agents`: none where the bytes are
/// not JSON, `Some(None)` where there is no `agents` array, else its length.
pub uninterp spec fn replay_agents_json(bytes: Seq<u8>) -> Option<Option<usize>>;

/// Reads a CodinGame replay with `serde_json::from_slice` into a JSON
/// value and carries its `scores` and `errors` objects over (integer
/// scores as `i64`, array items as strings where they are strings).
#[verifier::external_body]
pub fn codingame_replay_from_json(bytes: &[u8]) -> (r: Option<CodingameReplay>)
    ensures
        r == codingame_replay_json(bytes@),
{
    let v: Value = serde_json::from_slice(bytes).ok()?;
    let scores = v.get("scores").and_then(Value::as_object)
        .map(|m| m.iter().map(|(k, x)| (k.clone(), x.as_i64())).collect());
    let errors = v.get("errors").and_then(Value::as_object).map(|m| m.iter().map(|(k, x)| (k.clone(),
        x.as_array().map_or(Vec::new(), |a| a.iter().map(|i| i.as_str().map(String::from)).collect()))).collect());
    Some(CodingameReplay { scores, errors })
}

/// Reads a replay with `serde_json::from_slice` and gives the length of its
/// `agents` array.
#[verifier::external_body]
pub fn replay_agent_count(bytes: &[u8]) -> (r: Option<Option<usize>>)
    ensures
        r == replay_agents_json(bytes@),
{
    let v: Value = serde_json::from_slice(bytes).ok()?;
    Some(v.get("agents").and_then(Value::as_array).map(Vec::len))
}

/// Why a replay file gives no match result: it is not JSON, or the replay
/// refuses.
#[derive(Debug, Clone, Copy, PartialEq, Eq, Structural)]
pub enum ReplayFileError {
    NotJson,
    Replay(CodingameReplayError),
}

/// The result of a match between `player_count` bots, read from the bytes
/// of its CodinGame replay file.
pub fn read_codingame_match_result(bytes: &[u8], player_count: usize) -> (r: Result<MatchCommandOutput, ReplayFileError>)
    ensures
        match codingame_replay_json(bytes@) {
            None => r == Err::<MatchCommandOutput, ReplayFileError>(ReplayFileError::NotJson),
            Some(replay) => exists|inner: Result<MatchCommandOutput, CodingameReplayError>| #[trigger] codingame_result(replay, player_count, inner)
                && match inner {
                    Ok(out) => r == Ok::<MatchCommandOutput, ReplayFileError>(out),
                    Err(e) => r == Err::<MatchCommandOutput, ReplayFileError>(ReplayFileError::Replay(e)),
                },
        },
{
    match codingame_replay_from_json(bytes) {
        None => Err(ReplayFileError::NotJson),
        Some(replay) => match codingame_match_result(&replay, player_count) {
            Ok(out) => Ok(out),
            Err(e) => Err(ReplayFileError::Replay(e)),
        },
    }
}

/// Checks that the CodinGame replay file with these bytes belongs to a
/// match of `participant_count` bots; `None` where the bytes are not JSON.
pub fn validate_codingame_replay(bytes: &[u8], participant_count: u8) -> (r: Option<Result<(), ReplayCheckError>>)
    ensures
        match replay_agents_json(bytes@) {
            None => r is None,
            Some(agents) => r matches Some(inner) && match agents {
                None => inner == Err::<(), ReplayCheckError>(ReplayCheckError::NoAgents),
                Some(n) => if n == participant_count as usize {
                    inner is Ok
                } else {
                    inner == Err::<(), ReplayCheckError>(ReplayCheckError::ParticipantMismatch { agents: n, participants: participant_count })
                },
            },
        },
{
    match replay_agent_count(bytes) {
        None => None,
        Some(agents) => Some(check_replay_participants(agents, participant_count)),
    }
}

/// The result of a match played by a CodinGame referee between
/// `player_count` bots, read from its replay: the scores, the ranks (the
/// number of players who scored more), an error for each negative score,
/// and the attributes the players declared in their error output.
pub fn codingame_match_result(replay: &CodingameReplay, player_count: usize) -> (r: Result<MatchCommandOutput, CodingameReplayError>)
    ensures
        codingame_result(*replay, player_count, r),
{
    let entries = match &replay.scores {
        None => return Err(CodingameReplayError::NoScores),
        Some(entries) => entries,
    };
    if entries.len() != player_count {
        return Err(CodingameReplayError::ScoreCount { scores: entries.len(), players: player_count });
    }
    let mut scores: Vec<i32> = Vec::new();
    let mut p: usize = 0;
    while p < player_count
        invariant
            0 <= p <= player_count,
            replay.scores matches Some(e) && e@ == entries@,
            entries@.len() == player_count,
            scores_of(entries@, p as nat) == Ok::<Seq<i32>, CodingameReplayError>(scores@),
        decreases player_count - p,
    {
        let key = string_from_chars(&natural_decimal_chars(p as u64));
        match lookup_text_exec(entries, key.as_str()) {
            Some(Some(v)) => {
                if v < -2147483648i64 || v > 2147483647i64 {
                    proof {
                        lemma_scores_error_persists(entries@, (p + 1) as nat, player_count as nat);
                    }
                    return Err(CodingameReplayError::ScoreOutOfRange);
                }
                scores.push(v as i32);
            },
            _ => {
                proof {
                    lemma_scores_error_persists(entries@, (p + 1) as nat, player_count as nat);
                }
                return Err(CodingameReplayError::ScoreNotInteger);
            },
        }
        p += 1;
    }
    let mut attributes: Vec<MatchCommandAttribute> = Vec::new();
    let ghost errors = errors_view(replay.errors);
    let mut q: usize = 0;
    while q < player_count
        invariant
            0 <= q <= player_count,
            errors == (errors_view(replay.errors)),
            attributes@.map_values(|a: MatchCommandAttribute| attribute_view(a)) == replay_attributes(errors, q as nat),
        decreases player_count - q,
    {
        collect_player_attributes(&replay.errors, q, &mut attributes);
        q += 1;
    }
    let mut ranks: Vec<u8> = Vec::new();
    let mut errors_out: Vec<u8> = Vec::new();
    let mut i: usize = 0;
    while i < scores.len()
        invariant
            0 <= i <= scores@.len(),
            ranks@.len() == i && errors_out@.len() == i,
            forall|k: int| 0 <= k < i ==> ranks@[k] == rank_of(scores@, k)
                && errors_out@[k] == (if scores@[k] < 0 { 1u8 } else { 0u8 }),
        decreases scores.len() - i,
    {
        let count = count_greater(&scores, scores[i]);
        ranks.push((count % 256) as u8);
        errors_out.push(if scores[i] < 0 { 1 } else { 0 });
        i += 1;
    }
    proof {
        lemma_scores_len(entries@, player_count as nat);
    }
    Ok(MatchCommandOutput { scores, ranks, errors: errors_out, attributes })
}

proof fn lemma_scores_len(entries: Seq<(String, Option<i64>)>, n: nat)
    ensures
        scores_of(entries, n) matches Ok(s) ==> s.len() == n,
    decreases n,
{
    if n > 0 {
        lemma_scores_len(entries, (n - 1) as nat);
    }
}

proof fn lemma_scores_error_persists(entries: Seq<(String, Option<i64>)>, m: nat, n: nat)
    requires
        m <= n,
        scores_of(entries, m) is Err,
    ensures
        scores_of(entries, n) == scores_of(entries, m),
    decreases n - m,
{
    if m < n {
        lemma_scores_error_persists(entries, m, (n - 1) as nat);
    }
}


impl RefereeError {
    /// The message shown for the error.
    pub open spec fn message(&self) -> Seq<char> {
        match self {
            RefereeError::CodingameReplayPathMissing => "codingame referee requires a replay path"@,
            RefereeError::PlayMatchQuoting => "invalid command referee play_match quoting"@,
            RefereeError::CommandReplayPathMissing => "command referee requires a replay path"@,
            RefereeError::MissingPlayer(part) => "command referee references missing "@ + part@,
            RefereeError::BlankPlayMatch => "command referee play_match must not be blank"@,
            RefereeError::WatchReplayQuoting => "invalid command referee watch_replay"@,
            RefereeError::BlankWatchReplay => "command referee watch_replay must not be blank"@,
            RefereeError::MissingPlaceholder(p) => "command referee watch_replay must contain "@ + p@,
        }
    }

    /// The message shown for the error.
    pub fn to_string(&self) -> (r: String)
        ensures
            r@ == self.message(),
    {
        match self {
            RefereeError::CodingameReplayPathMissing => "codingame referee requires a replay path".to_owned(),
            RefereeError::PlayMatchQuoting => "invalid command referee play_match quoting".to_owned(),
            RefereeError::CommandReplayPathMissing => "command referee requires a replay path".to_owned(),
            RefereeError::MissingPlayer(part) => crate::text::concat_str("command referee references missing ", part.as_str()),
            RefereeError::BlankPlayMatch => "command referee play_match must not be blank".to_owned(),
            RefereeError::WatchReplayQuoting => "invalid command referee watch_replay".to_owned(),
            RefereeError::BlankWatchReplay => "command referee watch_replay must not be blank".to_owned(),
            RefereeError::MissingPlaceholder(p) => crate::text::concat_str("command referee watch_replay must contain ", p.as_str()),
        }
    }
}

/// A configured path: as it is when absolute, else within the arena.
pub fn resolve_path(arena_path: &str, configured_path: &str) -> (r: String)
    ensures
        r@ == if crate::paths::path_is_absolute(configured_path@) {
            configured_path@
        } else {
            crate::paths::path_joined(arena_path@, configured_path@)
        },
{
    if is_absolute_path(configured_path) {
        configured_path.to_owned()
    } else {
        join_path(arena_path, configured_path)
    }
}

/// Why a CodinGame replay cannot be served.
#[derive(Debug, Clone, Copy, PartialEq, Eq, Structural)]
pub enum ReplayCheckError {
    /// The replay has no `agents` array.
    NoAgents,
    /// The replay's agents are not the match's participants.
    ParticipantMismatch { agents: usize, participants: u8 },
}

/// Checks that a CodinGame replay with `agents` agents (`None` when it has
/// no `agents` array) belongs to a match of `participant_count` bots.
pub fn check_replay_participants(agents: Option<usize>, participant_count: u8) -> (r: Result<(), ReplayCheckError>)
    ensures
        match agents {
            None => r == Err::<(), ReplayCheckError>(ReplayCheckError::NoAgents),
            Some(n) => if n == participant_count as usize {
                r is Ok
            } else {
                r == Err::<(), ReplayCheckError>(ReplayCheckError::ParticipantMismatch { agents: n, participants: participant_count })
            },
        },
{
    match agents {
        None => Err(ReplayCheckError::NoAgents),
        Some(n) => if n == participant_count as usize {
            Ok(())
        } else {
            Err(ReplayCheckError::ParticipantMismatch { agents: n, participants: participant_count })
        },
    }
}

/// The argument that asks a referee JAR which protocol it speaks.
pub const COMPATIBILITY_ARGUMENT: &'static str = "--cgarena-compat";

/// The protocol that a referee JAR must report to be used.
pub const COMPATIBILITY_VERSION: &'static str = "cgarena-referee-v1";

/// Whether a referee JAR that was asked for its protocol answered with the
/// supported one: it exited successfully and some line of its standard
/// output, trimmed, is the supported protocol.
pub fn referee_compatible(succeeded: bool, stdout: &str) -> (r: bool)
    ensures
        r == (succeeded && has_trimmed_line(stdout@, COMPATIBILITY_VERSION@)),
{
    succeeded && contains_trimmed_line(stdout, COMPATIBILITY_VERSION)
}

/// What a refused referee JAR said: its standard error, trimmed, or its
/// standard output, trimmed, where the error stream was blank.
pub fn startup_diagnostic(stdout: &str, stderr: &str) -> (r: String)
    ensures
        r@ == if trim_chars(stderr@).len() == 0 { trim_chars(stdout@) } else { trim_chars(stderr@) },
{
    let err = trim_vec(&chars_of(stderr));
    if err.len() == 0 {
        string_from_chars(&trim_vec(&chars_of(stdout)))
    } else {
        string_from_chars(&err)
    }
}

/// The renderer's `app.js` made to load from its own bundle directory: the
/// imports of `../config.js` and `../demo.js` become `./config.js` and
/// `./demo.js`, and the viewer URL `/core/Drawer.js` becomes
/// `./core/Drawer.js`, each occurrence replaced in that order.
pub fn normalized_app_script(content: &str) -> (r: String)
    ensures
        r@ == replace_all(
            replace_all(
                replace_all(content@, "from '../config.js'"@, "from './config.js'"@),
                "from '../demo.js'"@,
                "from './demo.js'"@,
            ),
            "viewerUrl: '/core/Drawer.js'"@,
            "viewerUrl: './core/Drawer.js'"@,
        ),
{
    proof {
        reveal_strlit("from '../config.js'");
        reveal_strlit("from '../demo.js'");
        reveal_strlit("viewerUrl: '/core/Drawer.js'");
    }
    let config = replace_text(content, "from '../config.js'", "from './config.js'");
    let demo = replace_text(config.as_str(), "from '../demo.js'", "from './demo.js'");
    replace_text(demo.as_str(), "viewerUrl: '/core/Drawer.js'", "viewerUrl: './core/Drawer.js'")
}

/// The decimal text of a count.
fn count_text(n: usize) -> (r: String)
    ensures
        r@ == crate::text::natural_digits(n as nat),
{
    string_from_chars(&natural_decimal_chars(n as u64))
}

/// `a`, the decimal text of `n`, then `b`.
fn around_count(a: &str, n: usize, b: &str) -> (r: String)
    ensures
        r@ == a@ + crate::text::natural_digits(n as nat) + b@,
{
    let head = crate::text::concat_str(a, count_text(n).as_str());
    crate::text::concat_str(head.as_str(), b)
}

impl MatchResultError {
    /// The message shown for the error.
    pub open spec fn message(&self) -> Seq<char> {
        match self {
            MatchResultError::WrongLength { bot_count } => "play match output must contain ranks and errors for "@
                + crate::text::natural_digits(*bot_count as nat) + " bots"@,
            MatchResultError::WrongScoreCount { scores, bot_count } => "play match output has "@ + crate::text::natural_digits(
                *scores as nat,
            ) + " scores for "@ + crate::text::natural_digits(*bot_count as nat) + " bots"@,
            MatchResultError::MissingPlayer { player } => "play match output references missing player "@
                + crate::text::natural_digits(*player as nat),
        }
    }

    /// The message shown for the error.
    pub fn to_string(&self) -> (r: String)
        ensures
            r@ == self.message(),
    {
        match self {
            MatchResultError::WrongLength { bot_count } => around_count(
                "play match output must contain ranks and errors for ",
                *bot_count,
                " bots",
            ),
            MatchResultError::WrongScoreCount { scores, bot_count } => {
                let head = around_count("play match output has ", *scores, " scores for ");
                let r = crate::text::concat_str(head.as_str(), around_count("", *bot_count, " bots").as_str());
                proof {
                    reveal_strlit("");
                }
                assert(r@ =~= self.message());
                r
            },
            MatchResultError::MissingPlayer { player } => {
                let r = around_count("play match output references missing player ", *player, "");
                proof {
                    reveal_strlit("");
                }
                assert(r@ =~= self.message());
                r
            },
        }
    }
}

impl CodingameReplayError {
    /// The message shown for the error.
    pub open spec fn message(&self) -> Seq<char> {
        match self {
            CodingameReplayError::NoScores => "codingame replay artifact has no scores object"@,
            CodingameReplayError::ScoreCount { scores, players } => "codingame replay has "@ + crate::text::natural_digits(
                *scores as nat,
            ) + " scores for "@ + crate::text::natural_digits(*players as nat) + " bots"@,
            CodingameReplayError::ScoreNotInteger => "codingame replay score is not an integer"@,
            CodingameReplayError::ScoreOutOfRange => "codingame replay score is out of range"@,
        }
    }

    /// The message shown for the error.
    pub fn to_string(&self) -> (r: String)
        ensures
            r@ == self.message(),
    {
        match self {
            CodingameReplayError::NoScores => "codingame replay artifact has no scores object".to_string(),
            CodingameReplayError::ScoreCount { scores, players } => {
                let head = around_count("codingame replay has ", *scores, " scores for ");
                let r = crate::text::concat_str(head.as_str(), around_count("", *players, " bots").as_str());
                proof {
                    reveal_strlit("");
                }
                assert(r@ =~= self.message());
                r
            },
            CodingameReplayError::ScoreNotInteger => "codingame replay score is not an integer".to_string(),
            CodingameReplayError::ScoreOutOfRange => "codingame replay score is out of range".to_string(),
        }
    }
}

impl ReplayFileError {
    /// The message shown for the error.
    pub open spec fn message(&self) -> Seq<char> {
        match self {
            ReplayFileError::NotJson => "codingame replay artifact must be valid JSON"@,
            ReplayFileError::Replay(e) => e.message(),
        }
    }

    /// The message shown for the error.
    pub fn to_string(&self) -> (r: String)
        ensures
            r@ == self.message(),
    {
        match self {
            ReplayFileError::NotJson => "codingame replay artifact must be valid JSON".to_string(),
            ReplayFileError::Replay(e) => e.to_string(),
        }
    }
}

impl ReplayCheckError {
    /// The message shown for the error.
    pub open spec fn message(&self) -> Seq<char> {
        match self {
            ReplayCheckError::NoAgents => "artifact has no agents array"@,
            ReplayCheckError::ParticipantMismatch { agents, participants } => "artifact has "@ + crate::text::natural_digits(
                *agents as nat,
            ) + " participants, match has "@ + crate::text::natural_digits(*participants as nat),
        }
    }

    /// The message shown for the error.
    pub fn to_string(&self) -> (r: String)
        ensures
            r@ == self.message(),
    {
        match self {
            ReplayCheckError::NoAgents => "artifact has no agents array".to_string(),
            ReplayCheckError::ParticipantMismatch { agents, participants } => {
                let head = around_count("artifact has ", *agents, " participants, match has ");
                let r = crate::text::concat_str(head.as_str(), around_count("", *participants as usize, "").as_str());
                proof {
                    reveal_strlit("");
                }
                assert(r@ =~= self.message());
                r
            },
        }
    }
}

} // verus!

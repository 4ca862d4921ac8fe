//! The embedded worker's command lines: building a bot, running it, and
//! playing a match, and what a played match yields. The application runs
//! the commands.
use vstd::prelude::*;
use crate::domain::builds::BuildResult;
use crate::domain::ids::BotId;
use crate::domain::matches::Participant;
use crate::domain::names::{Language, SourceCode, WorkerName};
use crate::referee_adapter::views;
use crate::text::{replace_text, split_ascii_whitespace_vec, str_equal};

verus! {

/// A bot to build on a worker.
pub struct BuildBotInput {
    pub bot_id: BotId,
    pub worker_name: WorkerName,
    pub source_code: SourceCode,
    pub language: Language,
}

/// The outcome of building a bot on a worker.
pub struct BuildBotOutput {
    pub bot_id: BotId,
    pub worker_name: WorkerName,
    pub result: BuildResult,
}

/// A bot that plays in a match.
pub struct PlayMatchBot {
    pub bot_id: BotId,
    pub language: Language,
}

/// A match to play: its bots, in seat order, and its seed.
pub struct PlayMatchInput {
    pub bots: Vec<PlayMatchBot>,
    pub seed: i64,
}

/// What a played match yields: its seed and each bot's seat.
pub struct PlayMatchOutput {
    pub seed: i64,
    pub participants: Vec<Participant>,
}

/// What the match command prints: each bot's rank and error flag, in seat
/// order.
pub struct CmdPlayMatchStdout {
    pub ranks: Vec<u8>,
    pub errors: Vec<u8>,
}

/// The directory of a bot, relative to the worker: `bots/<id>`.
pub open spec fn bot_directory_of(bot_id: BotId) -> Seq<char> {
    crate::paths::path_joined("bots"@, crate::text::decimal(bot_id.0 as int))
}

pub fn bot_directory(bot_id: BotId) -> (r: String)
    ensures
        r@ == bot_directory_of(bot_id),
{
    let id = crate::text::decimal_string(bot_id.0);
    crate::paths::join_path("bots", id.as_str())
}

/// A word of a build command: `{DIR}` becomes the bot's directory, `{LANG}`
/// its language.
pub open spec fn build_word(word: Seq<char>, dir: Seq<char>, language: Seq<char>) -> Seq<char> {
    if word == "{DIR}"@ {
        dir
    } else if word == "{LANG}"@ {
        language
    } else {
        word
    }
}

/// The command that builds a bot: the words of `cmd_build` with the
/// placeholders filled in.
pub fn build_command_parts(cmd_build: &str, dir: &str, language: &str) -> (r: Vec<String>)
    ensures
        views(r@) == crate::text::ascii_words_of(cmd_build@).map_values(|w: Seq<char>| build_word(w, dir@, language@)),
{
    let words = split_ascii_whitespace_vec(cmd_build);
    let ghost ws = views(words@);
    proof {
        assert(ws =~= crate::text::ascii_words_of(cmd_build@));
    }
    let mut out: Vec<String> = Vec::new();
    let mut i: usize = 0;
    while i < words.len()
        invariant
            0 <= i <= words@.len(),
            ws == views(words@),
            views(out@) == ws.take(i as int).map_values(|w: Seq<char>| build_word(w, dir@, language@)),
        decreases words.len() - i,
    {
        let word = words[i].as_str();
        let part = if str_equal(word, "{DIR}") {
            dir.to_owned()
        } else if str_equal(word, "{LANG}") {
            language.to_owned()
        } else {
            word.to_owned()
        };
        let ghost before = out@;
        let ghost p = part@;
        proof {
            assert(ws[i as int] == words@[i as int]@);
            assert(p == build_word(ws[i as int], dir@, language@));
        }
        out.push(part);
        proof {
            assert(views(out@) =~= views(before).push(p));
            assert(ws.take(i + 1).map_values(|w: Seq<char>| build_word(w, dir@, language@))
                =~= ws.take(i as int).map_values(|w: Seq<char>| build_word(w, dir@, language@)).push(p));
        }
        i += 1;
    }
    proof {
        assert(ws.take(ws.len() as int) =~= ws);
    }
    out
}

/// The command that runs a bot: `cmd_run` with every `{DIR}` and then
/// every `{LANG}` replaced.
pub open spec fn run_command_of(cmd_run: Seq<char>, dir: Seq<char>, language: Seq<char>) -> Seq<char> {
    crate::text::replace_all(crate::text::replace_all(cmd_run, "{DIR}"@, dir), "{LANG}"@, language)
}

pub fn run_command(cmd_run: &str, dir: &str, language: &str) -> (r: String)
    ensures
        r@ == run_command_of(cmd_run@, dir@, language@),
{
    proof {
        reveal_strlit("{DIR}");
        reveal_strlit("{LANG}");
    }
    let with_dir = replace_text(cmd_run, "{DIR}", dir);
    replace_text(with_dir.as_str(), "{LANG}", language)
}

/// The run commands joined by single spaces.
pub open spec fn joined_commands(commands: Seq<Seq<char>>) -> Seq<char>
    decreases commands.len(),
{
    if commands.len() == 0 {
        Seq::empty()
    } else if commands.len() == 1 {
        commands[0]
    } else {
        joined_commands(commands.drop_last()) + seq![' '] + commands.last()
    }
}

/// The seat `{P1}` to `{P8}` names, counted from 1.
pub open spec fn seat_placeholder(word: Seq<char>) -> Option<int> {
    if word == "{P1}"@ { Some(1) }
    else if word == "{P2}"@ { Some(2) }
    else if word == "{P3}"@ { Some(3) }
    else if word == "{P4}"@ { Some(4) }
    else if word == "{P5}"@ { Some(5) }
    else if word == "{P6}"@ { Some(6) }
    else if word == "{P7}"@ { Some(7) }
    else if word == "{P8}"@ { Some(8) }
    else { None }
}

/// A word of the match command: `{SEED}` the seed, `{Pn}` the run command
/// of seat n, `{PLAYERS}` all of them joined by spaces.
pub open spec fn match_word(word: Seq<char>, seed: i64, commands: Seq<Seq<char>>) -> Seq<char> {
    if word == "{SEED}"@ {
        crate::text::decimal(seed as int)
    } else if seat_placeholder(word) is Some {
        commands[seat_placeholder(word)->0 - 1]
    } else if word == "{PLAYERS}"@ {
        joined_commands(commands)
    } else {
        word
    }
}

/// Every seat placeholder of the words names a seat that has a bot.
pub open spec fn seats_present(words: Seq<Seq<char>>, seats: nat) -> bool {
    forall|i: int| 0 <= i < words.len() && #[trigger] seat_placeholder(words[i]) is Some
        ==> seat_placeholder(words[i])->0 <= seats
}

fn joined_exec(commands: &Vec<String>) -> (r: String)
    ensures
        r@ == joined_commands(views(commands@)),
{
    let ghost cs = views(commands@);
    let mut out: Vec<char> = Vec::new();
    let mut i: usize = 0;
    while i < commands.len()
        invariant
            0 <= i <= commands@.len(),
            cs == views(commands@),
            out@ == joined_commands(cs.take(i as int)),
        decreases commands.len() - i,
    {
        let ghost before = out@;
        if i > 0 {
            out.push(' ');
        }
        let part = crate::text::chars_of(commands[i].as_str());
        let mut k: usize = 0;
        let ghost mid = out@;
        while k < part.len()
            invariant
                0 <= k <= part@.len(),
                out@ == mid + part@.take(k as int),
            decreases part.len() - k,
        {
            out.push(part[k]);
            k += 1;
            assert(out@ =~= mid + part@.take(k as int));
        }
        proof {
            assert(part@.take(part@.len() as int) =~= part@);
            assert(cs.take(i + 1).drop_last() =~= cs.take(i as int));
            assert(cs.take(i + 1).last() == commands@[i as int]@);
            if i == 0 {
                assert(out@ =~= part@);
            } else {
                assert(out@ =~= before + seq![' '] + part@);
            }
        }
        i += 1;
    }
    proof {
        assert(cs.take(cs.len() as int) =~= cs);
    }
    crate::text::string_from_chars(&out)
}

fn seat_placeholder_exec(word: &str) -> (r: Option<usize>)
    ensures
        match seat_placeholder(word@) {
            Some(n) => r == Some(n as usize),
            None => r is None,
        },
{
    if str_equal(word, "{P1}") { Some(1) }
    else if str_equal(word, "{P2}") { Some(2) }
    else if str_equal(word, "{P3}") { Some(3) }
    else if str_equal(word, "{P4}") { Some(4) }
    else if str_equal(word, "{P5}") { Some(5) }
    else if str_equal(word, "{P6}") { Some(6) }
    else if str_equal(word, "{P7}") { Some(7) }
    else if str_equal(word, "{P8}") { Some(8) }
    else { None }
}

/// The command that plays a match: the words of `cmd_play_match` with the
/// placeholders filled in. Every seat placeholder must name a seated bot.
pub fn play_match_command_parts(cmd_play_match: &str, seed: i64, commands: &Vec<String>) -> (r: Vec<String>)
    requires
        seats_present(crate::text::ascii_words_of(cmd_play_match@), commands@.len()),
    ensures
        views(r@) == crate::text::ascii_words_of(cmd_play_match@).map_values(|w: Seq<char>| match_word(w, seed, views(commands@))),
{
    let words = split_ascii_whitespace_vec(cmd_play_match);
    let ghost ws = views(words@);
    let ghost cs = views(commands@);
    proof {
        assert(ws =~= crate::text::ascii_words_of(cmd_play_match@));
    }
    let seed_text = crate::text::decimal_string(seed);
    let all = joined_exec(commands);
    let mut out: Vec<String> = Vec::new();
    let mut i: usize = 0;
    while i < words.len()
        invariant
            0 <= i <= words@.len(),
            ws == views(words@),
            cs == views(commands@),
            seats_present(ws, commands@.len()),
            seed_text@ == crate::text::decimal(seed as int),
            all@ == joined_commands(cs),
            views(out@) == ws.take(i as int).map_values(|w: Seq<char>| match_word(w, seed, cs)),
        decreases words.len() - i,
    {
        let word = words[i].as_str();
        proof {
            assert(ws[i as int] == word@);
        }
        let part = if str_equal(word, "{SEED}") {
            seed_text.clone()
        } else {
            match seat_placeholder_exec(word) {
                Some(n) => {
                    proof {
                        assert(seat_placeholder(ws[i as int]) is Some);
                    }
                    commands[n - 1].clone()
                },
                None => if str_equal(word, "{PLAYERS}") {
                    all.clone()
                } else {
                    word.to_owned()
                },
            }
        };
        let ghost before = out@;
        let ghost p = part@;
        proof {
            assert(p == match_word(ws[i as int], seed, cs));
        }
        out.push(part);
        proof {
            assert(views(out@) =~= views(before).push(p));
            assert(ws.take(i + 1).map_values(|w: Seq<char>| match_word(w, seed, cs))
                =~= ws.take(i as int).map_values(|w: Seq<char>| match_word(w, seed, cs)).push(p));
        }
        i += 1;
    }
    proof {
        assert(ws.take(ws.len() as int) =~= ws);
    }
    out
}

/// A bot's seat with the rank and error flag (1 means erred) printed for it.
pub open spec fn seat_of(bot: PlayMatchBot, rank: u8, error: u8) -> Participant {
    Participant { bot_id: bot.bot_id, rank, error: error == 1 }
}

/// The seats of a played match: each bot with the rank and error flag (1
/// means erred) the command printed for its seat.
pub fn play_match_output(input: &PlayMatchInput, stdout: &CmdPlayMatchStdout) -> (r: PlayMatchOutput)
    requires
        stdout.ranks@.len() == input.bots@.len(),
        stdout.errors@.len() == input.bots@.len(),
    ensures
        r.seed == input.seed,
        r.participants@.len() == input.bots@.len(),
        forall|i: int| 0 <= i < input.bots@.len() ==> #[trigger] r.participants@[i] == seat_of(input.bots@[i], stdout.ranks@[i], stdout.errors@[i]),
{
    let mut participants: Vec<Participant> = Vec::new();
    let mut i: usize = 0;
    while i < input.bots.len()
        invariant
            0 <= i <= input.bots@.len(),
            stdout.ranks@.len() == input.bots@.len(),
            stdout.errors@.len() == input.bots@.len(),
            participants@.len() == i,
            forall|j: int| 0 <= j < i ==> #[trigger] participants@[j] == seat_of(input.bots@[j], stdout.ranks@[j], stdout.errors@[j]),
        decreases input.bots.len() - i,
    {
        participants.push(Participant {
            bot_id: input.bots[i].bot_id,
            rank: stdout.ranks[i],
            error: stdout.errors[i] == 1,
        });
        i += 1;
    }
    PlayMatchOutput { seed: input.seed, participants }
}

} // verus!

//! The command line: the command and options it names, the polling
//! interval it settles on, and the token preview the diagnostic prints.

use vstd::prelude::*;

use crate::env_store::DotEnvStore;
use crate::settings::interval_key;
use crate::text::{chars_of, copy_range, parse_u64, parse_u64_spec, str_eq, string_from_chars};

verus! {

/// What the program does.
#[derive(Debug, Clone, Copy, PartialEq, Eq)]
pub enum Command {
    Gui,
    Json,
    Raw,
    Test,
    Unused,
    Help,
}

/// The parsed command line.
#[derive(Debug)]
pub struct Args {
    pub command: Command,
    pub env_path: String,
    pub interval_seconds: Option<u64>,
}

/// The command a word names.
pub open spec fn command_word(a: Seq<char>) -> Option<Command> {
    if a == "gui"@ {
        Some(Command::Gui)
    } else if a == "json"@ {
        Some(Command::Json)
    } else if a == "raw"@ {
        Some(Command::Raw)
    } else if a == "test"@ {
        Some(Command::Test)
    } else if a == "unused"@ {
        Some(Command::Unused)
    } else {
        None
    }
}

/// The command line read from `args[i..]`, with the command, the `.env`
/// path and the interval read so far: `-h`/`--help` asks for help;
/// `-e`/`--env` and `-i`/`--interval` take the next word, the interval as
/// an integer; a command word may come once; anything else is refused.
/// With no command the program shows the label.
pub open spec fn parse_args_from(
    args: Seq<Seq<char>>,
    i: int,
    command: Option<Command>,
    env_path: Seq<char>,
    interval: Option<u64>,
) -> Result<(Command, Seq<char>, Option<u64>), Seq<char>>
    decreases args.len() - i,
{
    if i < 0 || i >= args.len() {
        Ok(
            (
                match command {
                    Some(c) => c,
                    None => Command::Gui,
                },
                env_path,
                interval,
            ),
        )
    } else {
        let a = args[i];
        if a == "-h"@ || a == "--help"@ {
            parse_args_from(args, i + 1, Some(Command::Help), env_path, interval)
        } else if a == "-e"@ || a == "--env"@ {
            if i + 1 >= args.len() {
                Err(a + " requires a path value"@)
            } else {
                parse_args_from(args, i + 2, command, args[i + 1], interval)
            }
        } else if a == "-i"@ || a == "--interval"@ {
            if i + 1 >= args.len() {
                Err(a + " requires a seconds value"@)
            } else {
                match parse_u64_spec(args[i + 1]) {
                    Some(v) => parse_args_from(args, i + 2, command, env_path, Some(v)),
                    None => Err(a + " requires a positive integer"@),
                }
            }
        } else {
            match command_word(a) {
                Some(c) => if command is Some {
                    Err("Only one command can be provided"@)
                } else {
                    parse_args_from(args, i + 1, Some(c), env_path, interval)
                },
                None => if a.len() > 0 && a[0] == '-' {
                    Err("Unknown option: "@ + a)
                } else {
                    Err("Unknown command: "@ + a)
                },
            }
        }
    }
}

/// The command line `args`, without the program name.
pub open spec fn parse_args_spec(args: Seq<Seq<char>>) -> Result<
    (Command, Seq<char>, Option<u64>),
    Seq<char>,
> {
    parse_args_from(args, 0, None, ".env"@, None)
}

/// The parsed command line as views.
pub open spec fn args_view(a: Args) -> (Command, Seq<char>, Option<u64>) {
    (a.command, a.env_path@, a.interval_seconds)
}

/// Records `command` as the command; an error where one is already recorded.
pub fn set_command(current: &mut Option<Command>, command: Command) -> (r: Result<(), String>)
    ensures
        *old(current) is Some ==> (r matches Err(m) && m@ == "Only one command can be provided"@)
            && *final(current) == *old(current),
        *old(current) is None ==> r is Ok && *final(current) == Some(command),
{
    if current.is_some() {
        return Err(String::from_str("Only one command can be provided"));
    }
    *current = Some(command);
    Ok(())
}

fn message_with(prefix: &str, suffix: &str) -> (r: String)
    ensures
        r@ == prefix@ + suffix@,
{
    let mut r = String::from_str(prefix);
    r.append(suffix);
    r
}

fn command_of(a: &str) -> (r: Option<Command>)
    ensures
        r == command_word(a@),
{
    if str_eq(a, "gui") {
        Some(Command::Gui)
    } else if str_eq(a, "json") {
        Some(Command::Json)
    } else if str_eq(a, "raw") {
        Some(Command::Raw)
    } else if str_eq(a, "test") {
        Some(Command::Test)
    } else if str_eq(a, "unused") {
        Some(Command::Unused)
    } else {
        None
    }
}

/// Reads the command line `args` (without the program name).
pub fn parse_args(args: &Vec<String>) -> (r: Result<Args, String>)
    ensures
        match r {
            Ok(a) => parse_args_spec(args@.map_values(|s: String| s@)) == Ok::<_, Seq<char>>(
                args_view(a),
            ),
            Err(m) => parse_args_spec(args@.map_values(|s: String| s@)) == Err::<
                (Command, Seq<char>, Option<u64>),
                _,
            >(m@),
        },
{
    let ghost av = args@.map_values(|s: String| s@);
    let mut command: Option<Command> = None;
    let mut env_path = String::from_str(".env");
    let mut interval_seconds: Option<u64> = None;
    let mut i: usize = 0;
    while i < args.len()
        invariant
            av == args@.map_values(|s: String| s@),
            i <= args@.len(),
            parse_args_from(av, i as int, command, env_path@, interval_seconds)
                == parse_args_spec(av),
        decreases args.len() - i,
    {
        let a = args[i].as_str();
        proof {
            assert(av[i as int] == a@);
        }
        if str_eq(a, "-h") || str_eq(a, "--help") {
            command = Some(Command::Help);
            i = i + 1;
        } else if str_eq(a, "-e") || str_eq(a, "--env") {
            if i + 1 >= args.len() {
                return Err(message_with(a, " requires a path value"));
            }
            env_path = args[i + 1].clone();
            i = i + 2;
        } else if str_eq(a, "-i") || str_eq(a, "--interval") {
            if i + 1 >= args.len() {
                return Err(message_with(a, " requires a seconds value"));
            }
            let vc = chars_of(args[i + 1].as_str());
            match parse_u64(&vc) {
                Some(v) => {
                    interval_seconds = Some(v);
                },
                None => {
                    return Err(message_with(a, " requires a positive integer"));
                },
            }
            i = i + 2;
        } else {
            match command_of(a) {
                Some(c) => {
                    match set_command(&mut command, c) {
                        Ok(()) => {},
                        Err(m) => {
                            return Err(m);
                        },
                    }
                    i = i + 1;
                },
                None => {
                    let ac = chars_of(a);
                    if ac.len() > 0 && ac[0] == '-' {
                        return Err(message_with("Unknown option: ", a));
                    } else {
                        return Err(message_with("Unknown command: ", a));
                    }
                },
            }
        }
    }
    let command = match command {
        Some(c) => c,
        None => Command::Gui,
    };
    Ok(Args { command, env_path, interval_seconds })
}

/// The polling interval: the one given on the command line, else
/// `PULL_INTERVAL_SECONDS` from the `.env` values; 10 where that is
/// missing, not an integer or zero.
pub open spec fn interval_seconds_spec(
    override_value: Option<u64>,
    env: Option<Map<Seq<char>, Seq<char>>>,
) -> u64 {
    let chosen = match override_value {
        Some(v) => Some(v),
        None => match env {
            Some(m) => if m.contains_key(interval_key()) {
                parse_u64_spec(m[interval_key()])
            } else {
                None
            },
            None => None,
        },
    };
    match chosen {
        Some(v) => if v > 0 {
            v
        } else {
            10
        },
        None => 10,
    }
}

/// The polling interval from the command line and the `.env` file (`None`
/// where it could not be read).
pub fn interval_seconds(override_value: Option<u64>, env: Option<&DotEnvStore>) -> (r: u64)
    ensures
        r == interval_seconds_spec(
            override_value,
            match env {
                Some(e) => Some(e.data()),
                None => None,
            },
        ),
{
    let chosen = match override_value {
        Some(v) => Some(v),
        None => match env {
            Some(e) => match e.get("PULL_INTERVAL_SECONDS") {
                Some(text) => {
                    let c = chars_of(text);
                    parse_u64(&c)
                },
                None => None,
            },
            None => None,
        },
    };
    match chosen {
        Some(v) => if v > 0 {
            v
        } else {
            10
        },
        None => 10,
    }
}

/// The first 20 characters of a token.
pub fn token_preview(token: &str) -> (r: String)
    ensures
        r@ == token@.take(if token@.len() < 20 {
            token@.len() as int
        } else {
            20
        }),
{
    let c = chars_of(token);
    let n = if c.len() < 20 {
        c.len()
    } else {
        20
    };
    let p = copy_range(&c, 0, n);
    string_from_chars(&p)
}

// ---------------------------------------------------------------------
// Laws
// ---------------------------------------------------------------------

/// Each command word names its own command, and nothing else names one:
/// `gui`, `json`, `raw`, `test` and `unused` name the label, the JSON
/// summary, the raw response, the diagnostic and the amounts in MB.
pub proof fn law_command_words(w: Seq<char>)
    ensures
        (command_word(w) == Some(Command::Gui)) <==> w == "gui"@,
        (command_word(w) == Some(Command::Json)) <==> w == "json"@,
        (command_word(w) == Some(Command::Raw)) <==> w == "raw"@,
        (command_word(w) == Some(Command::Test)) <==> w == "test"@,
        (command_word(w) == Some(Command::Unused)) <==> w == "unused"@,
        command_word(w) != Some(Command::Help),
{
    reveal_strlit("gui");
    reveal_strlit("json");
    reveal_strlit("raw");
    reveal_strlit("test");
    reveal_strlit("unused");
    assert("gui"@ != "raw"@) by {
        assert("gui"@[0] != "raw"@[0]);
    }
    assert("json"@ != "test"@) by {
        assert("json"@[0] != "test"@[0]);
    }
    assert("gui"@.len() != "json"@.len());
    assert("gui"@.len() != "test"@.len());
    assert("gui"@.len() != "unused"@.len());
    assert("json"@.len() != "raw"@.len());
    assert("json"@.len() != "unused"@.len());
    assert("raw"@.len() != "test"@.len());
    assert("raw"@.len() != "unused"@.len());
    assert("test"@.len() != "unused"@.len());
}

/// The command read from `args[i..]` is the one already read, the default
/// where none was, one named by a command word there, or help asked for there.
proof fn lemma_parsed_command_source(
    args: Seq<Seq<char>>,
    i: int,
    command: Option<Command>,
    env_path: Seq<char>,
    interval: Option<u64>,
)
    requires
        0 <= i,
    ensures
        parse_args_from(args, i, command, env_path, interval) matches Ok(r) ==> {
            ||| command == Some(r.0)
            ||| command is None && r.0 == Command::Gui
            ||| exists|j: int|
                i <= j < args.len() && command_word(#[trigger] args[j]) == Some(r.0)
            ||| r.0 == Command::Help && exists|j: int|
                i <= j < args.len() && (#[trigger] args[j] == "-h"@ || args[j] == "--help"@)
        },
    decreases args.len() - i,
{
    if i < args.len() {
        let a = args[i];
        if a == "-h"@ || a == "--help"@ {
            lemma_parsed_command_source(args, i + 1, Some(Command::Help), env_path, interval);
        } else if a == "-e"@ || a == "--env"@ {
            if i + 1 < args.len() {
                lemma_parsed_command_source(args, i + 2, command, args[i + 1], interval);
            }
        } else if a == "-i"@ || a == "--interval"@ {
            if i + 1 < args.len() {
                match parse_u64_spec(args[i + 1]) {
                    Some(v) => lemma_parsed_command_source(args, i + 2, command, env_path, Some(v)),
                    None => {},
                }
            }
        } else {
            match command_word(a) {
                Some(c) => if command is None {
                    lemma_parsed_command_source(args, i + 1, Some(c), env_path, interval);
                },
                None => {},
            }
        }
    }
}

/// A command line read as the JSON summary, the raw response, the
/// diagnostic or the amounts in MB holds that command's word.
pub proof fn law_parsed_command_is_named(args: Seq<Seq<char>>)
    ensures
        parse_args_spec(args) matches Ok(r) ==> {
            &&& r.0 == Command::Json ==> args.contains("json"@)
            &&& r.0 == Command::Raw ==> args.contains("raw"@)
            &&& r.0 == Command::Test ==> args.contains("test"@)
            &&& r.0 == Command::Unused ==> args.contains("unused"@)
            &&& r.0 == Command::Help ==> args.contains("-h"@) || args.contains("--help"@)
        },
{
    lemma_parsed_command_source(args, 0, None, ".env"@, None);
    if let Ok(r) = parse_args_spec(args) {
        if r.0 == Command::Help {
            let j = choose|j: int|
                0 <= j < args.len() && (#[trigger] args[j] == "-h"@ || args[j] == "--help"@);
            assert(args[j] == "-h"@ || args[j] == "--help"@);
        } else if r.0 != Command::Gui {
            let j = choose|j: int| 0 <= j < args.len() && command_word(#[trigger] args[j]) == Some(r.0);
            law_command_words(args[j]);
        }
    }
}

/// A command line of one command word reads as that word's command, with
/// the default `.env` path and no interval.
pub proof fn law_single_command_word(w: Seq<char>)
    requires
        command_word(w) is Some,
    ensures
        parse_args_spec(seq![w]) == Ok::<_, Seq<char>>((command_word(w)->0, ".env"@, None::<u64>)),
{
    reveal_strlit("-h");
    reveal_strlit("--help");
    reveal_strlit("-e");
    reveal_strlit("--env");
    reveal_strlit("-i");
    reveal_strlit("--interval");
    law_command_words(w);
    let args = seq![w];
    assert(args[0] == w);
    assert(w != "-h"@ && w != "--help"@ && w != "-e"@ && w != "--env"@ && w != "-i"@ && w
        != "--interval"@) by {
        reveal_strlit("gui");
        reveal_strlit("json");
        reveal_strlit("raw");
        reveal_strlit("test");
        reveal_strlit("unused");
        assert(w[0] != '-');
    }
    let c = command_word(w)->0;
    assert(parse_args_from(args, 1, Some(c), ".env"@, None) == Ok::<_, Seq<char>>(
        (c, ".env"@, None::<u64>),
    ));
    assert(parse_args_from(args, 0, None, ".env"@, None) == parse_args_from(
        args,
        1,
        Some(c),
        ".env"@,
        None,
    ));
}

/// The `.env` path and the interval read from `args[i..]` are those already
/// read, or the word after an `-e`/`--env` (an `-i`/`--interval`, read as
/// an integer) there.
proof fn lemma_parsed_options_source(
    args: Seq<Seq<char>>,
    i: int,
    command: Option<Command>,
    env_path: Seq<char>,
    interval: Option<u64>,
)
    requires
        0 <= i,
    ensures
        parse_args_from(args, i, command, env_path, interval) matches Ok(r) ==> {
            &&& r.1 == env_path || exists|j: int|
                i <= j && j + 1 < args.len() && (#[trigger] args[j] == "-e"@ || args[j] == "--env"@)
                    && args[j + 1] == r.1
            &&& r.2 == interval || exists|j: int|
                i <= j && j + 1 < args.len() && (#[trigger] args[j] == "-i"@ || args[j]
                    == "--interval"@) && r.2 == parse_u64_spec(args[j + 1])
        },
    decreases args.len() - i,
{
    if i < args.len() {
        let a = args[i];
        if a == "-h"@ || a == "--help"@ {
            lemma_parsed_options_source(args, i + 1, Some(Command::Help), env_path, interval);
        } else if a == "-e"@ || a == "--env"@ {
            if i + 1 < args.len() {
                lemma_parsed_options_source(args, i + 2, command, args[i + 1], interval);
            }
        } else if a == "-i"@ || a == "--interval"@ {
            if i + 1 < args.len() {
                match parse_u64_spec(args[i + 1]) {
                    Some(v) => lemma_parsed_options_source(args, i + 2, command, env_path, Some(v)),
                    None => {},
                }
            }
        } else {
            match command_word(a) {
                Some(c) => if command is None {
                    lemma_parsed_options_source(args, i + 1, Some(c), env_path, interval);
                },
                None => {},
            }
        }
    }
}

/// The `.env` path read from a command line is `.env` or a word given
/// after `-e`/`--env`; the interval is none or the integer given after
/// `-i`/`--interval`.
pub proof fn law_parsed_options_are_given(args: Seq<Seq<char>>)
    ensures
        parse_args_spec(args) matches Ok(r) ==> {
            &&& r.1 == ".env"@ || exists|j: int|
                0 <= j && j + 1 < args.len() && (#[trigger] args[j] == "-e"@ || args[j] == "--env"@)
                    && args[j + 1] == r.1
            &&& r.2 is None || exists|j: int|
                0 <= j && j + 1 < args.len() && (#[trigger] args[j] == "-i"@ || args[j]
                    == "--interval"@) && r.2 == parse_u64_spec(args[j + 1])
        },
{
    lemma_parsed_options_source(args, 0, None, ".env"@, None);
}

/// `--env PATH` alone shows the label with the `.env` file at `PATH`;
/// `--interval N` alone shows it polling every `N` seconds, and is refused
/// where `N` is not an integer.
pub proof fn law_single_option(p: Seq<char>)
    ensures
        parse_args_spec(seq!["--env"@, p]) == Ok::<_, Seq<char>>((Command::Gui, p, None::<u64>)),
        parse_args_spec(seq!["--interval"@, p]) == match parse_u64_spec(p) {
            Some(n) => Ok::<_, Seq<char>>((Command::Gui, ".env"@, Some(n))),
            None => Err("--interval"@ + " requires a positive integer"@),
        },
{
    reveal_strlit("-h");
    reveal_strlit("--help");
    reveal_strlit("-e");
    reveal_strlit("--env");
    reveal_strlit("-i");
    reveal_strlit("--interval");
    let a = seq!["--env"@, p];
    assert(a[0] == "--env"@ && a[1] == p);
    assert("--env"@.len() != "-h"@.len() && "--env"@.len() != "--help"@.len());
    assert(parse_args_from(a, 2, None, p, None) == Ok::<_, Seq<char>>(
        (Command::Gui, p, None::<u64>),
    ));
    let b = seq!["--interval"@, p];
    assert(b[0] == "--interval"@ && b[1] == p);
    assert("--interval"@.len() != "-h"@.len() && "--interval"@.len() != "--help"@.len()
        && "--interval"@.len() != "-e"@.len() && "--interval"@.len() != "--env"@.len());
    match parse_u64_spec(p) {
        Some(n) => {
            assert(parse_args_from(b, 2, None, ".env"@, Some(n)) == Ok::<_, Seq<char>>(
                (Command::Gui, ".env"@, Some(n)),
            ));
        },
        None => {},
    }
}

/// The polling interval: a non-zero interval given on the command line wins;
/// without one, a non-zero `PULL_INTERVAL_SECONDS` integer from the `.env`
/// values; 10 seconds otherwise.
pub proof fn law_interval_choice(
    override_value: Option<u64>,
    env: Option<Map<Seq<char>, Seq<char>>>,
)
    ensures
        interval_seconds_spec(override_value, env) > 0,
        override_value is Some && override_value->0 > 0 ==> interval_seconds_spec(override_value, env)
            == override_value->0,
        override_value == Some(0u64) ==> interval_seconds_spec(override_value, env) == 10,
        override_value is None && env is None ==> interval_seconds_spec(override_value, env) == 10,
        override_value is None && (env matches Some(m) && m.contains_key("PULL_INTERVAL_SECONDS"@)
            && (parse_u64_spec(m["PULL_INTERVAL_SECONDS"@]) matches Some(v) && v > 0))
            ==> interval_seconds_spec(override_value, env) == parse_u64_spec(
            env->0["PULL_INTERVAL_SECONDS"@],
        )->0,
        override_value is None && (env matches Some(m) && !m.contains_key(
            "PULL_INTERVAL_SECONDS"@,
        )) ==> interval_seconds_spec(override_value, env) == 10,
{
    reveal_strlit("PULL_INTERVAL_SECONDS");
    assert(interval_key() =~= "PULL_INTERVAL_SECONDS"@);
}

} // verus!

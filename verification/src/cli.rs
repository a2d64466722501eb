//! The command line: the subcommands and their options, the output
//! formats, and the choices the command line makes before it hands over
//! (which profile a sandbox starts with, which port an engine listens on,
//! which options may not be combined).

use vstd::prelude::*;
use crate::text::{chars_eq, chars_of, string_views, trim, trim_str};
use crate::number::{parse_bounded, parse_unsigned_bounded};

verus! {

/// How a command prints its result.
#[derive(Debug, Clone, Copy, PartialEq, Eq)]
pub enum OutputFormat {
    Text,
    Json,
    Ndjson,
}

/// `muthr image` subcommands.
#[derive(Debug, Clone, PartialEq, Eq)]
pub enum ImageCommands {
    /// Build a golden image from a provision profile.
    Build { profile: String },
}

/// `muthr services` subcommands.
#[derive(Debug, Clone, Copy, PartialEq, Eq)]
pub enum ServicesCommands {
    Start { dry_run: bool },
    Stop { dry_run: bool },
    Status { output: OutputFormat },
    Restart { dry_run: bool },
    Delete { force: bool, yes: bool, dry_run: bool },
}

/// `muthr engine` subcommands.
#[derive(Debug, Clone, PartialEq, Eq)]
pub enum EngineCommands {
    Start {
        runtime: Option<String>,
        profile: Option<String>,
        bind_host: Option<String>,
        engine_server_port: Option<u16>,
        foreground: bool,
    },
    Stop { runtime: Option<String>, all: bool },
    Status { output: OutputFormat },
    Presets { runtime: Option<String>, output: OutputFormat },
}

/// `muthr sandbox` subcommands.
#[derive(Debug, Clone, PartialEq, Eq)]
pub enum SandboxCommands {
    Start { profile: Option<String>, audit_log: Option<String> },
    Shell {
        profile: Option<String>,
        command: Option<String>,
        no_tty: bool,
        env: Vec<String>,
        audit_log: Option<String>,
    },
    Stop { all: bool, name: Vec<String> },
    Delete { force: bool, yes: bool, dry_run: bool },
    Ls { output: OutputFormat },
}

/// The port an engine listens on: the `--engine-server-port` option, else
/// the configured port, else 8080.
pub open spec fn spec_engine_port(flag: Option<u16>, configured: Option<u16>) -> u16 {
    match flag {
        Some(p) => p,
        None => match configured {
            Some(p) => p,
            None => 8080,
        },
    }
}

/// Chooses the port an engine listens on.
pub fn engine_port(flag: Option<u16>, configured: Option<u16>) -> (r: u16)
    ensures
        r == spec_engine_port(flag, configured),
{
    match flag {
        Some(p) => p,
        None => match configured {
            Some(p) => p,
            None => 8080,
        },
    }
}

/// Why a command line was refused.
#[derive(Debug, Clone, Copy, PartialEq, Eq)]
pub enum CommandError {
    /// `sandbox stop --all` was combined with `--name`.
    AllWithNames,
}

/// Checks the options of `sandbox stop`: `--all` and `--name` exclude each
/// other.
pub fn check_stop_options(all: bool, names: &Vec<String>) -> (r: Result<(), CommandError>)
    ensures
        r == if all && names@.len() > 0 {
            Err(CommandError::AllWithNames)
        } else {
            Ok(())
        },
{
    if all && names.len() > 0 {
        Err(CommandError::AllWithNames)
    } else {
        Ok(())
    }
}

/// The profile `sandbox start` uses without `--profile`.
#[derive(Debug, Clone, PartialEq, Eq)]
pub enum ProfileChoice {
    /// This profile.
    Use(String),
    /// The user picks one from the list of profiles.
    Ask,
}

/// The profile `sandbox start` starts with: the `--profile` option; else,
/// for an existing sandbox whose default profile is not installed, `base`;
/// else the default profile when it is installed; else `base` for an
/// existing sandbox; else the user is asked.
pub open spec fn spec_start_profile(
    flag: Option<Seq<char>>,
    sandbox_exists: bool,
    default_profile: Seq<char>,
    profiles: Seq<Seq<char>>,
) -> Option<Seq<char>> {
    match flag {
        Some(p) => Some(p),
        None => if sandbox_exists && !profiles.contains(default_profile) {
            Some("base"@)
        } else if profiles.contains(default_profile) {
            Some(default_profile)
        } else if sandbox_exists {
            Some("base"@)
        } else {
            None
        },
    }
}

/// The profiles `sandbox start` offers: `base`, then the installed ones.
pub open spec fn spec_start_profiles(installed: Seq<Seq<char>>) -> Seq<Seq<char>> {
    seq!["base"@] + installed
}

/// The profiles `sandbox start` offers.
pub fn start_profiles(installed: &Vec<String>) -> (r: Vec<String>)
    ensures
        string_views(r@) == spec_start_profiles(string_views(installed@)),
{
    let mut v: Vec<String> = Vec::new();
    v.push(String::from_str("base"));
    let mut i: usize = 0;
    while i < installed.len()
        invariant
            i <= installed.len(),
            string_views(v@) == seq!["base"@] + string_views(installed@).take(i as int),
        decreases installed.len() - i,
    {
        let ghost before = string_views(v@);
        v.push(installed[i].clone());
        assert(string_views(v@) =~= before.push(installed@[i as int]@));
        assert(string_views(installed@).take(i + 1) =~= string_views(installed@).take(i as int).push(
            installed@[i as int]@,
        ));
        i += 1;
    }
    assert(string_views(installed@).take(installed.len() as int) =~= string_views(installed@));
    v
}

fn listed(profiles: &Vec<String>, name: &str) -> (r: bool)
    ensures
        r == string_views(profiles@).contains(name@),
{
    let n = chars_of(name);
    let mut i: usize = 0;
    while i < profiles.len()
        invariant
            i <= profiles.len(),
            n@ == name@,
            forall|j: int| 0 <= j < i ==> string_views(profiles@)[j] != name@,
        decreases profiles.len() - i,
    {
        if chars_eq(&chars_of(profiles[i].as_str()), &n) {
            assert(string_views(profiles@)[i as int] == name@);
            return true;
        }
        i += 1;
    }
    false
}

/// Chooses the profile `sandbox start` starts with.
pub fn start_profile(flag: Option<String>, sandbox_exists: bool, default_profile: &str, profiles: &Vec<String>) -> (r:
    ProfileChoice)
    ensures
        match r {
            ProfileChoice::Use(p) => spec_start_profile(
                match flag {
                    Some(f) => Some(f@),
                    None => None,
                },
                sandbox_exists,
                default_profile@,
                string_views(profiles@),
            ) == Some(p@),
            ProfileChoice::Ask => spec_start_profile(
                match flag {
                    Some(f) => Some(f@),
                    None => None,
                },
                sandbox_exists,
                default_profile@,
                string_views(profiles@),
            ) is None,
        },
{
    match flag {
        Some(p) => ProfileChoice::Use(p),
        None => {
            let installed = listed(profiles, default_profile);
            if sandbox_exists && !installed {
                ProfileChoice::Use(String::from_str("base"))
            } else if installed {
                ProfileChoice::Use(String::from_str(default_profile))
            } else if sandbox_exists {
                ProfileChoice::Use(String::from_str("base"))
            } else {
                ProfileChoice::Ask
            }
        },
    }
}

/// The answer to a numbered menu.
#[derive(Debug, Clone, Copy, PartialEq, Eq)]
pub enum MenuAnswer {
    /// `q`, or nothing: leave the menu.
    Quit,
    /// The entry at this index (counted from 0).
    Pick(usize),
    /// Anything else.
    Invalid,
}

/// What an answer to a menu of `count` entries means: `q` or a blank
/// answer quits; a number from 1 to `count` (as `usize` reads it, after
/// trimming) picks that entry.
pub open spec fn spec_menu_answer(input: Seq<char>, count: nat) -> MenuAnswer {
    let t = trim(input);
    if t == "q"@ || t.len() == 0 {
        MenuAnswer::Quit
    } else {
        match parse_bounded(t, usize::MAX as nat) {
            Some(n) => if 0 < n <= count {
                MenuAnswer::Pick((n - 1) as usize)
            } else {
                MenuAnswer::Invalid
            },
            None => MenuAnswer::Invalid,
        }
    }
}

/// Reads an answer to a menu of `count` entries.
pub fn menu_answer(input: &str, count: usize) -> (r: MenuAnswer)
    ensures
        r == spec_menu_answer(input@, count as nat),
        r matches MenuAnswer::Pick(i) ==> i < count,
{
    let t = trim_str(input);
    if chars_eq(&t, &chars_of("q")) || t.len() == 0 {
        return MenuAnswer::Quit;
    }
    match parse_unsigned_bounded(&t, usize::MAX as u64) {
        Some(n) => if 0 < n && n <= count as u64 {
            MenuAnswer::Pick((n - 1) as usize)
        } else {
            MenuAnswer::Invalid
        },
        None => MenuAnswer::Invalid,
    }
}

} // verus!

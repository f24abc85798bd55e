//! The command line: what it holds once parsed, and the decisions taken on
//! it before any command runs (which repository, what `config` changes).
use crate::commands::opt_str;

use crate::registry::{find_repo_path, repo_path, repo_views, RepoList};
use crate::setup::{repo_name, repo_name_of};
use crate::text::{chars_of, opt_text, starts_with, starts_with_chars, str_eq};
use vstd::prelude::*;

verus! {

/// The parsed command line.
pub struct Cli {
    pub command: Commands,
    /// The repository to work in, by name or path (`.` when not given).
    pub repo: String,
    pub verbose: bool,
}

/// The commands.
pub enum Commands {
    /// Sets up the branches in the repository, or with a name, a new
    /// repository under `~/.arm`.
    Init { name: Option<String> },
    /// Creates versions, categories, endpoints, methods and error codes.
    Registry(RegistryCommands),
    /// Shows an endpoint or an error code.
    Show(ShowArgs),
    /// Updates a field of an endpoint or an error code.
    Update(UpdateArgs),
    /// Changes the settings.
    Config {
        repo: Option<String>,
        name: Option<String>,
        email: Option<String>,
        lang: Option<String>,
        show: bool,
        reset: bool,
    },
    /// Records the repositories found under `~/.arm`.
    Scan,
    /// Lists the recorded repositories.
    ShowRepos,
    /// Shows the current version and its endpoints.
    ShowVersion,
    /// Checks a repository and records it.
    Mount { path: String },
    /// Checks a repository's structure.
    Check { path: Option<String> },
}

/// The registry commands.
pub enum RegistryCommands {
    New { description: Option<String> },
    Category { name: String, description: Option<String> },
    Endpoint { path: String, description: Option<String> },
    Method { path: String, description: Option<String> },
    Error { code: String, message: String, status: u16 },
}

/// The arguments of `show`.
pub struct ShowArgs {
    pub path: String,
}

/// The arguments of `update`.
pub struct UpdateArgs {
    pub path: String,
    pub update: String,
}

/// Whether a command runs on a repository opened first; `show-repos`,
/// `config`, `scan` and `init` with a name run without one.
pub open spec fn needs_repo(c: Commands) -> bool {
    match c {
        Commands::ShowRepos => false,
        Commands::Config { .. } => false,
        Commands::Init { name } => name is None,
        Commands::Scan => false,
        _ => true,
    }
}

impl Commands {
    /// Whether the command runs on a repository opened first.
    pub fn needs_repository(&self) -> (r: bool)
        ensures
            r == needs_repo(*self),
    {
        match self {
            Commands::ShowRepos => false,
            Commands::Config { .. } => false,
            Commands::Init { name } => name.is_none(),
            Commands::Scan => false,
            _ => true,
        }
    }
}

/// Whether the argument at `i` names the repository, in one of the forms
/// the option takes: `-r VALUE` or `--repo VALUE` (with a value after it),
/// `--repo=VALUE`, or `-rVALUE`.
pub open spec fn repo_arg_at(args: Seq<Seq<char>>, i: int) -> bool {
    let a = args[i];
    ||| (a == "-r"@ || a == "--repo"@) && i + 1 < args.len()
    ||| starts_with(a, "--repo="@)
    ||| starts_with(a, "-r"@) && a.len() > 2
}

/// Whether the repository is named among the arguments, in any form.
pub open spec fn repo_flag(args: Seq<Seq<char>>) -> bool {
    exists|i: int| 0 <= i < args.len() && #[trigger] repo_arg_at(args, i)
}

/// Whether the repository was named on the command line, in any of the
/// forms `-r VALUE`, `--repo VALUE`, `--repo=VALUE`, `-rVALUE`.
pub fn repo_flag_given(args: &Vec<String>) -> (r: bool)
    ensures
        r == repo_flag(args@.map_values(|a: String| a@)),
{
    let ghost s = args@.map_values(|a: String| a@);
    let short = chars_of("-r");
    let long_eq = chars_of("--repo=");
    let mut i: usize = 0;
    while i < args.len()
        invariant
            i <= args.len(),
            s == args@.map_values(|a: String| a@),
            short@ == "-r"@,
            long_eq@ == "--repo="@,
            forall|j: int| 0 <= j < i ==> !#[trigger] repo_arg_at(s, j),
        decreases args.len() - i,
    {
        assert(s[i as int] == args@[i as int]@);
        let a = chars_of(args[i].as_str());
        let separate = (str_eq(args[i].as_str(), "-r") || str_eq(args[i].as_str(), "--repo")) && i
            + 1 < args.len();
        if separate || starts_with_chars(&a, &long_eq) || (starts_with_chars(&a, &short) && a.len()
            > 2) {
            assert(repo_arg_at(s, i as int));
            return true;
        }
        i = i + 1;
    }
    false
}

/// The repository to work in: one named with `-r` (`.` too), by its
/// recorded path or as a path; else the name saved in the directory, by
/// its recorded path or as a path; else the current directory.
pub open spec fn chosen_repo_path(
    explicit: bool,
    repo: Seq<char>,
    repos: Seq<(Seq<char>, Seq<char>)>,
    local_name: Option<Seq<char>>,
) -> Seq<char> {
    if explicit {
        match repo_path(repos, repo) {
            Some(p) => p,
            None => repo,
        }
    } else {
        match local_name {
            Some(n) => match repo_path(repos, n) {
                Some(p) => p,
                None => n,
            },
            None => "."@,
        }
    }
}

/// The repository to work in, given whether `-r` was given, its value, the
/// recorded repositories and the name saved in the directory.
pub fn determine_repo_path(explicit: bool, repo: &str, repos: &RepoList, local_name: Option<&str>) -> (r:
    String)
    ensures
        r@ == chosen_repo_path(explicit, repo@, repo_views(repos.repos@), opt_str(local_name)),
{
    if explicit {
        return match find_repo_path(repos, repo) {
            Some(p) => p,
            None => repo.to_string(),
        };
    }
    match local_name {
        Some(n) => match find_repo_path(repos, n) {
            Some(p) => p,
            None => n.to_string(),
        },
        None => ".".to_string(),
    }
}

/// What `config` changes.
pub struct ConfigChange {
    /// The repository path to set.
    pub repo_path: Option<String>,
    /// The repository name to save in the directory.
    pub local_name: Option<String>,
    /// A repository to record, by name and path.
    pub recorded: Option<(String, String)>,
    pub user_name: Option<String>,
    pub user_email: Option<String>,
    pub language: Option<String>,
}

/// What `config` does.
pub enum ConfigStep {
    /// Puts the settings back to their defaults.
    Reset,
    /// Shows the settings.
    Show,
    /// Changes the settings.
    Apply(ConfigChange),
    /// Nothing to change: shows how to use the command.
    Usage,
}

/// The views of an optional pair of strings.
pub open spec fn opt_pair(o: Option<(String, String)>) -> Option<(Seq<char>, Seq<char>)> {
    match o {
        Some(p) => Some((p.0@, p.1@)),
        None => None,
    }
}

/// Whether the change sets the repository as `config -r repo` does: a
/// recorded name goes by its path and is saved in the directory; anything
/// else is a path, recorded under its last component (or itself).
pub open spec fn repo_change(c: ConfigChange, repo: Option<Seq<char>>, repos: Seq<(Seq<char>, Seq<char>)>) -> bool {
    match repo {
        None => c.repo_path is None && c.local_name is None && c.recorded is None,
        Some(r) => match repo_path(repos, r) {
            Some(p) => opt_text(c.repo_path) == Some(p) && opt_text(c.local_name) == Some(r)
                && c.recorded is None,
            None => opt_text(c.repo_path) == Some(r) && opt_text(c.local_name) == Some(
                repo_name(r, r),
            ) && opt_pair(c.recorded) == Some((repo_name(r, r), r)),
        },
    }
}

/// What `config` does with its options: `--reset` first, then `--show`,
/// then the values given; with none given it shows its usage.
pub fn handle_config_command(
    repo: Option<&str>,
    name: Option<&str>,
    email: Option<&str>,
    lang: Option<&str>,
    show: bool,
    reset: bool,
    repos: &RepoList,
) -> (r: ConfigStep)
    ensures
        match r {
            ConfigStep::Reset => reset,
            ConfigStep::Show => !reset && show,
            ConfigStep::Usage => !reset && !show && repo is None && name is None && email is None
                && lang is None,
            ConfigStep::Apply(c) => !reset && !show && (repo is Some || name is Some || email is Some
                || lang is Some) && repo_change(c, opt_str(repo), repo_views(repos.repos@))
                && opt_text(c.user_name) == opt_str(name) && opt_text(c.user_email) == opt_str(email)
                && opt_text(c.language) == opt_str(lang),
        },
{
    if reset {
        return ConfigStep::Reset;
    }
    if show {
        return ConfigStep::Show;
    }
    if repo.is_none() && name.is_none() && email.is_none() && lang.is_none() {
        return ConfigStep::Usage;
    }
    let mut change = ConfigChange {
        repo_path: None,
        local_name: None,
        recorded: None,
        user_name: None,
        user_email: None,
        language: None,
    };
    if let Some(r) = repo {
        match find_repo_path(repos, r) {
            Some(p) => {
                change.repo_path = Some(p);
                change.local_name = Some(r.to_string());
            },
            None => {
                let n = repo_name_of(r, r);
                change.repo_path = Some(r.to_string());
                change.local_name = Some(n.clone());
                change.recorded = Some((n, r.to_string()));
            },
        }
    }
    if let Some(v) = name {
        change.user_name = Some(v.to_string());
    }
    if let Some(v) = email {
        change.user_email = Some(v.to_string());
    }
    if let Some(v) = lang {
        change.language = Some(v.to_string());
    }
    ConfigStep::Apply(change)
}

} // verus!

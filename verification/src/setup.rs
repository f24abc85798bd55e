//! The decisions of setting a repository up: `init`, `init --name`,
//! `scan`, and the name a repository is recorded under.
use crate::error::{ArmError, ArmErrorKind};
use crate::outside::{file_name_result, path_file_name};
use crate::registry::{add_repo, repo_views, repos_after_add, RepoList};
use crate::text::{starts_with, starts_with_chars, chars_of};
use vstd::prelude::*;

verus! {

/// The name a repository at `path` is recorded under: the last component
/// of the path, or `default` where it has none.
pub open spec fn repo_name(path: Seq<char>, default: Seq<char>) -> Seq<char> {
    match file_name_result(path) {
        Some(n) => n,
        None => default,
    }
}

/// The name a repository at `path` is recorded under.
pub fn repo_name_of(path: &str, default: &str) -> (r: String)
    ensures
        r@ == repo_name(path@, default@),
{
    match path_file_name(path) {
        Some(n) => n,
        None => default.to_string(),
    }
}

/// Which root branches `init` creates.
pub struct InitPlan {
    pub create_api: bool,
    pub create_error: bool,
}

/// What `init` does in a repository with the given branches: it needs
/// `master`, and creates `api` and `error` where they are missing.
pub fn plan_init(has_master: bool, has_api: bool, has_error: bool) -> (r: Result<InitPlan, ArmError>)
    ensures
        match r {
            Ok(p) => has_master && p.create_api == !has_api && p.create_error == !has_error,
            Err(e) => !has_master && e.kind == ArmErrorKind::NoMasterBranch && e.message@
                == "No master branch found. Please initialize git first."@,
        },
{
    if !has_master {
        return Err(
            ArmError::new(
                ArmErrorKind::NoMasterBranch,
                "No master branch found. Please initialize git first.",
            ),
        );
    }
    Ok(InitPlan { create_api: !has_api, create_error: !has_error })
}

/// What `init --name` does with its directory.
#[derive(PartialEq, Eq, Structural, Debug, Clone, Copy)]
pub enum NamedInit {
    /// The directory holds a repository already: it is only recorded.
    RecordExisting,
    /// The directory is created and a repository set up in it.
    Create,
}

/// What `init --name` does with the directory `dir`: record a repository
/// already there, refuse a directory that holds none, or create it.
pub fn plan_named_init(dir: &str, exists: bool, is_repo: bool) -> (r: Result<NamedInit, ArmError>)
    ensures
        match r {
            Ok(NamedInit::RecordExisting) => exists && is_repo,
            Ok(NamedInit::Create) => !exists,
            Err(e) => exists && !is_repo && e.kind == ArmErrorKind::DirectoryNotRepository
                && e.message@ == "Directory already exists but is not a git repository: "@ + dir@,
        },
{
    if exists {
        if is_repo {
            Ok(NamedInit::RecordExisting)
        } else {
            let mut m = String::new();
            m.append("Directory already exists but is not a git repository: ");
            m.append(dir);
            Err(ArmError { kind: ArmErrorKind::DirectoryNotRepository, message: m })
        }
    } else {
        Ok(NamedInit::Create)
    }
}

/// What `scan` made of a directory.
#[derive(PartialEq, Eq, Structural, Debug, Clone, Copy)]
pub enum ScanEntry {
    /// Its name starts with a dot: skipped.
    Hidden,
    /// A repository: recorded.
    Added,
    /// It looks like a repository but does not open.
    Invalid,
    /// No repository.
    NotRepository,
}

/// What `scan` has counted so far.
pub struct ScanTally {
    pub count: usize,
    pub added: usize,
}

/// Takes one directory of `~/.arm` into the scan: a hidden one is skipped;
/// any other is counted, and recorded under its name where it holds a
/// repository that opens.
pub fn scan_entry(
    tally: &mut ScanTally,
    repos: &mut RepoList,
    dir_name: &str,
    path: &str,
    is_repo: bool,
    opens: bool,
) -> (r: ScanEntry)
    requires
        old(tally).count < usize::MAX,
        old(tally).added < usize::MAX,
    ensures
        starts_with(dir_name@, "."@) ==> r == ScanEntry::Hidden && *final(tally) == *old(tally)
            && repo_views(final(repos).repos@) == repo_views(old(repos).repos@),
        !starts_with(dir_name@, "."@) ==> final(tally).count == old(tally).count + 1,
        !starts_with(dir_name@, "."@) && is_repo && opens ==> r == ScanEntry::Added
            && final(tally).added == old(tally).added + 1
            && repo_views(final(repos).repos@) == repos_after_add(repo_views(old(repos).repos@), dir_name@, path@),
        !starts_with(dir_name@, "."@) && is_repo && !opens ==> r == ScanEntry::Invalid
            && final(tally).added == old(tally).added
            && repo_views(final(repos).repos@) == repo_views(old(repos).repos@),
        !starts_with(dir_name@, "."@) && !is_repo ==> r == ScanEntry::NotRepository
            && final(tally).added == old(tally).added
            && repo_views(final(repos).repos@) == repo_views(old(repos).repos@),
{
    if starts_with_chars(&chars_of(dir_name), &chars_of(".")) {
        return ScanEntry::Hidden;
    }
    tally.count = tally.count + 1;
    if is_repo {
        if opens {
            add_repo(repos, dir_name, path);
            tally.added = tally.added + 1;
            ScanEntry::Added
        } else {
            ScanEntry::Invalid
        }
    } else {
        ScanEntry::NotRepository
    }
}

} // verus!

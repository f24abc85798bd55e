//! What `check`, `mount` and `show-version` report about a repository.
use crate::outside::{regex_is_match, regex_match_result};
use crate::registry::{EntryView, PathMapping};
use crate::keyed::pair_views;
use crate::text::{
    chars_of, contains, contains_chars, lemma_split_nonempty, lemma_strings_push,
    lines, lines_of, slice, split, split_chars, starts_with,
    starts_with_chars, str_eq, string_of, strings, texts, trim, trim_chars,
};
use crate::version::{strings_of, version_pattern};
use vstd::prelude::*;

verus! {

// ---------------------------------------------------------------------------
// Branch names
// ---------------------------------------------------------------------------
/// Whether a branch is a version branch (`v1`, `v2`, ...).
pub open spec fn is_version_branch(name: Seq<char>) -> bool {
    regex_match_result(version_pattern(), name) == Some(true)
}

/// The version branches among `names`, in order.
pub open spec fn version_branches(names: Seq<Seq<char>>) -> Seq<Seq<char>> {
    names.filter_map(|n: Seq<char>| version_branch(n))
}

/// The name, where it is a version branch.
pub open spec fn version_branch(name: Seq<char>) -> Option<Seq<char>> {
    if is_version_branch(name) {
        Some(name)
    } else {
        None
    }
}

/// The code of an error code branch (`error-E001` gives `E001`).
pub open spec fn error_code_of(name: Seq<char>) -> Option<Seq<char>> {
    if starts_with(name, "error-E"@) {
        Some(name.skip(6))
    } else {
        None
    }
}

/// The codes of the error code branches among `names`, in order.
pub open spec fn error_codes(names: Seq<Seq<char>>) -> Seq<Seq<char>> {
    names.filter_map(|n: Seq<char>| error_code_of(n))
}

/// The version branches among the branches, in order.
pub fn list_version_branches(branches: &Vec<String>) -> (r: Vec<String>)
    ensures
        strings(r@) == version_branches(strings_of(branches@)),
{
    let ghost names = strings_of(branches@);
    let mut out: Vec<String> = Vec::new();
    let mut i: usize = 0;
    while i < branches.len()
        invariant
            i <= branches.len(),
            names == strings_of(branches@),
            strings(out@) == names.take(i as int).filter_map(|n: Seq<char>| version_branch(n)),
        decreases branches.len() - i,
    {
        proof {
            names.lemma_filter_map_take_succ(|n: Seq<char>| version_branch(n), i as int);
        }
        if regex_is_match("^v(\\d+)$", branches[i].as_str()) == Some(true) {
            let b = branches[i].clone();
            proof {
                lemma_strings_push(out@, b);
            }
            out.push(b);
        }
        i = i + 1;
    }
    assert(names.take(branches.len() as int) =~= names);
    out
}

/// The codes of the error code branches, in order.
pub fn list_error_codes(branches: &Vec<String>) -> (r: Vec<String>)
    ensures
        strings(r@) == error_codes(strings_of(branches@)),
{
    let ghost names = strings_of(branches@);
    let mut out: Vec<String> = Vec::new();
    let mut i: usize = 0;
    let prefix = chars_of("error-E");
    proof {
        reveal_strlit("error-E");
    }
    while i < branches.len()
        invariant
            i <= branches.len(),
            names == strings_of(branches@),
            prefix@ == "error-E"@,
            prefix@.len() == 7,
            strings(out@) == names.take(i as int).filter_map(|n: Seq<char>| error_code_of(n)),
        decreases branches.len() - i,
    {
        proof {
            names.lemma_filter_map_take_succ(|n: Seq<char>| error_code_of(n), i as int);
        }
        let name = chars_of(branches[i].as_str());
        if starts_with_chars(&name, &prefix) {
            let code = string_of(&slice(&name, 6, name.len()));
            assert(code@ =~= name@.skip(6));
            proof {
                lemma_strings_push(out@, code);
            }
            out.push(code);
        }
        i = i + 1;
    }
    assert(names.take(branches.len() as int) =~= names);
    out
}

// ---------------------------------------------------------------------------
// check
// ---------------------------------------------------------------------------
/// What `check` found.
pub struct CheckReport {
    /// The checks passed, by name.
    pub passed: Vec<String>,
    /// The issues found.
    pub issues: Vec<String>,
    /// The version branches.
    pub versions: Vec<String>,
    /// The error codes that have branches.
    pub error_codes: Vec<String>,
}

/// `seq![s]` where `c` holds, else nothing.
pub open spec fn when(c: bool, s: Seq<char>) -> Seq<Seq<char>> {
    if c {
        seq![s]
    } else {
        seq![]
    }
}

/// The checks that pass, in the order `check` runs them.
pub open spec fn checks_passed(
    has_master: bool,
    has_api: bool,
    has_error: bool,
    has_mapping: bool,
    has_version_md: bool,
    names: Seq<Seq<char>>,
) -> Seq<Seq<char>> {
    when(has_master, "master"@) + when(has_api, "api"@) + when(has_error, "error"@) + when(
        has_mapping,
        "mapping.json"@,
    ) + when(has_version_md, "VERSION.md"@) + when(
        version_branches(names).len() > 0,
        "version branches"@,
    ) + when(error_codes(names).len() > 0, "error branches"@)
}

/// The issues, in the order `check` finds them.
pub open spec fn check_issues(
    has_master: bool,
    has_api: bool,
    has_error: bool,
    has_mapping: bool,
    has_version_md: bool,
    names: Seq<Seq<char>>,
) -> Seq<Seq<char>> {
    when(!has_master, "Missing master branch"@) + when(!has_api, "Missing api branch"@) + when(
        !has_error,
        "Missing error branch"@,
    ) + when(!has_mapping, "Missing .arm/mapping.json"@) + when(
        !has_version_md,
        "Missing VERSION.md"@,
    ) + when(version_branches(names).len() == 0, "No version branches (v1, v2, etc.)"@)
}

fn push_when(v: &mut Vec<String>, c: bool, s: &str)
    ensures
        strings(final(v)@) == strings(old(v)@) + when(c, s@),
{
    if c {
        let t = s.to_string();
        proof {
            lemma_strings_push(v@, t);
        }
        v.push(t);
        assert(strings(v@) =~= strings(old(v)@) + when(c, s@));
    } else {
        assert(strings(v@) =~= strings(old(v)@) + when(c, s@));
    }
}

/// What `check` reports, given what it found in the repository: the three
/// root branches, whether `.arm/mapping.json` and `VERSION.md` exist, and
/// the names of all branches.
pub fn check_report(
    has_master: bool,
    has_api: bool,
    has_error: bool,
    has_mapping: bool,
    has_version_md: bool,
    branches: &Vec<String>,
) -> (r: CheckReport)
    ensures
        strings(r.passed@) == checks_passed(
            has_master,
            has_api,
            has_error,
            has_mapping,
            has_version_md,
            strings_of(branches@),
        ),
        strings(r.issues@) == check_issues(
            has_master,
            has_api,
            has_error,
            has_mapping,
            has_version_md,
            strings_of(branches@),
        ),
        strings(r.versions@) == version_branches(strings_of(branches@)),
        strings(r.error_codes@) == error_codes(strings_of(branches@)),
{
    let versions = list_version_branches(branches);
    let error_codes = list_error_codes(branches);
    let mut passed: Vec<String> = Vec::new();
    let mut issues: Vec<String> = Vec::new();
    assert(strings(passed@) =~= Seq::<Seq<char>>::empty());
    assert(strings(issues@) =~= Seq::<Seq<char>>::empty());
    push_when(&mut passed, has_master, "master");
    push_when(&mut issues, !has_master, "Missing master branch");
    push_when(&mut passed, has_api, "api");
    push_when(&mut issues, !has_api, "Missing api branch");
    push_when(&mut passed, has_error, "error");
    push_when(&mut issues, !has_error, "Missing error branch");
    push_when(&mut passed, has_mapping, "mapping.json");
    push_when(&mut issues, !has_mapping, "Missing .arm/mapping.json");
    push_when(&mut passed, has_version_md, "VERSION.md");
    push_when(&mut issues, !has_version_md, "Missing VERSION.md");
    push_when(&mut passed, versions.len() > 0, "version branches");
    push_when(&mut issues, versions.len() == 0, "No version branches (v1, v2, etc.)");
    push_when(&mut passed, error_codes.len() > 0, "error branches");
    CheckReport { passed, issues, versions, error_codes }
}

/// A repository has no issues exactly when it has the three root branches,
/// the mapping file, VERSION.md and a version branch; every check either
/// passes or is an issue, except the error branches, which are never an
/// issue.
pub proof fn law_check_complete(
    has_master: bool,
    has_api: bool,
    has_error: bool,
    has_mapping: bool,
    has_version_md: bool,
    names: Seq<Seq<char>>,
)
    ensures
        check_issues(has_master, has_api, has_error, has_mapping, has_version_md, names).len()
            == 0 <==> (has_master && has_api && has_error && has_mapping && has_version_md
            && version_branches(names).len() > 0),
        checks_passed(has_master, has_api, has_error, has_mapping, has_version_md, names).len()
            + check_issues(has_master, has_api, has_error, has_mapping, has_version_md, names).len()
            == 6 + (if error_codes(names).len() > 0 {
            1int
        } else {
            0int
        }),
{
}

/// Whether a repository has the three root branches that make it an ARM
/// repository (what `mount` asks).
pub open spec fn is_arm_repo(has_master: bool, has_api: bool, has_error: bool) -> bool {
    has_master && has_api && has_error
}

pub fn is_arm_repository(has_master: bool, has_api: bool, has_error: bool) -> (r: bool)
    ensures
        r == is_arm_repo(has_master, has_api, has_error),
{
    has_master && has_api && has_error
}

// ---------------------------------------------------------------------------
// show-version
// ---------------------------------------------------------------------------
/// The position of the first line naming `## Current Version`.
pub open spec fn current_version_line(ls: Seq<Seq<char>>) -> Option<int>
    decreases ls.len(),
{
    if ls.len() == 0 {
        None
    } else {
        match current_version_line(ls.drop_last()) {
            Some(i) => Some(i),
            None => if contains(ls.last(), "## Current Version"@) {
                Some(ls.len() - 1)
            } else {
                None
            },
        }
    }
}

/// The description `show-version` gives: the trimmed line after the first
/// one that names `## Current Version`, unless it is blank or missing.
pub open spec fn version_description(md: Seq<char>) -> Seq<char> {
    let ls = lines(md);
    match current_version_line(ls) {
        Some(k) => if k + 1 < ls.len() && trim(ls[k + 1]).len() > 0 {
            trim(ls[k + 1])
        } else {
            "No description"@
        },
        None => "No description"@,
    }
}

pub proof fn lemma_current_version_line(ls: Seq<Seq<char>>)
    ensures
        match current_version_line(ls) {
            Some(k) => 0 <= k < ls.len() && contains(ls[k], "## Current Version"@) && forall|j: int|
                0 <= j < k ==> !contains(#[trigger] ls[j], "## Current Version"@),
            None => forall|j: int| 0 <= j < ls.len() ==> !contains(#[trigger] ls[j], "## Current Version"@),
        },
    decreases ls.len(),
{
    if ls.len() > 0 {
        lemma_current_version_line(ls.drop_last());
        assert(forall|j: int| 0 <= j < ls.len() - 1 ==> ls.drop_last()[j] == ls[j]);
    }
}

/// The description of the current version in VERSION.md.
pub fn describe_version(version_md: &str) -> (r: String)
    ensures
        r@ == version_description(version_md@),
{
    let ls = lines_of(&chars_of(version_md));
    let ghost lv = texts(ls@);
    let marker = chars_of("## Current Version");
    let mut i: usize = 0;
    while i < ls.len()
        invariant
            i <= ls.len(),
            lv == texts(ls@),
            lv == lines(version_md@),
            marker@ == "## Current Version"@,
            forall|j: int| 0 <= j < i ==> !contains(#[trigger] lv[j], "## Current Version"@),
        decreases ls.len() - i,
    {
        assert(lv[i as int] == ls@[i as int]@);
        if contains_chars(&ls[i], &marker) {
            proof {
                lemma_current_version_line(lv);
                match current_version_line(lv) {
                    Some(k) => {
                        if k < i {
                            assert(!contains(lv[k], "## Current Version"@));
                        }
                        if k > i {
                            assert(!contains(lv[i as int], "## Current Version"@));
                        }
                    },
                    None => {
                        assert(!contains(lv[i as int], "## Current Version"@));
                    },
                }
                assert(current_version_line(lv) == Some(i as int));
            }
            if i + 1 < ls.len() {
                let t = trim_chars(&ls[i + 1]);
                assert(lv[i + 1] == ls@[i + 1]@);
                if t.len() > 0 {
                    return string_of(&t);
                }
            }
            return "No description".to_string();
        }
        i = i + 1;
    }
    proof {
        lemma_current_version_line(lv);
        match current_version_line(lv) {
            Some(k) => {
                assert(!contains(lv[k], "## Current Version"@));
            },
            None => {},
        }
    }
    "No description".to_string()
}

/// One method that `show-version` lists.
pub struct VersionItem {
    /// The method's path after the version: `category/resource/METHOD`.
    pub path: String,
    /// The method: the last piece of the path.
    pub method: String,
}

/// What `show-version` lists for one mapping entry: a method entry of the
/// version `latest` is shown as its path after `latest/`, with its last
/// piece as the method; every other entry is left out.
pub open spec fn version_item(
    latest: Seq<char>,
    path: Seq<char>,
    entry: EntryView,
) -> Option<(Seq<char>, Seq<char>)> {
    let prefix = latest + "/"@;
    if starts_with(path, prefix) && entry.entry_type == "method"@ {
        let shown = path.skip(prefix.len() as int);
        Some((shown, split(shown, '/').last()))
    } else {
        None
    }
}

/// What `show-version` lists, in the order of the mapping's entries.
pub open spec fn version_items(
    latest: Seq<char>,
    entries: Seq<(Seq<char>, EntryView)>,
) -> Seq<(Seq<char>, Seq<char>)> {
    entries.filter_map(|e: (Seq<char>, EntryView)| version_item(latest, e.0, e.1))
}

/// The view of a listed item.
pub open spec fn item_view(i: VersionItem) -> (Seq<char>, Seq<char>) {
    (i.path@, i.method@)
}

/// The methods of the version `latest`.
pub fn version_listing(mapping: &PathMapping, latest: &str) -> (r: Vec<VersionItem>)
    ensures
        r@.map_values(|i: VersionItem| item_view(i)) == version_items(latest@, mapping@.entries),
{
    let entries = mapping.entries();
    let ghost es = pair_views(entries@);
    let mut prefix = String::new();
    prefix.append(latest);
    prefix.append("/");
    let pre = chars_of(prefix.as_str());
    proof {
        reveal_strlit("/");
    }
    let mut out: Vec<VersionItem> = Vec::new();
    let mut i: usize = 0;
    while i < entries.len()
        invariant
            i <= entries.len(),
            es == pair_views(entries@),
            es == mapping@.entries,
            pre@ == latest@ + "/"@,
            out@.map_values(|it: VersionItem| item_view(it)) == es.take(i as int).filter_map(
                |e: (Seq<char>, EntryView)| version_item(latest@, e.0, e.1),
            ),
        decreases entries.len() - i,
    {
        proof {
            es.lemma_filter_map_take_succ(
                |e: (Seq<char>, EntryView)| version_item(latest@, e.0, e.1),
                i as int,
            );
        }
        let path = chars_of(entries[i].0.as_str());
        let entry = &entries[i].1;
        assert(es[i as int] == (path@, entry@));
        if starts_with_chars(&path, &pre) && str_eq(entry.entry_type.as_str(), "method") {
            let shown = slice(&path, pre.len(), path.len());
            assert(shown@ =~= path@.skip(pre@.len() as int));
            let parts = split_chars(&shown, '/');
            proof {
                lemma_split_nonempty(shown@, '/');
            }
            let last = parts.len() - 1;
            assert(texts(parts@)[last as int] == parts@[last as int]@);
            let item = VersionItem { path: string_of(&shown), method: string_of(&parts[last]) };
            let ghost before = out@;
            out.push(item);
            assert(out@.map_values(|it: VersionItem| item_view(it)) =~= before.map_values(
                |it: VersionItem| item_view(it),
            ).push(item_view(item)));
        }
        i = i + 1;
    }
    assert(es.take(entries.len() as int) =~= es);
    out
}

/// Whether the mapping records anything under the version `latest`: some
/// path that starts with `latest/`.
pub open spec fn version_in_use(latest: Seq<char>, entries: Seq<(Seq<char>, EntryView)>) -> bool {
    exists|i: int| 0 <= i < entries.len() && starts_with(#[trigger] entries[i].0, latest + "/"@)
}

/// Whether the mapping records anything under the version `latest`, as
/// `show-version` tests before listing its methods.
pub fn version_has_entries(mapping: &PathMapping, latest: &str) -> (r: bool)
    ensures
        r == version_in_use(latest@, mapping@.entries),
{
    let entries = mapping.entries();
    let ghost es = pair_views(entries@);
    let mut prefix = String::new();
    prefix.append(latest);
    prefix.append("/");
    let pre = chars_of(prefix.as_str());
    let mut i: usize = 0;
    while i < entries.len()
        invariant
            i <= entries.len(),
            es == pair_views(entries@),
            es == mapping@.entries,
            pre@ == latest@ + "/"@,
            forall|j: int| 0 <= j < i ==> !starts_with(#[trigger] es[j].0, latest@ + "/"@),
        decreases entries.len() - i,
    {
        let path = chars_of(entries[i].0.as_str());
        assert(es[i as int].0 == path@);
        if starts_with_chars(&path, &pre) {
            return true;
        }
        i = i + 1;
    }
    false
}

} // verus!

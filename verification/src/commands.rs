//! The decisions of the registry commands: what each new branch is called,
//! what its document says, and how the mapping records it. Running git and
//! writing files is left to the caller, which follows the plan.
use crate::docs::{
    category_info, category_info_text, endpoint_info, endpoint_info_text, error_draft,
    error_draft_text, error_info, error_info_text, method_info, method_info_text, version_info,
    version_info_text,
};
use crate::error::{ArmError, ArmErrorKind};
use crate::outside::{
    os_random_u64, regex_group, regex_group_result, regex_is_match, regex_match_result,
    to_uppercase, uppercase,
};
use crate::registry::{mapping_added, MappingView, PathMapping};
use crate::text::{
    chars_of, decimal, decimal_chars, join, join_chars, lemma_join_split, parse_unsigned, parse_unsigned_chars,
    slice, split, split_chars, str_eq, string_of, texts, lemma_texts_push, starts_with,
    starts_with_chars,
};
use vstd::prelude::*;

verus! {

// ---------------------------------------------------------------------------
// Small pieces
// ---------------------------------------------------------------------------
/// `a/b`.
pub open spec fn slash(a: Seq<char>, b: Seq<char>) -> Seq<char> {
    a + "/"@ + b
}

fn slash_text(a: &str, b: &str) -> (r: String)
    ensures
        r@ == slash(a@, b@),
{
    let mut s = String::new();
    s.append(a);
    s.append("/");
    s.append(b);
    s
}

/// `a-b`.
pub open spec fn dash(a: Seq<char>, b: Seq<char>) -> Seq<char> {
    a + "-"@ + b
}

fn dash_text(a: &str, b: &str) -> (r: String)
    ensures
        r@ == dash(a@, b@),
{
    let mut s = String::new();
    s.append(a);
    s.append("-");
    s.append(b);
    s
}

/// The text given, or `default` where none was.
pub open spec fn or_default(o: Option<Seq<char>>, default: Seq<char>) -> Seq<char> {
    match o {
        Some(s) => s,
        None => default,
    }
}

pub open spec fn opt_str(o: Option<&str>) -> Option<Seq<char>> {
    match o {
        Some(s) => Some(s@),
        None => None,
    }
}

fn or_default_text(o: Option<&str>, default: &str) -> (r: String)
    ensures
        r@ == or_default(opt_str(o), default@),
{
    match o {
        Some(s) => s.to_string(),
        None => default.to_string(),
    }
}

/// The characters that branch codes are made of.
pub open spec fn code_alphabet() -> Seq<char> {
    "abcdefghijklmnopqrstuvwxyz0123456789"@
}

/// The code that eight draws below 36 pick: the `i`-th character is the
/// letter or digit at place `draws[i]` of the alphabet.
pub open spec fn code_of_draws(draws: Seq<usize>) -> Seq<char> {
    Seq::new(8, |i: int| code_alphabet()[draws[i] as int])
}

/// Draws that can pick a code: eight numbers, each below 36.
pub open spec fn valid_draws(draws: Seq<usize>) -> bool {
    draws.len() == 8 && forall|i: int| 0 <= i < 8 ==> #[trigger] draws[i] < 36
}

/// The code that `draws` pick from the alphabet.
pub fn code_from_draws(draws: &Vec<usize>) -> (r: String)
    requires
        valid_draws(draws@),
    ensures
        r@ == code_of_draws(draws@),
{
    let chars = chars_of("abcdefghijklmnopqrstuvwxyz0123456789");
    proof {
        reveal_strlit("abcdefghijklmnopqrstuvwxyz0123456789");
    }
    let mut out: Vec<char> = Vec::new();
    let mut k: usize = 0;
    while k < 8
        invariant
            k <= 8,
            valid_draws(draws@),
            chars@ == code_alphabet(),
            chars@.len() == 36,
            out@ =~= code_of_draws(draws@).take(k as int),
        decreases 8 - k,
    {
        let j = draws[k];
        let c = chars[j];
        out.push(c);
        k = k + 1;
    }
    string_of(&out)
}

/// A random code of eight lower-case letters and digits, to tell branches
/// apart: the code that eight draws from the operating system's random
/// source pick, each taken modulo 36; `None` where that source fails.
pub fn generate_random_code() -> (r: Option<String>)
    ensures
        match r {
            Some(s) => exists|d: Seq<usize>| valid_draws(d) && s@ == code_of_draws(d),
            None => true,
        },
{
    let mut draws: Vec<usize> = Vec::new();
    let mut k: usize = 0;
    while k < 8
        invariant
            k <= 8,
            draws@.len() == k,
            forall|i: int| 0 <= i < k ==> #[trigger] draws@[i] < 36,
        decreases 8 - k,
    {
        let x = match os_random_u64() {
            Some(x) => x,
            None => {
                return None;
            },
        };
        draws.push((x % 36) as usize);
        k = k + 1;
    }
    let code = code_from_draws(&draws);
    Some(code)
}

// ---------------------------------------------------------------------------
// New versions
// ---------------------------------------------------------------------------
/// The number in the name of the latest version (0 where there is none to
/// read).
pub open spec fn base_number(latest: Seq<char>) -> nat {
    match regex_group_result("v(\\d+)"@, latest, 1) {
        Some(g) => match parse_unsigned(g, 4294967295) {
            Some(n) => n,
            None => 0,
        },
        None => 0,
    }
}

/// The number of the version that `registry new` creates.
pub open spec fn next_version_number(latest: Option<Seq<char>>) -> nat {
    match latest {
        Some(v) => base_number(v) + 1,
        None => 1,
    }
}

/// The branch a new version is made from.
pub open spec fn version_source(latest: Option<Seq<char>>) -> Seq<char> {
    or_default(latest, "api"@)
}

/// What `registry new` does.
pub struct VersionPlan {
    /// The name of the new version branch.
    pub new_version: String,
    /// The branch it is made from.
    pub source: String,
    /// Its INFO.md.
    pub info_md: String,
    /// The commit on the new branch.
    pub commit_message: String,
    /// The commit on master that records it in VERSION.md.
    pub record_message: String,
    /// The description recorded.
    pub description: String,
}

/// Plans `registry new`: the version after `latest`, its INFO.md, and its
/// entry in the mapping. `None` where the next number would not fit in a
/// `u32`; the mapping is then left as it was.
pub fn plan_version(
    latest: Option<&str>,
    description: Option<&str>,
    date: &str,
    mapping: &mut PathMapping,
) -> (r: Option<VersionPlan>)
    ensures
        match r {
            None => next_version_number(opt_str(latest)) > 4294967295 && final(mapping)@ == old(
                mapping,
            )@,
            Some(p) => {
                let v = "v"@ + decimal(next_version_number(opt_str(latest)));
                let source = version_source(opt_str(latest));
                let desc = or_default(opt_str(description), "New API version"@);
                &&& next_version_number(opt_str(latest)) <= 4294967295
                &&& p.new_version@ == v
                &&& p.source@ == source
                &&& p.description@ == desc
                &&& p.info_md@ == version_info(v, desc, date@, source)
                &&& p.commit_message@ == "[VERSION] Create "@ + v + " from "@ + source
                &&& p.record_message@ == "[VERSION] Record "@ + v + " in master"@
                &&& mapping_added(
                    old(mapping)@,
                    final(mapping)@,
                    v,
                    v,
                    "version"@,
                    Some("api"@),
                    date@,
                )
            },
        },
{
    let number: u64 = match latest {
        Some(v) => {
            let base: u64 = match regex_group("v(\\d+)", v, 1) {
                Some(g) => match parse_unsigned_chars(&chars_of(g.as_str()), 4294967295) {
                    Some(n) => n,
                    None => 0,
                },
                None => 0,
            };
            if base >= 4294967295 {
                return None;
            }
            base + 1
        },
        None => 1,
    };
    let mut name = String::new();
    name.append("v");
    name.append(string_of(&decimal_chars(number)).as_str());
    let source = or_default_text(latest, "api");
    let desc = or_default_text(description, "New API version");
    let info_md = version_info_text(name.as_str(), desc.as_str(), date, source.as_str());
    mapping.add_with_created(name.as_str(), name.as_str(), "version", Some("api"), date);
    let mut commit_message = String::new();
    commit_message.append("[VERSION] Create ");
    commit_message.append(name.as_str());
    commit_message.append(" from ");
    commit_message.append(source.as_str());
    let mut record_message = String::new();
    record_message.append("[VERSION] Record ");
    record_message.append(name.as_str());
    record_message.append(" in master");
    Some(
        VersionPlan {
            new_version: name,
            source,
            info_md,
            commit_message,
            record_message,
            description: desc,
        },
    )
}

// ---------------------------------------------------------------------------
// Categories, endpoints, methods
// ---------------------------------------------------------------------------
/// What creating a branch for a category or an endpoint does.
pub struct BranchPlan {
    /// The new branch.
    pub branch_name: String,
    /// The branch it is made from.
    pub parent_branch: String,
    /// The path the mapping records it under.
    pub full_path: String,
    /// Its INFO.md.
    pub info_md: String,
    /// Its commit.
    pub commit_message: String,
}

/// Plans `registry category`: a branch off the latest version, recorded
/// under `latest/name`.
pub fn plan_category(
    latest: Option<&str>,
    name: &str,
    description: Option<&str>,
    code: &str,
    date: &str,
    mapping: &mut PathMapping,
) -> (r: Result<BranchPlan, ArmError>)
    ensures
        match r {
            Err(e) => latest is None && e.kind == ArmErrorKind::NoVersion && e.message@
                == "No version found. Create one with 'arm registry new'"@ && final(mapping)@ == old(
                mapping,
            )@,
            Ok(p) => {
                let v = latest->0@;
                let desc = or_default(opt_str(description), "New category"@);
                &&& latest is Some
                &&& p.branch_name@ == dash(v, code@)
                &&& p.parent_branch@ == v
                &&& p.full_path@ == slash(v, name@)
                &&& p.info_md@ == category_info(name@, desc, v, date@)
                &&& p.commit_message@ == "[CATEGORY] Create "@ + name@
                &&& mapping_added(
                    old(mapping)@,
                    final(mapping)@,
                    slash(v, name@),
                    dash(v, code@),
                    "category"@,
                    Some(v),
                    date@,
                )
            },
        },
{
    let latest = match latest {
        Some(v) => v,
        None => {
            return Err(
                ArmError::new(
                    ArmErrorKind::NoVersion,
                    "No version found. Create one with 'arm registry new'",
                ),
            );
        },
    };
    let branch_name = dash_text(latest, code);
    let desc = or_default_text(description, "New category");
    let info_md = category_info_text(name, desc.as_str(), latest, date);
    let full_path = slash_text(latest, name);
    mapping.add_with_created(full_path.as_str(), branch_name.as_str(), "category", Some(latest), date);
    let mut commit_message = String::new();
    commit_message.append("[CATEGORY] Create ");
    commit_message.append(name);
    Ok(
        BranchPlan {
            branch_name,
            parent_branch: latest.to_string(),
            full_path,
            info_md,
            commit_message,
        },
    )
}

/// The category part of an endpoint path: all but its last segment.
pub open spec fn path_category(path: Seq<char>) -> Seq<char> {
    join(split(path, '/').drop_last(), "/"@)
}

/// The resource of an endpoint path: its last segment.
pub open spec fn path_resource(path: Seq<char>) -> Seq<char> {
    split(path, '/').last()
}

/// Why creating an endpoint is refused, if it is.
pub open spec fn endpoint_refusal(
    latest: Option<Seq<char>>,
    path: Seq<char>,
    mapping: MappingView,
) -> Option<ArmErrorKind> {
    if split(path, '/').len() < 2 {
        Some(ArmErrorKind::InvalidEndpointPath)
    } else if latest is None {
        Some(ArmErrorKind::NoVersion)
    } else if !mapping.entry_map().contains_key(slash(latest->0, path_category(path))) {
        Some(ArmErrorKind::CategoryNotFound)
    } else {
        None
    }
}

/// The message that comes with a refused endpoint.
pub open spec fn endpoint_refusal_message(
    latest: Option<Seq<char>>,
    path: Seq<char>,
    mapping: MappingView,
) -> Seq<char> {
    match endpoint_refusal(latest, path, mapping) {
        Some(ArmErrorKind::InvalidEndpointPath) => "Invalid endpoint path '"@ + path
            + "'. Must be in format 'category/resource'"@,
        Some(ArmErrorKind::NoVersion) => "No version found. Create one with 'arm registry new'"@,
        Some(ArmErrorKind::CategoryNotFound) => "Category '"@ + path_category(path) + "' not found"@,
        _ => seq![],
    }
}

/// An endpoint is recorded under its version and the path it was created
/// with: its category, a slash and its resource give the path back. So the
/// branch recorded for a new endpoint is the one that `show` and `update`
/// find for that path.
pub proof fn law_endpoint_recorded_at_path(
    before: MappingView,
    after: MappingView,
    v: Seq<char>,
    path: Seq<char>,
    branch: Seq<char>,
    parent: Option<Seq<char>>,
    date: Seq<char>,
)
    requires
        split(path, '/').len() >= 2,
        mapping_added(
            before,
            after,
            slash(slash(v, path_category(path)), path_resource(path)),
            branch,
            "endpoint"@,
            parent,
            date,
        ),
    ensures
        slash(slash(v, path_category(path)), path_resource(path)) == slash(v, path),
        after.entry_map().contains_key(slash(v, path)),
        after.entry_map()[slash(v, path)].branch == branch,
{
    reveal_strlit("/");
    let parts = split(path, '/');
    lemma_join_split(path, '/');
    assert("/"@ =~= seq!['/']);
    assert(join(parts, "/"@) == join(parts.drop_last(), "/"@) + "/"@ + parts.last());
    assert(slash(slash(v, path_category(path)), path_resource(path)) =~= slash(v, path));
}

/// Plans `registry endpoint category/resource`: a branch off the
/// category's branch, recorded under `latest/category/resource`.
pub fn plan_endpoint(
    latest: Option<&str>,
    path: &str,
    description: Option<&str>,
    code: &str,
    date: &str,
    mapping: &mut PathMapping,
) -> (r: Result<BranchPlan, ArmError>)
    ensures
        match r {
            Err(e) => endpoint_refusal(opt_str(latest), path@, old(mapping)@) == Some(e.kind)
                && e.message@ == endpoint_refusal_message(opt_str(latest), path@, old(mapping)@)
                && final(mapping)@ == old(mapping)@,
            Ok(p) => {
                let v = latest->0@;
                let category = path_category(path@);
                let resource = path_resource(path@);
                let desc = or_default(opt_str(description), "New endpoint"@);
                let parent = old(mapping)@.entry_map()[slash(v, category)].branch;
                &&& endpoint_refusal(opt_str(latest), path@, old(mapping)@) is None
                &&& p.branch_name@ == dash(v, code@)
                &&& p.parent_branch@ == parent
                &&& p.full_path@ == slash(slash(v, category), resource)
                &&& p.info_md@ == endpoint_info(resource, path@, category, desc, v, date@)
                &&& p.commit_message@ == "[ENDPOINT] Create "@ + path@
                &&& mapping_added(
                    old(mapping)@,
                    final(mapping)@,
                    slash(slash(v, category), resource),
                    dash(v, code@),
                    "endpoint"@,
                    Some(parent),
                    date@,
                )
            },
        },
{
    let parts = split_chars(&chars_of(path), '/');
    if parts.len() < 2 {
        return Err(ArmError::about(
                ArmErrorKind::InvalidEndpointPath,
                "Invalid endpoint path '",
                path,
                "'. Must be in format 'category/resource'",
            ));
    }
    let ghost pv = texts(parts@);
    let front = slice_parts(&parts, parts.len() - 1);
    assert(texts(front@) =~= pv.drop_last());
    let category = string_of(&join_chars(&front, &chars_of("/")));
    let resource = string_of(&parts[parts.len() - 1]);
    assert(pv.last() == parts@[parts.len() - 1]@);
    let latest = match latest {
        Some(v) => v,
        None => {
            return Err(
                ArmError::new(
                    ArmErrorKind::NoVersion,
                    "No version found. Create one with 'arm registry new'",
                ),
            );
        },
    };
    let category_path = slash_text(latest, category.as_str());
    let parent_branch = match mapping.get_by_path(category_path.as_str()) {
        Some(entry) => entry.branch.clone(),
        None => {
            return Err(ArmError::about(
                    ArmErrorKind::CategoryNotFound,
                    "Category '",
                    category.as_str(),
                    "' not found",
                ));
        },
    };
    let branch_name = dash_text(latest, code);
    let desc = or_default_text(description, "New endpoint");
    let info_md = endpoint_info_text(
        resource.as_str(),
        path,
        category.as_str(),
        desc.as_str(),
        latest,
        date,
    );
    let full_path = slash_text(category_path.as_str(), resource.as_str());
    mapping.add_with_created(
        full_path.as_str(),
        branch_name.as_str(),
        "endpoint",
        Some(parent_branch.as_str()),
        date,
    );
    let mut commit_message = String::new();
    commit_message.append("[ENDPOINT] Create ");
    commit_message.append(path);
    Ok(BranchPlan { branch_name, parent_branch, full_path, info_md, commit_message })
}

/// The first `n` of the pieces.
fn slice_parts(parts: &Vec<Vec<char>>, n: usize) -> (r: Vec<Vec<char>>)
    requires
        n <= parts.len(),
    ensures
        texts(r@) == texts(parts@).take(n as int),
{
    let mut out: Vec<Vec<char>> = Vec::new();
    let mut i: usize = 0;
    while i < n
        invariant
            i <= n <= parts.len(),
            texts(out@) == texts(parts@).take(i as int),
        decreases n - i,
    {
        let piece = parts[i].clone();
        proof {
            lemma_texts_push(out@, piece);
        }
        out.push(piece);
        assert(texts(out@) =~= texts(parts@).take(i + 1));
        i = i + 1;
    }
    out
}

/// The HTTP methods that a method branch may be named for.
pub open spec fn is_http_method(m: Seq<char>) -> bool {
    m == "GET"@ || m == "POST"@ || m == "PUT"@ || m == "DELETE"@ || m == "PATCH"@ || m == "HEAD"@
        || m == "OPTIONS"@
}

/// The method of a method path: its last segment in upper case.
pub open spec fn path_method(path: Seq<char>) -> Seq<char> {
    uppercase(split(path, '/').last())
}

/// The endpoint of a method path: all but its last segment.
pub open spec fn method_endpoint(path: Seq<char>) -> Seq<char> {
    join(split(path, '/').drop_last(), "/"@)
}

/// Why creating a method is refused before any endpoint is looked up, if
/// it is.
pub open spec fn method_refusal(latest: Option<Seq<char>>, path: Seq<char>) -> Option<ArmErrorKind> {
    if split(path, '/').len() < 3 {
        Some(ArmErrorKind::InvalidMethodPath)
    } else if !is_http_method(path_method(path)) {
        Some(ArmErrorKind::InvalidHttpMethod)
    } else if latest is None {
        Some(ArmErrorKind::NoVersion)
    } else {
        None
    }
}

/// The message that comes with a method refused before any endpoint is
/// looked up.
pub open spec fn method_refusal_message(latest: Option<Seq<char>>, path: Seq<char>) -> Seq<char> {
    match method_refusal(latest, path) {
        Some(ArmErrorKind::InvalidMethodPath) => "Invalid method path '"@ + path
            + "'. Must be in format 'category/resource/METHOD'"@,
        Some(ArmErrorKind::InvalidHttpMethod) => "Invalid HTTP method '"@ + path_method(path) + "'"@,
        Some(ArmErrorKind::NoVersion) => "No version found"@,
        _ => seq![],
    }
}

/// Every one of the seven HTTP methods can be created: a method path of
/// at least three segments whose last segment, in upper case, is `GET`,
/// `POST`, `PUT`, `DELETE`, `PATCH`, `HEAD` or `OPTIONS` is never refused
/// once there is a version.
pub proof fn law_http_methods_accepted(v: Seq<char>, path: Seq<char>)
    requires
        split(path, '/').len() >= 3,
        path_method(path) == "GET"@ || path_method(path) == "POST"@ || path_method(path) == "PUT"@
            || path_method(path) == "DELETE"@ || path_method(path) == "PATCH"@ || path_method(path)
            == "HEAD"@ || path_method(path) == "OPTIONS"@,
    ensures
        method_refusal(Some(v), path) is None,
        method_refusal(Some(v), path) != Some(ArmErrorKind::InvalidHttpMethod),
{
}

/// What `registry method` does.
pub struct MethodPlan {
    /// The endpoint to create first, where it does not exist yet.
    pub endpoint: Option<BranchPlan>,
    /// The method in upper case.
    pub method: String,
    /// The new branch.
    pub branch_name: String,
    /// The endpoint's branch, which it is made from.
    pub parent_branch: String,
    /// The path the mapping records it under.
    pub full_path: String,
    /// Its INFO.md.
    pub info_md: String,
    /// Its commit.
    pub commit_message: String,
}

/// Whether the method is one that a method branch may be named for.
fn is_http_method_text(m: &str) -> (r: bool)
    ensures
        r == is_http_method(m@),
{
    str_eq(m, "GET") || str_eq(m, "POST") || str_eq(m, "PUT") || str_eq(m, "DELETE") || str_eq(
        m,
        "PATCH",
    ) || str_eq(m, "HEAD") || str_eq(m, "OPTIONS")
}

/// Plans `registry method category/resource/METHOD`: a branch off the
/// endpoint's branch, recorded under `latest/path`; where the endpoint is
/// not in the mapping, it is planned first, with `endpoint_code` and the
/// description `Auto-created`.
pub fn plan_method(
    latest: Option<&str>,
    path: &str,
    description: Option<&str>,
    endpoint_code: &str,
    code: &str,
    date: &str,
    mapping: &mut PathMapping,
) -> (r: Result<MethodPlan, ArmError>)
    ensures
        match r {
            Err(e) => {
                ||| method_refusal(opt_str(latest), path@) == Some(e.kind) && e.message@
                    == method_refusal_message(opt_str(latest), path@) && final(mapping)@ == old(
                    mapping,
                )@
                ||| method_refusal(opt_str(latest), path@) is None && !old(
                    mapping,
                )@.entry_map().contains_key(slash(latest->0@, method_endpoint(path@)))
                    && endpoint_refusal(opt_str(latest), method_endpoint(path@), old(mapping)@)
                    == Some(e.kind) && e.message@ == endpoint_refusal_message(
                    opt_str(latest),
                    method_endpoint(path@),
                    old(mapping)@,
                ) && final(mapping)@ == old(mapping)@
            },
            Ok(p) => {
                let v = latest->0@;
                let parts = split(path@, '/');
                let method = path_method(path@);
                let endpoint_path = method_endpoint(path@);
                let desc = or_default(opt_str(description), "New method"@);
                let category = join(parts.take(parts.len() - 2), "/"@);
                let resource = parts[parts.len() - 2];
                &&& method_refusal(opt_str(latest), path@) is None
                &&& p.method@ == method
                &&& p.branch_name@ == dash(v, code@)
                &&& p.full_path@ == slash(v, path@)
                &&& p.info_md@ == method_info(method, path@, v, category, resource, desc, date@)
                &&& p.commit_message@ == "[METHOD] Create "@ + path@ + " "@ + method
                &&& match p.endpoint {
                    None => old(mapping)@.entry_map().contains_key(slash(v, endpoint_path))
                        && p.parent_branch@ == old(mapping)@.entry_map()[slash(
                        v,
                        endpoint_path,
                    )].branch && mapping_added(
                        old(mapping)@,
                        final(mapping)@,
                        slash(v, path@),
                        dash(v, code@),
                        "method"@,
                        Some(p.parent_branch@),
                        date@,
                    ),
                    Some(ep) => !old(mapping)@.entry_map().contains_key(slash(v, endpoint_path))
                        && endpoint_refusal(opt_str(latest), endpoint_path, old(mapping)@) is None
                        && ep.full_path@ == slash(
                        slash(v, path_category(endpoint_path)),
                        path_resource(endpoint_path),
                    ) && ep.parent_branch@ == old(mapping)@.entry_map()[slash(
                        v,
                        path_category(endpoint_path),
                    )].branch && ep.info_md@ == endpoint_info(
                        path_resource(endpoint_path),
                        endpoint_path,
                        path_category(endpoint_path),
                        "Auto-created"@,
                        v,
                        date@,
                    ) && ep.commit_message@ == "[ENDPOINT] Create "@ + endpoint_path
                        && p.parent_branch@ == ep.branch_name@ && ep.branch_name@ == dash(
                        v,
                        endpoint_code@,
                    ) && exists|mid: MappingView|
                        mapping_added(
                            old(mapping)@,
                            mid,
                            ep.full_path@,
                            ep.branch_name@,
                            "endpoint"@,
                            Some(ep.parent_branch@),
                            date@,
                        ) && mapping_added(
                            mid,
                            final(mapping)@,
                            slash(v, path@),
                            dash(v, code@),
                            "method"@,
                            Some(p.parent_branch@),
                            date@,
                        ),
                }
            },
        },
{
    let parts = split_chars(&chars_of(path), '/');
    if parts.len() < 3 {
        return Err(ArmError::about(
                ArmErrorKind::InvalidMethodPath,
                "Invalid method path '",
                path,
                "'. Must be in format 'category/resource/METHOD'",
            ));
    }
    let ghost pv = texts(parts@);
    assert(pv.last() == parts@[parts.len() - 1]@);
    let last = string_of(&parts[parts.len() - 1]);
    let method = to_uppercase(last.as_str());
    if !is_http_method_text(method.as_str()) {
        return Err(ArmError::about(
                ArmErrorKind::InvalidHttpMethod,
                "Invalid HTTP method '",
                method.as_str(),
                "'",
            ));
    }
    let front = slice_parts(&parts, parts.len() - 1);
    assert(texts(front@) =~= pv.drop_last());
    let endpoint_path = string_of(&join_chars(&front, &chars_of("/")));
    let latest_v = match latest {
        Some(v) => v,
        None => {
            return Err(ArmError::new(ArmErrorKind::NoVersion, "No version found"));
        },
    };
    let lookup = slash_text(latest_v, endpoint_path.as_str());
    let ghost before = mapping@;
    let (endpoint, parent_branch) = match mapping.get_by_path(lookup.as_str()) {
        Some(entry) => (None, entry.branch.clone()),
        None => {
            let ep = plan_endpoint(
                latest,
                endpoint_path.as_str(),
                Some("Auto-created"),
                endpoint_code,
                date,
                mapping,
            )?;
            let b = ep.branch_name.clone();
            (Some(ep), b)
        },
    };
    let ghost mid = mapping@;
    let branch_name = dash_text(latest_v, code);
    let desc = or_default_text(description, "New method");
    let head = slice_parts(&parts, parts.len() - 2);
    assert(texts(head@) =~= pv.take(pv.len() - 2));
    let category = string_of(&join_chars(&head, &chars_of("/")));
    assert(pv[pv.len() - 2] == parts@[parts.len() - 2]@);
    let resource = string_of(&parts[parts.len() - 2]);
    let info_md = method_info_text(
        method.as_str(),
        path,
        latest_v,
        category.as_str(),
        resource.as_str(),
        desc.as_str(),
        date,
    );
    let full_path = slash_text(latest_v, path);
    mapping.add_with_created(
        full_path.as_str(),
        branch_name.as_str(),
        "method",
        Some(parent_branch.as_str()),
        date,
    );
    let mut commit_message = String::new();
    commit_message.append("[METHOD] Create ");
    commit_message.append(path);
    commit_message.append(" ");
    commit_message.append(method.as_str());
    assert(endpoint is Some ==> mapping_added(
        before,
        mid,
        endpoint->0.full_path@,
        endpoint->0.branch_name@,
        "endpoint"@,
        Some(endpoint->0.parent_branch@),
        date@,
    ));
    Ok(
        MethodPlan {
            endpoint,
            method,
            branch_name,
            parent_branch,
            full_path,
            info_md,
            commit_message,
        },
    )
}

// ---------------------------------------------------------------------------
// Error codes
// ---------------------------------------------------------------------------
/// The pattern an error code matches: `E` and exactly three digits.
pub open spec fn error_code_pattern() -> Seq<char> {
    "^E\\d{3}$"@
}

/// What `registry error` does.
pub struct ErrorPlan {
    /// The new branch.
    pub branch_name: String,
    /// The path the mapping records it under.
    pub full_path: String,
    /// ERROR.md as first written.
    pub draft_md: String,
    /// ERROR.md as the branch finally holds it.
    pub error_md: String,
    /// Its commit.
    pub commit_message: String,
}

/// Plans `registry error CODE MESSAGE`: a branch `error-CODE` off `error`,
/// recorded under `error/CODE`. Refused unless the code matches
/// `^E\d{3}$`.
pub fn plan_error(
    code: &str,
    message: &str,
    status: u16,
    date: &str,
    mapping: &mut PathMapping,
) -> (r: Result<ErrorPlan, ArmError>)
    ensures
        match r {
            Err(e) => regex_match_result(error_code_pattern(), code@) != Some(true) && e.kind
                == ArmErrorKind::InvalidErrorCode && e.message@ == "Invalid error code '"@ + code@
                + "'. Must be in format 'E001', etc."@ && final(mapping)@ == old(mapping)@,
            Ok(p) => {
                let st = decimal(status as nat);
                &&& regex_match_result(error_code_pattern(), code@) == Some(true)
                &&& p.branch_name@ == "error-"@ + code@
                &&& p.full_path@ == "error/"@ + code@
                &&& p.draft_md@ == error_draft(code@, st, message@, date@)
                &&& p.error_md@ == error_info(code@, st, message@, date@)
                &&& p.commit_message@ == "[ERROR] Create "@ + code@ + " - "@ + message@
                &&& mapping_added(
                    old(mapping)@,
                    final(mapping)@,
                    "error/"@ + code@,
                    "error-"@ + code@,
                    "error"@,
                    Some("error"@),
                    date@,
                )
            },
        },
{
    if regex_is_match("^E\\d{3}$", code) != Some(true) {
        return Err(ArmError::about(
                ArmErrorKind::InvalidErrorCode,
                "Invalid error code '",
                code,
                "'. Must be in format 'E001', etc.",
            ));
    }
    let mut branch_name = String::new();
    branch_name.append("error-");
    branch_name.append(code);
    let mut full_path = String::new();
    full_path.append("error/");
    full_path.append(code);
    let st = string_of(&decimal_chars(status as u64));
    let draft_md = error_draft_text(code, st.as_str(), message, date);
    let error_md = error_info_text(code, st.as_str(), message, date);
    mapping.add_with_created(
        full_path.as_str(),
        branch_name.as_str(),
        "error",
        Some("error"),
        date,
    );
    let mut commit_message = String::new();
    commit_message.append("[ERROR] Create ");
    commit_message.append(code);
    commit_message.append(" - ");
    commit_message.append(message);
    Ok(ErrorPlan { branch_name, full_path, draft_md, error_md, commit_message })
}

// ---------------------------------------------------------------------------
// show and update
// ---------------------------------------------------------------------------
/// What a path given to `show` or `update` names.
pub enum DocTarget {
    /// An error code, and the branch that holds it.
    ErrorCode { code: String, branch: String },
    /// A path of the API, under the latest version.
    Api { path: String },
}

/// Whether a path names an error code.
pub open spec fn names_error(path: Seq<char>) -> bool {
    starts_with(path, "error/"@)
}

/// What a path given to `show` (or, with `for_update`, to `update`)
/// names; refused where it is empty.
pub fn resolve_target(path: &str, for_update: bool) -> (r: Result<DocTarget, ArmError>)
    ensures
        match r {
            Err(e) => path@.len() == 0 && if for_update {
                e.kind == ArmErrorKind::UpdatePathRequired && e.message@
                    == "Path is required. Example: arm update auth/users/POST description:New description"@
            } else {
                e.kind == ArmErrorKind::ShowPathRequired && e.message@
                    == "Path is required. Example: arm show auth/users/POST"@
            },
            Ok(DocTarget::ErrorCode { code, branch }) => path@.len() > 0 && names_error(path@)
                && code@ == path@.skip(6) && branch@ == "error-"@ + path@.skip(6),
            Ok(DocTarget::Api { path: p }) => path@.len() > 0 && !names_error(path@) && p@ == path@,
        },
{
    let p = chars_of(path);
    if p.len() == 0 {
        if for_update {
            return Err(
                ArmError::new(
                    ArmErrorKind::UpdatePathRequired,
                    "Path is required. Example: arm update auth/users/POST description:New description",
                ),
            );
        }
        return Err(
            ArmError::new(
                ArmErrorKind::ShowPathRequired,
                "Path is required. Example: arm show auth/users/POST",
            ),
        );
    }
    proof {
        reveal_strlit("error/");
    }
    if starts_with_chars(&p, &chars_of("error/")) {
        let code = string_of(&slice(&p, 6, p.len()));
        assert(code@ =~= path@.skip(6));
        let mut branch = String::new();
        branch.append("error-");
        branch.append(code.as_str());
        Ok(DocTarget::ErrorCode { code, branch })
    } else {
        Ok(DocTarget::Api { path: path.to_string() })
    }
}

/// The branch that holds `path` in the latest version, as `show` and
/// `update` find it.
pub fn entry_branch(
    mapping: &PathMapping,
    latest: Option<&str>,
    path: &str,
    for_update: bool,
) -> (r: Result<String, ArmError>)
    ensures
        match r {
            Err(e) => (latest is None && e.kind == ArmErrorKind::NoVersion && e.message@ == if for_update {
                "No API version found"@
            } else {
                "No API version found. Create one with 'arm registry new'"@
            }) || (latest is Some && !mapping@.entry_map().contains_key(slash(latest->0@, path@))
                && e.kind == ArmErrorKind::PathNotFound && e.message@ == if for_update {
                "'"@ + path@ + "' not found"@
            } else {
                "'"@ + path@ + "' not found in version "@ + latest->0@
            }),
            Ok(b) => latest is Some && mapping@.entry_map().contains_key(slash(latest->0@, path@))
                && b@ == mapping@.entry_map()[slash(latest->0@, path@)].branch,
        },
{
    let latest = match latest {
        Some(v) => v,
        None => {
            if for_update {
                return Err(ArmError::new(ArmErrorKind::NoVersion, "No API version found"));
            }
            return Err(
                ArmError::new(
                    ArmErrorKind::NoVersion,
                    "No API version found. Create one with 'arm registry new'",
                ),
            );
        },
    };
    let full_path = slash_text(latest, path);
    match mapping.get_by_path(full_path.as_str()) {
        Some(entry) => Ok(entry.branch.clone()),
        None => {
            if for_update {
                return Err(ArmError::about(ArmErrorKind::PathNotFound, "'", path, "' not found"));
            }
            let mut suffix = String::new();
            suffix.append("' not found in version ");
            suffix.append(latest);
            Err(ArmError::about(ArmErrorKind::PathNotFound, "'", path, suffix.as_str()))
        },
    }
}

/// The commit message of `update` on a path of the API.
pub fn update_commit_message(path: &str, key: &str, content: &str) -> (r: String)
    ensures
        r@ == "[UPDATE] "@ + path@ + " - "@ + key@ + ": "@ + content@,
{
    let mut s = String::new();
    s.append("[UPDATE] ");
    s.append(path);
    s.append(" - ");
    s.append(key);
    s.append(": ");
    s.append(content);
    s
}

/// The commit message of `update` on an error code.
pub fn update_error_commit_message(code: &str, key: &str, content: &str) -> (r: String)
    ensures
        r@ == "[UPDATE-ERROR] "@ + code@ + " - "@ + key@ + ": "@ + content@,
{
    let mut s = String::new();
    s.append("[UPDATE-ERROR] ");
    s.append(code);
    s.append(" - ");
    s.append(key);
    s.append(": ");
    s.append(content);
    s
}

} // verus!

use arm::cli::{determine_repo_path, handle_config_command, repo_flag_given, Commands, ConfigStep};
use arm::commands::{
    code_from_draws, entry_branch, generate_random_code, plan_category, plan_error, plan_method, plan_version,
    resolve_target, update_commit_message, update_error_commit_message, DocTarget,
};
use arm::error::ArmErrorKind;
use arm::registry::{add_repo, find_repo_path, load_mapping, MappingCache, PathMapping, RepoEntry, RepoList};
use arm::report::{
    check_report, describe_version, is_arm_repository, list_error_codes, list_version_branches,
    version_has_entries, version_listing,
};
use arm::setup::{plan_init, plan_named_init, repo_name_of, scan_entry, NamedInit, ScanEntry, ScanTally};
use arm::version::{get_latest_version, version_number_of};

fn names(v: &[&str]) -> Vec<String> {
    v.iter().map(|s| s.to_string()).collect()
}

fn repos(v: &[(&str, &str)]) -> RepoList {
    RepoList {
        repos: v
            .iter()
            .map(|(n, p)| RepoEntry { name: n.to_string(), path: p.to_string() })
            .collect(),
    }
}

#[test]
fn repo_read_after_write() {
    let mut r = repos(&[("a", "/a")]);
    add_repo(&mut r, "b", "/b");
    assert_eq!(find_repo_path(&r, "b"), Some("/b".to_string()));
    assert_eq!(find_repo_path(&r, "a"), Some("/a".to_string()));
    assert_eq!(find_repo_path(&r, "c"), None);
}

#[test]
fn repo_rewrite_keeps_one_entry() {
    let mut r = repos(&[("a", "/a"), ("b", "/b")]);
    add_repo(&mut r, "a", "/new");
    assert_eq!(r.repos.len(), 2);
    assert_eq!(r.repos[0].name, "a");
    assert_eq!(r.repos[0].path, "/new");
    assert_eq!(find_repo_path(&r, "a"), Some("/new".to_string()));
    assert_eq!(find_repo_path(&r, "b"), Some("/b".to_string()));
}

#[test]
fn mapping_read_after_add() {
    let mut m = PathMapping::new();
    assert!(!m.is_dirty());
    m.add_with_created("v1/auth", "v1-abc", "category", Some("v1"), "2024-01-01 00:00:00");
    let e = m.get_by_path("v1/auth").unwrap();
    assert_eq!(e.path, "v1/auth");
    assert_eq!(e.branch, "v1-abc");
    assert_eq!(e.entry_type, "category");
    assert_eq!(e.parent, Some("v1".to_string()));
    assert_eq!(e.created, "2024-01-01 00:00:00");
    assert!(m.is_dirty());
    assert!(m.get_by_path("v1/other").is_none());
    m.mark_saved();
    assert!(!m.is_dirty());
}

#[test]
fn cache_answers_only_for_saved_mapping_of_same_repo() {
    let mut cache = MappingCache::new();
    assert!(load_mapping(&cache, "/r").is_none());
    let mut m = PathMapping::new();
    m.add_with_created("v1", "v1", "version", Some("api"), "d");
    cache.store("/r", &m);
    assert!(load_mapping(&cache, "/r").is_none());
    cache.store_saved("/r", &m);
    let got = load_mapping(&cache, "/r").unwrap();
    assert!(got.get_by_path("v1").is_some());
    assert!(!got.is_dirty());
    assert!(load_mapping(&cache, "/other").is_none());
}

#[test]
fn latest_version_is_highest_number() {
    let b = names(&["master", "api", "v2", "v10", "v3", "v1-auth", "error"]);
    assert_eq!(get_latest_version(&b), Some("v10".to_string()));
    assert_eq!(get_latest_version(&names(&["master", "api"])), None);
    assert_eq!(get_latest_version(&names(&["v0"])), None);
}

#[test]
fn version_numbers() {
    assert_eq!(version_number_of("v12"), Some(12));
    assert_eq!(version_number_of("v12-x"), None);
    assert_eq!(version_number_of("x12"), None);
    assert_eq!(version_number_of("v99999999999"), Some(0));
}

#[test]
fn version_plan_first_and_next() {
    let mut m = PathMapping::new();
    let p = plan_version(None, None, "D", &mut m).unwrap();
    assert_eq!(p.new_version, "v1");
    assert_eq!(p.source, "api");
    assert_eq!(p.description, "New API version");
    assert_eq!(p.commit_message, "[VERSION] Create v1 from api");
    assert_eq!(p.record_message, "[VERSION] Record v1 in master");
    assert_eq!(m.get_by_path("v1").unwrap().parent, Some("api".to_string()));
    let p = plan_version(Some("v7"), Some("Seventh"), "D", &mut m).unwrap();
    assert_eq!(p.new_version, "v8");
    assert_eq!(p.source, "v7");
    assert_eq!(p.description, "Seventh");
    assert!(p.info_md.contains("Seventh"));
}

#[test]
fn version_plan_beyond_u32_refused() {
    let mut m = PathMapping::new();
    assert!(plan_version(Some("v4294967295"), None, "D", &mut m).is_none());
    assert!(m.get_by_path("v4294967296").is_none());
}

#[test]
fn category_plan() {
    let mut m = PathMapping::new();
    let p = plan_category(Some("v1"), "auth", None, "abcd1234", "D", &mut m).ok().unwrap();
    assert_eq!(p.branch_name, "v1-abcd1234");
    assert_eq!(p.parent_branch, "v1");
    assert_eq!(p.full_path, "v1/auth");
    assert_eq!(p.commit_message, "[CATEGORY] Create auth");
    assert_eq!(m.get_by_path("v1/auth").unwrap().branch, "v1-abcd1234");
    let e = plan_category(None, "auth", None, "x", "D", &mut m).err().unwrap();
    assert_eq!(e.kind, ArmErrorKind::NoVersion);
}

#[test]
fn method_plan_refusals() {
    let mut m = PathMapping::new();
    let e = plan_method(Some("v1"), "auth/GET", None, "e", "c", "D", &mut m).err().unwrap();
    assert_eq!(e.kind, ArmErrorKind::InvalidMethodPath);
    let e = plan_method(Some("v1"), "auth/users/FETCH", None, "e", "c", "D", &mut m).err().unwrap();
    assert_eq!(e.kind, ArmErrorKind::InvalidHttpMethod);
    let e = plan_method(None, "auth/users/get", None, "e", "c", "D", &mut m).err().unwrap();
    assert_eq!(e.kind, ArmErrorKind::NoVersion);
}

#[test]
fn method_plan_upper_cases_and_creates_endpoint() {
    let mut m = PathMapping::new();
    m.add_with_created("v1/auth", "v1-cat", "category", Some("v1"), "D");
    let p = plan_method(Some("v1"), "auth/users/post", None, "ep000001", "me000001", "D", &mut m)
        .ok()
        .unwrap();
    assert_eq!(p.method, "POST");
    assert!(p.endpoint.is_some());
    assert_eq!(p.branch_name, "v1-me000001");
    assert_eq!(p.parent_branch, "v1-ep000001");
    assert_eq!(p.full_path, "v1/auth/users/post");
    assert!(m.get_by_path("v1/auth/users").is_some());
    assert!(m.get_by_path("v1/auth/users/post").is_some());
}

#[test]
fn error_plan() {
    let mut m = PathMapping::new();
    let p = plan_error("E001", "Bad input", 422, "D", &mut m).ok().unwrap();
    assert_eq!(p.branch_name, "error-E001");
    assert_eq!(p.full_path, "error/E001");
    assert_eq!(p.commit_message, "[ERROR] Create E001 - Bad input");
    assert!(p.error_md.contains("## HTTP Status\n422"));
    let e = plan_error("E01", "m", 400, "D", &mut m).err().unwrap();
    assert_eq!(e.kind, ArmErrorKind::InvalidErrorCode);
    assert_eq!(e.message, "Invalid error code 'E01'. Must be in format 'E001', etc.");
    assert!(plan_error("X001", "m", 400, "D", &mut m).is_err());
    let e = plan_error("E1234", "m", 400, "D", &mut m).err().unwrap();
    assert_eq!(e.kind, ArmErrorKind::InvalidErrorCode);
    assert_eq!(e.message, "Invalid error code 'E1234'. Must be in format 'E001', etc.");
    assert!(plan_error("E12", "m", 400, "D", &mut m).is_err());
}

#[test]
fn random_codes_use_the_alphabet() {
    for _ in 0..20 {
        let c = generate_random_code().unwrap();
        assert_eq!(c.chars().count(), 8);
        assert!(c.chars().all(|x| x.is_ascii_lowercase() || x.is_ascii_digit()));
    }
}

#[test]
fn targets_resolved() {
    match resolve_target("error/E001", false).ok().unwrap() {
        DocTarget::ErrorCode { code, branch } => {
            assert_eq!(code, "E001");
            assert_eq!(branch, "error-E001");
        }
        _ => panic!("expected an error code"),
    }
    match resolve_target("auth/users/GET", true).ok().unwrap() {
        DocTarget::Api { path } => assert_eq!(path, "auth/users/GET"),
        _ => panic!("expected an API path"),
    }
    assert_eq!(resolve_target("", false).err().unwrap().kind, ArmErrorKind::ShowPathRequired);
    assert_eq!(resolve_target("", true).err().unwrap().kind, ArmErrorKind::UpdatePathRequired);
}

#[test]
fn entry_branch_found_and_refused() {
    let mut m = PathMapping::new();
    m.add_with_created("v2/auth/users", "v2-x", "endpoint", Some("v2/auth"), "D");
    assert_eq!(entry_branch(&m, Some("v2"), "auth/users", false).ok().unwrap(), "v2-x");
    let e = entry_branch(&m, Some("v2"), "auth/none", false).err().unwrap();
    assert_eq!(e.kind, ArmErrorKind::PathNotFound);
    assert_eq!(e.message, "'auth/none' not found in version v2");
    let e = entry_branch(&m, Some("v2"), "auth/none", true).err().unwrap();
    assert_eq!(e.message, "'auth/none' not found");
    assert_eq!(entry_branch(&m, None, "auth/users", true).err().unwrap().kind, ArmErrorKind::NoVersion);
}

#[test]
fn commit_messages() {
    assert_eq!(update_commit_message("a/b", "status", "x"), "[UPDATE] a/b - status: x");
    assert_eq!(update_error_commit_message("E1", "message", "y"), "[UPDATE-ERROR] E1 - message: y");
}

#[test]
fn check_report_of_a_complete_repository() {
    let b = names(&["master", "api", "error", "v1", "error-E001"]);
    let r = check_report(true, true, true, true, true, &b);
    assert!(r.issues.is_empty());
    assert_eq!(r.versions, names(&["v1"]));
    assert_eq!(r.error_codes, names(&["E001"]));
    assert_eq!(r.passed.len(), 7);
}

#[test]
fn check_report_lists_issues() {
    let r = check_report(false, true, false, false, true, &names(&["api"]));
    assert_eq!(
        r.issues,
        names(&[
            "Missing master branch",
            "Missing error branch",
            "Missing .arm/mapping.json",
            "No version branches (v1, v2, etc.)"
        ])
    );
    assert_eq!(r.passed, names(&["api", "VERSION.md"]));
}

#[test]
fn branches_listed() {
    let b = names(&["v1", "v2x", "v3", "error-E1", "error-x", "errorE"]);
    assert_eq!(list_version_branches(&b), names(&["v1", "v3"]));
    assert_eq!(list_error_codes(&b), names(&["E1"]));
    assert!(is_arm_repository(true, true, true));
    assert!(!is_arm_repository(true, false, true));
}

#[test]
fn version_description() {
    let md = "# API Versions\n\n## Current Version\nv2 - Better\n\n## Version History\n";
    assert_eq!(describe_version(md), "v2 - Better");
    assert_eq!(describe_version("## Current Version\n\n"), "No description");
    assert_eq!(describe_version(""), "No description");
}

#[test]
fn version_listing_shows_methods_only() {
    let mut m = PathMapping::new();
    m.add_with_created("v1/auth", "b1", "category", Some("v1"), "D");
    m.add_with_created("v1/auth/users", "b2", "endpoint", Some("v1/auth"), "D");
    m.add_with_created("v1/auth/users/GET", "b3", "method", Some("v1/auth/users"), "D");
    m.add_with_created("v2/x/y", "b4", "endpoint", Some("v2/x"), "D");
    m.add_with_created("v1/a/b/c/POST", "b5", "method", Some("v1/a/b/c"), "D");
    let items = version_listing(&m, "v1");
    assert_eq!(items.len(), 2);
    assert_eq!(items[0].path, "auth/users/GET");
    assert_eq!(items[0].method, "GET");
    assert_eq!(items[1].path, "a/b/c/POST");
    assert_eq!(items[1].method, "POST");
}

#[test]
fn init_plans() {
    let p = plan_init(true, false, true).ok().unwrap();
    assert!(p.create_api);
    assert!(!p.create_error);
    let e = plan_init(false, true, true).err().unwrap();
    assert_eq!(e.kind, ArmErrorKind::NoMasterBranch);
    assert_eq!(plan_named_init("/h/.arm/x", true, true).ok().unwrap(), NamedInit::RecordExisting);
    assert_eq!(plan_named_init("/h/.arm/x", false, false).ok().unwrap(), NamedInit::Create);
    let e = plan_named_init("/h/.arm/x", true, false).err().unwrap();
    assert_eq!(e.kind, ArmErrorKind::DirectoryNotRepository);
    assert_eq!(e.message, "Directory already exists but is not a git repository: /h/.arm/x");
}

#[test]
fn repo_names_from_paths() {
    assert_eq!(repo_name_of("/home/u/.arm/MyAPI", "unknown"), "MyAPI");
    assert_eq!(repo_name_of("/home/u/proj/", "unknown"), "proj");
    assert_eq!(repo_name_of("/", "unknown"), "unknown");
    assert_eq!(repo_name_of("..", "unknown"), "unknown");
}

#[test]
fn scan_counts_and_records() {
    let mut t = ScanTally { count: 0, added: 0 };
    let mut r = repos(&[]);
    assert_eq!(scan_entry(&mut t, &mut r, ".cache", "/h/.arm/.cache", true, true), ScanEntry::Hidden);
    assert_eq!(scan_entry(&mut t, &mut r, "a", "/h/.arm/a", true, true), ScanEntry::Added);
    assert_eq!(scan_entry(&mut t, &mut r, "b", "/h/.arm/b", true, false), ScanEntry::Invalid);
    assert_eq!(scan_entry(&mut t, &mut r, "c", "/h/.arm/c", false, false), ScanEntry::NotRepository);
    assert_eq!(t.count, 3);
    assert_eq!(t.added, 1);
    assert_eq!(find_repo_path(&r, "a"), Some("/h/.arm/a".to_string()));
    assert_eq!(r.repos.len(), 1);
}

#[test]
fn repo_flag_detection() {
    assert!(repo_flag_given(&names(&["arm", "-r", "x", "show", "p"])));
    assert!(repo_flag_given(&names(&["arm", "--repo", "x"])));
    assert!(!repo_flag_given(&names(&["arm", "show", "-r"])));
    assert!(!repo_flag_given(&names(&["arm"])));
    assert!(repo_flag_given(&names(&["arm", "--repo=x", "show", "p"])));
    assert!(repo_flag_given(&names(&["arm", "-rMyAPI", "show", "p"])));
    assert!(repo_flag_given(&names(&["arm", "-r", ".", "show", "p"])));
}

#[test]
fn repo_path_priorities() {
    let r = repos(&[("MyAPI", "/h/.arm/MyAPI")]);
    assert_eq!(determine_repo_path(true, "MyAPI", &r, Some("Other")), "/h/.arm/MyAPI");
    assert_eq!(determine_repo_path(true, "/some/path", &r, None), "/some/path");
    assert_eq!(determine_repo_path(true, ".", &r, Some("MyAPI")), ".");
    assert_eq!(determine_repo_path(false, "x", &r, Some("Unknown")), "Unknown");
    assert_eq!(determine_repo_path(false, "x", &r, None), ".");
}

#[test]
fn config_steps() {
    let r = repos(&[("MyAPI", "/h/.arm/MyAPI")]);
    assert!(matches!(handle_config_command(None, None, None, None, true, true, &r), ConfigStep::Reset));
    assert!(matches!(handle_config_command(Some("x"), None, None, None, true, false, &r), ConfigStep::Show));
    assert!(matches!(handle_config_command(None, None, None, None, false, false, &r), ConfigStep::Usage));
    match handle_config_command(Some("MyAPI"), Some("Ann"), None, Some("en"), false, false, &r) {
        ConfigStep::Apply(c) => {
            assert_eq!(c.repo_path, Some("/h/.arm/MyAPI".to_string()));
            assert_eq!(c.local_name, Some("MyAPI".to_string()));
            assert!(c.recorded.is_none());
            assert_eq!(c.user_name, Some("Ann".to_string()));
            assert_eq!(c.user_email, None);
            assert_eq!(c.language, Some("en".to_string()));
        }
        _ => panic!("expected a change"),
    }
    match handle_config_command(Some("/work/proj"), None, None, None, false, false, &r) {
        ConfigStep::Apply(c) => {
            assert_eq!(c.repo_path, Some("/work/proj".to_string()));
            assert_eq!(c.local_name, Some("proj".to_string()));
            assert_eq!(c.recorded, Some(("proj".to_string(), "/work/proj".to_string())));
        }
        _ => panic!("expected a change"),
    }
}

#[test]
fn commands_that_need_a_repository() {
    assert!(!Commands::ShowRepos.needs_repository());
    assert!(!Commands::Scan.needs_repository());
    assert!(!Commands::Init { name: Some("x".to_string()) }.needs_repository());
    assert!(Commands::Init { name: None }.needs_repository());
    assert!(Commands::ShowVersion.needs_repository());
    assert!(Commands::Check { path: None }.needs_repository());
}

#[test]
fn version_numbers_count_on() {
    let mut m = PathMapping::new();
    let p = plan_version(Some("v9"), None, "D", &mut m).unwrap();
    assert_eq!(p.new_version, "v10");
    let p = plan_version(Some("v10"), None, "D", &mut m).unwrap();
    assert_eq!(p.new_version, "v11");
    assert_eq!(version_number_of(&p.new_version), Some(11));
}

#[test]
fn created_endpoint_is_found_for_show() {
    let mut m = PathMapping::new();
    plan_category(Some("v1"), "admin/users", None, "cat00001", "D", &mut m).ok().unwrap();
    let p = arm::commands::plan_endpoint(Some("v1"), "admin/users/list", None, "end00001", "D", &mut m)
        .ok()
        .unwrap();
    assert_eq!(p.full_path, "v1/admin/users/list");
    assert_eq!(p.parent_branch, "v1-cat00001");
    assert_eq!(entry_branch(&m, Some("v1"), "admin/users/list", false).ok().unwrap(), "v1-end00001");
    let e = arm::commands::plan_endpoint(Some("v1"), "nocat/x", None, "e", "D", &mut m).err().unwrap();
    assert_eq!(e.kind, ArmErrorKind::CategoryNotFound);
    assert_eq!(e.message, "Category 'nocat' not found");
    let e = arm::commands::plan_endpoint(Some("v1"), "single", None, "e", "D", &mut m).err().unwrap();
    assert_eq!(e.kind, ArmErrorKind::InvalidEndpointPath);
}

#[test]
fn draws_pick_code_letters() {
    assert_eq!(code_from_draws(&vec![0, 1, 2, 25, 26, 27, 34, 35]), "abcz0189");
    assert_eq!(code_from_draws(&vec![7, 7, 7, 7, 7, 7, 7, 7]), "hhhhhhhh");
}

#[test]
fn created_method_shows_its_method_and_path() {
    let mut m = PathMapping::new();
    m.add_with_created("v1/auth", "v1-cat", "category", Some("v1"), "D");
    let p = plan_method(Some("v1"), "auth/users/post", Some("Create user"), "e0000001", "m0000001", "2024-05-01 10:00:00", &mut m)
        .ok()
        .unwrap();
    let info = arm::show::parse_info_md(&p.info_md);
    assert_eq!(info.method, "POST");
    assert_eq!(info.path, "auth/users/post");
    assert_eq!(info.description, "Create user");
    assert_eq!(info.created, "2024-05-01 10:00:00");
    assert!(info.related_errors.is_empty());
    assert_eq!(info.change_history.len(), 1);
    assert!(info.request.path_params.is_empty());
    assert!(info.request.query_params.is_empty());
    assert_eq!(info.status, "active");
    let e = plan_method(Some("v1"), "auth/users/FETCH", None, "e", "c", "D", &mut m).err().unwrap();
    assert_eq!(e.message, "Invalid HTTP method 'FETCH'");
    let e = plan_method(Some("v1"), "auth/GET", None, "e", "c", "D", &mut m).err().unwrap();
    assert_eq!(e.message, "Invalid method path 'auth/GET'. Must be in format 'category/resource/METHOD'");
}

#[test]
fn version_in_use_when_something_is_recorded_under_it() {
    let mut m = PathMapping::new();
    assert!(!version_has_entries(&m, "v1"));
    m.add_with_created("v1", "v1", "version", Some("api"), "D");
    assert!(!version_has_entries(&m, "v1"));
    m.add_with_created("v1/auth", "b1", "category", Some("v1"), "D");
    assert!(version_has_entries(&m, "v1"));
    assert!(!version_has_entries(&m, "v"));
}

use arm::branch_order::{classify_branch, sort_branch_infos, BranchInfo};
use arm::search_index::SearchIndex;
use arm::template::{EndpointTemplateData, ErrorTemplateData, InitTemplateData, TemplateManager};
use arm::tree::{lowered_hit, ApiTree, NodeType, TreeNode};

fn node(id: &str, name: &str, t: NodeType, branch: &str) -> TreeNode {
    TreeNode::new(id.to_string(), name.to_string(), t, branch.to_string())
}

fn info(name: &str) -> BranchInfo {
    let (t, p) = classify_branch(name).unwrap();
    BranchInfo { name: name.to_string(), node_type: t, parent: p }
}

fn sample_tree() -> ApiTree {
    let names = ["v1-auth-login", "api", "master", "v1", "error", "error-E001", "v1-auth", "feature"];
    ApiTree::tree_from_infos(names.iter().map(|n| info(n)).collect())
}

fn ids(v: &[&TreeNode]) -> Vec<String> {
    v.iter().map(|n| n.id.clone()).collect()
}

#[test]
fn node_type_names() {
    assert_eq!(NodeType::Root.as_str(), "root");
    assert_eq!(NodeType::ApiRoot.as_str(), "api_root");
    assert_eq!(NodeType::ErrorRoot.as_str(), "error_root");
    assert_eq!(NodeType::Version.as_str(), "version");
    assert_eq!(NodeType::Endpoint.as_str(), "endpoint");
    assert_eq!(NodeType::ErrorCode.as_str(), "error_code");
    assert_eq!(NodeType::Category.as_str(), "category");
}

#[test]
fn node_children_once_each() {
    let mut n = node("a", "a", NodeType::Root, "a");
    n.add_child("b".to_string());
    n.add_child("c".to_string());
    n.add_child("b".to_string());
    assert_eq!(n.children, vec!["b".to_string(), "c".to_string()]);
    n.set_parent("p".to_string());
    assert_eq!(n.parent, Some("p".to_string()));
    n.add_metadata("k", "1");
    n.add_metadata("j", "2");
    n.add_metadata("k", "3");
    assert_eq!(n.metadata, vec![("k".to_string(), "3".to_string()), ("j".to_string(), "2".to_string())]);
}

#[test]
fn branches_classified() {
    let c = |n: &str| classify_branch(n).unwrap();
    assert_eq!(c("master"), (NodeType::Root, None));
    assert_eq!(c("main"), (NodeType::Root, None));
    assert_eq!(c("api"), (NodeType::ApiRoot, Some("master".to_string())));
    assert_eq!(c("error"), (NodeType::ErrorRoot, Some("master".to_string())));
    assert_eq!(c("error-E001"), (NodeType::ErrorCode, Some("error".to_string())));
    assert_eq!(c("v12"), (NodeType::Version, Some("api".to_string())));
    assert_eq!(c("v1-auth"), (NodeType::Category, Some("v1".to_string())));
    assert_eq!(c("v1-auth-login"), (NodeType::Endpoint, Some("v1-auth".to_string())));
    assert_eq!(c("v1-a-b-c"), (NodeType::Endpoint, Some("v1-a".to_string())));
    assert_eq!(c("vx-auth"), (NodeType::Endpoint, None));
    assert_eq!(c("feature"), (NodeType::Endpoint, None));
}

#[test]
fn branches_sorted_by_dashes_then_name() {
    let infos = vec![info("v1-b-c"), info("v1-a"), info("v1"), info("master"), info("api")];
    let sorted = sort_branch_infos(infos);
    let names: Vec<String> = sorted.iter().map(|b| b.name.clone()).collect();
    assert_eq!(names, vec!["api", "master", "v1", "v1-a", "v1-b-c"]);
}

#[test]
fn tree_built_from_branches() {
    let t = sample_tree();
    let all = t.get_all_nodes();
    assert_eq!(
        ids(&all),
        vec![
            "api_root-api",
            "error_root-error",
            "endpoint-feature",
            "root-master",
            "version-v1",
            "error_code-error-E001",
            "category-v1-auth",
            "endpoint-v1-auth-login",
        ]
    );
    let p = t.get_parent("endpoint-v1-auth-login").unwrap();
    assert_eq!(p.id, "category-v1-auth");
    assert_eq!(ids(&t.get_children("root-master")), vec!["api_root-api", "error_root-error"]);
    assert!(t.get_parent("root-master").is_none());
    assert!(t.get_parent("endpoint-feature").is_none());
}

#[test]
fn lookups_by_branch_name_and_kind() {
    let t = sample_tree();
    assert_eq!(t.get_node_id_by_branch("v1-auth"), Some("category-v1-auth".to_string()));
    assert_eq!(t.get_node_by_branch("error-E001").unwrap().node_type, NodeType::ErrorCode);
    assert!(t.get_node_by_branch("nope").is_none());
    assert_eq!(ids(&t.find_by_name("v1", false)), vec!["version-v1"]);
    assert_eq!(
        ids(&t.find_by_name("V1-AUTH", true)),
        vec!["category-v1-auth", "endpoint-v1-auth-login"]
    );
    assert!(t.find_by_name("V1", false).is_empty());
    assert_eq!(ids(&t.find_by_type(NodeType::Endpoint)), vec!["endpoint-feature", "endpoint-v1-auth-login"]);
    assert!(t.find_by_type(NodeType::Category).len() == 1);
}

#[test]
fn path_to_root_goes_top_down() {
    let t = sample_tree();
    assert_eq!(
        ids(&t.get_path_to_root("endpoint-v1-auth-login")),
        vec!["root-master", "api_root-api", "version-v1", "category-v1-auth", "endpoint-v1-auth-login"]
    );
    assert!(t.get_path_to_root("missing").is_empty());
}

#[test]
fn search_kinds() {
    let t = sample_tree();
    assert_eq!(ids(&t.search("auth", "endpoint", true)), vec!["category-v1-auth", "endpoint-v1-auth-login"]);
    assert!(t.search("auth", "endpoint", false).is_empty());
    assert_eq!(ids(&t.search("error-E001", "error", false)), vec!["error_code-error-E001"]);
    assert!(t.search("E001", "error", false).is_empty());
    assert_eq!(ids(&t.search("v1", "branch", false)), vec!["version-v1"]);
    assert_eq!(ids(&t.search("ERROR", "branch", true)), vec!["error_root-error", "error_code-error-E001"]);
    assert_eq!(ids(&t.search("api_root-api", "all", false)), vec!["api_root-api"]);
    assert_eq!(ids(&t.search("MASTER", "any", true)), vec!["root-master"]);
}

#[test]
fn search_gives_each_node_once() {
    let mut t = ApiTree::new();
    t.add_node(node("x", "first", NodeType::Endpoint, "b1"));
    t.add_node(node("x", "second", NodeType::Endpoint, "b2"));
    let found = t.search("b", "branch", true);
    assert_eq!(found.len(), 1);
    assert_eq!(found[0].name, "second");
}

#[test]
fn stats_counted() {
    let t = sample_tree();
    assert_eq!(
        t.get_stats(),
        vec![
            ("total".to_string(), 8),
            ("error_codes".to_string(), 1),
            ("versions".to_string(), 1),
            ("endpoints".to_string(), 2),
            ("categories".to_string(), 1),
        ]
    );
}

#[test]
fn node_replaced_under_same_id() {
    let mut t = ApiTree::new();
    t.add_node(node("n1", "first", NodeType::Version, "b1"));
    t.add_node(node("n2", "second", NodeType::Version, "b2"));
    t.add_node(node("n1", "again", NodeType::Version, "b3"));
    assert_eq!(t.get_all_nodes().len(), 2);
    assert_eq!(t.get_node("n1").unwrap().name, "again");
    assert_eq!(t.get_all_nodes()[0].id, "n1");
    assert_eq!(t.find_by_type(NodeType::Version).len(), 3);
    assert!(t.set_parent("n2", "n1").is_ok());
    assert_eq!(t.get_node("n1").unwrap().children, vec!["n2".to_string()]);
}

#[test]
fn files_set_on_nodes() {
    let mut t = sample_tree();
    let pairs = t.branch_pairs();
    assert_eq!(pairs.len(), 8);
    t.set_files("version-v1", vec!["INFO.md".to_string()]);
    assert_eq!(t.get_node("version-v1").unwrap().files, vec!["INFO.md".to_string()]);
    t.set_files("missing", vec!["x".to_string()]);
    assert!(t.get_node("missing").is_none());
}

#[test]
fn search_index_finds_pieces() {
    let mut t = ApiTree::new();
    t.add_node(node("endpoint-v1-Login", "Login", NodeType::Endpoint, "v1-Login"));
    let ix = SearchIndex::build(&t);
    assert_eq!(ix.search("LOG"), vec!["endpoint-v1-Login".to_string(); 3]);
    assert!(ix.search("nothing").is_empty());
    assert!(ix.search("endpoint-v1-login").is_empty());
    assert!(SearchIndex::new().search("a").is_empty());
}

#[test]
fn search_index_refuses_non_ascii() {
    let mut t = ApiTree::new();
    t.add_node(node("x", "Grüße", NodeType::Endpoint, "b"));
    assert!(SearchIndex::build_checked(&t).is_none());
    let mut u = ApiTree::new();
    u.add_node(node("x", "plain", NodeType::Endpoint, "b"));
    assert!(SearchIndex::build_checked(&u).is_some());
}

#[test]
fn templates_rendered() {
    let m = TemplateManager::new(None, "/cfg");
    assert_eq!(m.language(), "zh");
    assert_eq!(TemplateManager::with_language("en", "/cfg").language(), "en");
    let d = InitTemplateData { version: "v1".to_string(), category: "auth".to_string(), endpoint: "login".to_string() };
    assert_eq!(m.render_init(&d, Some("{{version}}/{{category}}/{{endpoint}} {{other}}")), "v1/auth/login {{other}}");
    let e = ErrorTemplateData {
        error_code: "E001".to_string(),
        error_name: "Bad".to_string(),
        http_status: "400".to_string(),
        created_at: "D".to_string(),
        description: "d".to_string(),
        causes: "c".to_string(),
        solutions: "s".to_string(),
        related_endpoints: "r".to_string(),
    };
    let out = m.render_error(&e, None);
    assert!(out.contains("E001"));
    assert!(!out.contains("{{error_code}}"));
    assert_eq!(m.get_builtin_template("nothing"), "");
}

#[test]
fn endpoint_template_filled() {
    let m = TemplateManager::with_language("en", "/cfg");
    let d = EndpointTemplateData {
        function_name: "login".to_string(),
        endpoint_path: "/v1/auth/login".to_string(),
        category: "auth".to_string(),
        version: "v1".to_string(),
        status: "active".to_string(),
        created_at: "D".to_string(),
        updated_at: "D".to_string(),
        method: "POST".to_string(),
        description: "Logs in".to_string(),
        request_params: "-".to_string(),
        request_body: "{}".to_string(),
        headers: "-".to_string(),
        response: "{}".to_string(),
        error_codes: "E001".to_string(),
    };
    let out = m.render_endpoint(&d, None);
    assert!(out.starts_with("# /v1/auth/login"));
    assert!(!out.contains("{{endpoint_path}}"));
    assert!(!out.contains("{{method}}"));
    assert!(out.contains("POST"));
}

#[test]
fn added_node_read_back() {
    let mut t = ApiTree::new();
    t.add_node(node("a", "alpha", NodeType::Category, "v1-a"));
    t.add_node(node("b", "alpha", NodeType::Category, "v1-b"));
    assert_eq!(t.get_node("b").unwrap().branch_name, "v1-b");
    assert_eq!(t.get_node_id_by_branch("v1-b"), Some("b".to_string()));
    assert_eq!(t.get_node_id_by_branch("v1-a"), Some("a".to_string()));
    assert_eq!(ids(&t.find_by_name("alpha", false)), vec!["a", "b"]);
    assert_eq!(ids(&t.find_by_type(NodeType::Category)), vec!["a", "b"]);
}

#[test]
fn template_without_placeholders_unchanged() {
    let m = TemplateManager::with_language("en", "/cfg");
    let vars = vec![("x".to_string(), "1".to_string())];
    assert_eq!(m.render_template("plain text", &vars), "plain text");
    assert_eq!(m.render_template("{{x}}{{x}}", &vars), "11");
}

#[test]
fn node_changed_in_place() {
    let mut t = sample_tree();
    if let Some(n) = t.get_node_mut("version-v1") {
        n.add_metadata("owner", "team");
    }
    assert_eq!(t.get_node("version-v1").unwrap().metadata, vec![("owner".to_string(), "team".to_string())]);
    assert!(t.get_node_mut("missing").is_none());
    assert_eq!(t.get_all_nodes().len(), 8);
}

#[test]
fn lowered_keys_and_texts() {
    let mut t = ApiTree::new();
    t.add_node(node("endpoint-v1-Login", "Login", NodeType::Endpoint, "v1-Login"));
    let ix = SearchIndex::build(&t);
    assert_eq!(ix.search_key("log"), vec!["endpoint-v1-Login".to_string(); 3]);
    assert!(ix.search_key("LOG").is_empty());
    assert!(lowered_hit("auth/login", "login"));
    assert!(!lowered_hit("auth/login", "Login"));
    assert!(lowered_hit("abc", ""));
}

#[test]
fn tree_built_node_by_node_answers_in_order() {
    let mut t = ApiTree::new();
    t.add_node(node("c1", "auth", NodeType::Category, "v1-c1"));
    t.add_node(node("e1", "Users", NodeType::Endpoint, "v1-e1"));
    t.add_node(node("x1", "E001", NodeType::ErrorCode, "error-E001"));
    t.add_node(node("e2", "users", NodeType::Endpoint, "v1-e2"));
    let ids = |v: Vec<&TreeNode>| v.iter().map(|n| n.id.clone()).collect::<Vec<_>>();
    assert_eq!(ids(t.get_all_nodes()), vec!["c1", "e1", "x1", "e2"]);
    assert_eq!(ids(t.find_by_name("users", false)), vec!["e2"]);
    assert_eq!(ids(t.find_by_type(NodeType::Endpoint)), vec!["e1", "e2"]);
    assert_eq!(ids(t.search("USER", "endpoint", true)), vec!["e1", "e2"]);
    assert_eq!(ids(t.search("E001", "error", false)), vec!["x1"]);
    assert_eq!(ids(t.search("1", "all", true)), vec!["c1", "e1", "x1", "e2"]);
    let stats = t.get_stats();
    assert_eq!(stats[0], ("total".to_string(), 4));
    assert_eq!(stats[3], ("endpoints".to_string(), 2));
    assert_eq!(stats[4], ("categories".to_string(), 1));
    t.add_node(node("e3", "users", NodeType::Endpoint, "v1-e3"));
    assert_eq!(ids(t.find_by_name("users", false)), vec!["e2", "e3"]);
    assert_eq!(t.get_node_id_by_branch("v1-e3"), Some("e3".to_string()));
}

#[test]
fn fuzzy_find_by_name_gives_each_match_once() {
    let mut t = ApiTree::new();
    t.add_node(node("e1", "Users", NodeType::Endpoint, "b1"));
    t.add_node(node("e2", "login", NodeType::Endpoint, "b2"));
    t.add_node(node("e3", "users", NodeType::Endpoint, "b3"));
    t.add_node(node("e4", "Users", NodeType::Category, "b4"));
    let mut got: Vec<String> = t.find_by_name("USER", true).iter().map(|n| n.id.clone()).collect();
    got.sort();
    assert_eq!(got, vec!["e1", "e3", "e4"]);
}

#[test]
fn add_node_appends_to_any_tree() {
    let mut t = ApiTree::new();
    t.add_node(node("a", "x", NodeType::Version, "ba"));
    t.add_node(node("b", "y", NodeType::Category, "bb"));
    let _ = t.set_parent("b", "a");
    t.set_files("a", vec!["INFO.md".to_string()]);
    let before: Vec<String> = t.find_by_name("x", false).iter().map(|n| n.id.clone()).collect();
    t.add_node(node("c", "x", NodeType::Category, "bc"));
    let after: Vec<String> = t.find_by_name("x", false).iter().map(|n| n.id.clone()).collect();
    assert_eq!(before, vec!["a"]);
    assert_eq!(after, vec!["a", "c"]);
    let kinds: Vec<String> = t.find_by_type(NodeType::Category).iter().map(|n| n.id.clone()).collect();
    assert_eq!(kinds, vec!["b", "c"]);
    assert_eq!(t.get_all_nodes().last().unwrap().id, "c");
    let path: Vec<String> = t.get_path_to_root("b").iter().map(|n| n.id.clone()).collect();
    assert_eq!(path, vec!["a", "b"]);
    assert!(t.get_path_to_root("zz").is_empty());
}

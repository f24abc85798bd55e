use arm::markdown::{
    extract_code_block, extract_field, extract_section, parse_change_history, parse_error_codes,
    parse_list, parse_params,
};
use arm::error::ArmErrorKind;
use arm::docs::{error_info_text, method_info_text};
use arm::show::{parse_error_md, parse_info_md};
use arm::update::{capitalize_key, parse_update, replace_markdown_section, settle_section};

const INFO: &str = "# GET /users\n\n## Method\nGET\n\n## Path\n/v1/users\n\n## Description\nLists users.\nSecond line.\n\n## Path Parameters\n| Parameter | Type | Required | Description |\n|---|---|---|---|\n| id | int | Yes | User id |\n| page | int | no | Page |\n\n## Request Body\n```json\n{\"a\": 1}\n```\n\n## Success Response\n```json\n{\"ok\":true}```\n\n## Error Codes\n| Error Code | Meaning |\n|---|---|\n| E001 | bad |\n\n## Related Errors\n- E001\n- None\n1. E002\n\n## Change History\n- 2024-01-01 created\n- TBD\n";

const ERROR: &str = "# Error E001\n\n## Code\nE001\n\n## HTTP Status\n404\n\n## Message\nNot found\n\n## Created\n2024-01-02\n\n## Description\nThe thing is missing.\n\n## Possible Causes\n- Wrong id\n\n## Solutions\n- Check the id\n\n## Related Endpoints\n- None\n";

#[test]
fn field_under_heading() {
    assert_eq!(extract_field(INFO, "Method"), Some("GET".to_string()));
    assert_eq!(extract_field(INFO, "Path"), Some("/v1/users".to_string()));
}

#[test]
fn field_missing_is_none() {
    assert_eq!(extract_field(INFO, "Status"), None);
}

#[test]
fn field_in_bold_form() {
    let doc = "Intro\n**Status**: deprecated  \n**Owner**: team\n";
    assert_eq!(extract_field(doc, "Status"), Some("deprecated".to_string()));
    assert_eq!(extract_field(doc, "Owner"), Some("team".to_string()));
}

#[test]
fn field_with_regex_characters_in_its_name() {
    let doc = "**Rate (max)**: 10/s\n";
    assert_eq!(extract_field(doc, "Rate (max)"), Some("10/s".to_string()));
}

#[test]
fn field_heading_followed_by_heading_falls_back() {
    let doc = "## Method\n\n## Path\n/x\n";
    assert_eq!(extract_field(doc, "Method"), None);
}

#[test]
fn field_with_windows_line_endings() {
    let doc = "## Method\r\n\r\nPOST\r\n";
    assert_eq!(extract_field(doc, "Method"), Some("POST".to_string()));
}

#[test]
fn section_body_is_trimmed() {
    assert_eq!(
        extract_section(INFO, "Description"),
        Some("Lists users.\nSecond line.".to_string())
    );
}

#[test]
fn section_missing_or_empty_is_none() {
    assert_eq!(extract_section(INFO, "Headers"), None);
    assert_eq!(extract_section("## Notes\n\n   \n## Next\nx", "Notes"), None);
}

#[test]
fn code_block_on_one_line() {
    assert_eq!(
        extract_code_block(INFO, "Success Response"),
        Some("{\"ok\":true}".to_string())
    );
}

#[test]
fn code_block_over_lines_is_not_taken() {
    assert_eq!(extract_code_block(INFO, "Request Body"), None);
}

#[test]
fn params_from_table() {
    let ps = parse_params(INFO, "Path Parameters");
    assert_eq!(ps.len(), 2);
    assert_eq!(ps[0].name, "id");
    assert_eq!(ps[0].param_type, "int");
    assert!(ps[0].required);
    assert_eq!(ps[0].description, "User id");
    assert_eq!(ps[1].name, "page");
    assert!(!ps[1].required);
    assert!(parse_params(INFO, "Query Parameters").is_empty());
}

#[test]
fn params_required_forms() {
    let doc = "## P\n| a | t | true | d |\n| b | t | YES | d |\n| c | t | True | d |\n| short | t | yes |\n";
    let ps = parse_params(doc, "P");
    assert_eq!(ps.len(), 3);
    assert!(ps[0].required);
    assert!(ps[1].required);
    assert!(!ps[2].required);
}

#[test]
fn error_codes_from_table() {
    assert_eq!(parse_error_codes(INFO), vec!["E001".to_string()]);
}

#[test]
fn list_items_skip_placeholders() {
    assert_eq!(
        parse_list(INFO, "Related Errors"),
        vec!["E001".to_string(), "E002".to_string()]
    );
    assert_eq!(
        parse_change_history(INFO),
        vec!["2024-01-01 created".to_string()]
    );
}

#[test]
fn info_document_parsed() {
    let info = parse_info_md(INFO);
    assert_eq!(info.method, "GET");
    assert_eq!(info.path, "/v1/users");
    assert_eq!(info.category, "");
    assert_eq!(info.status, "active");
    assert_eq!(info.created, "");
    assert_eq!(info.description, "Lists users.\nSecond line.");
    assert_eq!(info.request.path_params.len(), 2);
    assert!(info.request.query_params.is_empty());
    assert_eq!(info.request.body_example, None);
    assert_eq!(info.response.success_example, Some("{\"ok\":true}".to_string()));
    assert_eq!(info.response.error_codes, vec!["E001".to_string()]);
    assert_eq!(info.related_errors, vec!["E001".to_string(), "E002".to_string()]);
    assert_eq!(info.change_history, vec!["2024-01-01 created".to_string()]);
}

#[test]
fn error_document_parsed() {
    let e = parse_error_md(ERROR);
    assert_eq!(e.code, "E001");
    assert_eq!(e.http_status, 404);
    assert_eq!(e.message, "Not found");
    assert_eq!(e.created, "2024-01-02");
    assert_eq!(e.description, "The thing is missing.");
    assert_eq!(e.possible_causes, vec!["Wrong id".to_string()]);
    assert_eq!(e.solutions, vec!["Check the id".to_string()]);
    assert!(e.related_endpoints.is_empty());
    assert!(e.change_history.is_empty());
}

#[test]
fn error_status_defaults_to_400() {
    assert_eq!(parse_error_md("## HTTP Status\nabc\n").http_status, 400);
    assert_eq!(parse_error_md("## HTTP Status\n70000\n").http_status, 400);
    assert_eq!(parse_error_md("nothing").http_status, 400);
}

#[test]
fn update_split_at_first_colon() {
    let (k, c) = parse_update("description:New text").ok().unwrap();
    assert_eq!(k, "description");
    assert_eq!(c, "New text");
    let (k, c) = parse_update("a:b:c").ok().unwrap();
    assert_eq!(k, "a");
    assert_eq!(c, "b:c");
}

#[test]
fn update_without_colon_refused() {
    let e = parse_update("nocolon").err().unwrap();
    assert_eq!(e.kind, ArmErrorKind::InvalidUpdateFormat);
    assert_eq!(e.message, "Invalid update format. Use 'key:content'");
}

#[test]
fn key_capitalized() {
    assert_eq!(capitalize_key("description"), "Description");
    assert_eq!(capitalize_key("dESCRIPTION"), "Description");
    assert_eq!(capitalize_key(""), "");
    assert_eq!(capitalize_key("ärger"), "Ärger");
}

#[test]
fn section_value_replaced() {
    let doc = "## Description\nOld\n\n## Status\nactive\n";
    assert_eq!(
        replace_markdown_section(doc, "description", "New"),
        "## Description\nNew\n\n## Status\nactive"
    );
}

#[test]
fn section_value_after_blank_lines_replaced() {
    let doc = "## Status\n\n\nactive\nrest";
    assert_eq!(
        replace_markdown_section(doc, "status", "deprecated"),
        "## Status\n\n\ndeprecated\nrest"
    );
}

#[test]
fn section_without_value_gets_one() {
    assert_eq!(
        replace_markdown_section("## Description\n## Status\nx", "description", "New"),
        "## Description\nNew\n## Status\nx"
    );
    assert_eq!(
        replace_markdown_section("## Description", "description", "New"),
        "## Description\nNew"
    );
}

#[test]
fn bold_field_replaced() {
    assert_eq!(
        replace_markdown_section("**Status**: active\n", "status", "deprecated"),
        "**Status**: deprecated\n"
    );
}

#[test]
fn missing_field_appended() {
    assert_eq!(
        replace_markdown_section("# Doc\n", "owner", "bob"),
        "# Doc\n\n\n**Owner**: bob\n"
    );
}

#[test]
fn field_reads_back_after_update() {
    let doc = "# T\n\n## Status\nactive\n\n## Other\nx";
    let updated = replace_markdown_section(doc, "status", "  deprecated ");
    assert_eq!(extract_field(&updated, "Status"), Some("deprecated".to_string()));
    assert_eq!(extract_field(&updated, "Other"), Some("x".to_string()));
}

#[test]
fn update_request_rebuilds() {
    let u = "message:a:b";
    let (k, c) = parse_update(u).ok().unwrap();
    assert_eq!(format!("{}:{}", k, c), u);
    assert!(!k.contains(':'));
}

#[test]
fn error_document_reads_back_what_was_written() {
    let md = error_info_text("E_NOT_FOUND", "404", "  Resource not found ", "2024-05-01 10:00:00");
    let e = parse_error_md(&md);
    assert_eq!(e.code, "E_NOT_FOUND");
    assert_eq!(e.http_status, 404);
    assert_eq!(e.message, "Resource not found");
    assert_eq!(e.created, "2024-05-01 10:00:00");
}

#[test]
fn method_document_reads_back_method_and_path() {
    let md = method_info_text("POST", "auth/users/POST", "v1", "auth", "users", "Create a user", "2024-05-01 10:00:00");
    let info = parse_info_md(&md);
    assert_eq!(info.method, "POST");
    assert_eq!(info.path, "auth/users/POST");
    assert_eq!(info.created, "2024-05-01 10:00:00");
    assert_eq!(info.description, "Create a user");
}

#[test]
fn update_value_with_dollars_is_written_as_given() {
    let r = replace_markdown_section("**Status**: active\nbody", "status", "$1 off");
    assert_eq!(r, "**Status**: $1 off\nbody");
    let r = replace_markdown_section("**Price**: 3\n", "price", "$$ and ${1}");
    assert_eq!(r, "**Price**: $$ and ${1}\n");
}

#[test]
fn update_then_read_on_crlf_document() {
    let content = "# POST\r\n\r\n## Status\r\nactive\r\n\r\n## Path\r\nauth/users/POST\r\n";
    let r = replace_markdown_section(content, "status", "deprecated");
    assert_eq!(extract_field(&r, "Status"), Some("deprecated".to_string()));
    assert_eq!(extract_field(&r, "Path"), Some("auth/users/POST".to_string()));
}

#[test]
fn settle_section_uses_the_given_regex_answers() {
    assert_eq!(
        settle_section("**Status**: a\n", "status", "b", Some(true), Some("**Status**: b\n".to_string())),
        "**Status**: b\n"
    );
    assert_eq!(
        settle_section("text", "status", "b", Some(false), None),
        "text\n\n**Status**: b\n"
    );
    assert_eq!(settle_section("## Status\nold\n", "status", "new", None, None), "## Status\nnew");
}

//! The documents that the registry writes: VERSION.md on master, and the
//! INFO.md or ERROR.md that each branch holds.
use crate::text::{chars_of, replace, replace_chars, string_of};
use vstd::prelude::*;

verus! {

/// VERSION.md as `init` writes it.
pub open spec fn initial_version_md(date: Seq<char>) -> Seq<char> {
    "# API Versions\n\n## Current Version\nNone\n\n## Version History\n\n## Last Updated\n"@ + date
        + "\n"@
}

pub fn initial_version_md_text(date: &str) -> (r: String)
    ensures
        r@ == initial_version_md(date@),
{
    let mut s = String::new();
    s.append("# API Versions\n\n## Current Version\nNone\n\n## Version History\n\n## Last Updated\n");
    s.append(date);
    s.append("\n");
    s
}

/// The INFO.md of the `api` root branch.
pub open spec fn api_root_info() -> Seq<char> {
    "# API Root\n\nThis is the root branch for all API versions.\n"@
}

pub fn api_root_info_text() -> (r: String)
    ensures
        r@ == api_root_info(),
{
    "# API Root\n\nThis is the root branch for all API versions.\n".to_string()
}

/// The INFO.md of the `error` root branch.
pub open spec fn error_root_info() -> Seq<char> {
    "# Error Root\n\nThis is the root branch for all error codes.\n"@
}

pub fn error_root_info_text() -> (r: String)
    ensures
        r@ == error_root_info(),
{
    "# Error Root\n\nThis is the root branch for all error codes.\n".to_string()
}

/// The INFO.md of a new version branch.
pub open spec fn version_info(
    version: Seq<char>,
    desc: Seq<char>,
    date: Seq<char>,
    source: Seq<char>,
) -> Seq<char> {
    "# "@ + version + "\n\n## Description\n"@ + desc + "\n\n## Created\n"@ + date
        + "\n\n## Source Version\n"@ + source + "\n\n## Categories\n- None yet\n\n## Last Updated\n"@
        + date + "\n"@
}

pub fn version_info_text(version: &str, desc: &str, date: &str, source: &str) -> (r: String)
    ensures
        r@ == version_info(version@, desc@, date@, source@),
{
    let mut s = String::new();
    s.append("# ");
    s.append(version);
    s.append("\n\n## Description\n");
    s.append(desc);
    s.append("\n\n## Created\n");
    s.append(date);
    s.append("\n\n## Source Version\n");
    s.append(source);
    s.append("\n\n## Categories\n- None yet\n\n## Last Updated\n");
    s.append(date);
    s.append("\n");
    s
}

/// VERSION.md once `version` is recorded in it: it becomes the current
/// version where none was, and heads the version history.
pub open spec fn recorded_version_md(
    md: Seq<char>,
    version: Seq<char>,
    desc: Seq<char>,
    source: Seq<char>,
) -> Seq<char> {
    replace(
        replace(md, "## Current Version\nNone"@, "## Current Version\n"@ + version),
        "## Version History"@,
        "## Version History\n- "@ + version + ": "@ + desc + " (from "@ + source + ")\n"@,
    )
}

/// The INFO.md of a new category branch.
pub open spec fn category_info(
    name: Seq<char>,
    desc: Seq<char>,
    version: Seq<char>,
    date: Seq<char>,
) -> Seq<char> {
    "# "@ + name + "\n\n## Type\ncategory\n\n## Path\n"@ + name + "\n\n## Description\n"@ + desc
        + "\n\n## Version\n"@ + version + "\n\n## Created\n"@ + date
        + "\n\n## Endpoints\n- None yet\n\n## Last Updated\n"@ + date + "\n"@
}

pub fn category_info_text(name: &str, desc: &str, version: &str, date: &str) -> (r: String)
    ensures
        r@ == category_info(name@, desc@, version@, date@),
{
    let mut s = String::new();
    s.append("# ");
    s.append(name);
    s.append("\n\n## Type\ncategory\n\n## Path\n");
    s.append(name);
    s.append("\n\n## Description\n");
    s.append(desc);
    s.append("\n\n## Version\n");
    s.append(version);
    s.append("\n\n## Created\n");
    s.append(date);
    s.append("\n\n## Endpoints\n- None yet\n\n## Last Updated\n");
    s.append(date);
    s.append("\n");
    s
}

/// The INFO.md of a new endpoint branch.
pub open spec fn endpoint_info(
    resource: Seq<char>,
    path: Seq<char>,
    category: Seq<char>,
    desc: Seq<char>,
    version: Seq<char>,
    date: Seq<char>,
) -> Seq<char> {
    "# "@ + resource + "\n\n## Type\nendpoint\n\n## Path\n"@ + path + "\n\n## Resource\n"@
        + resource + "\n\n## Category\n"@ + category + "\n\n## Description\n"@ + desc
        + "\n\n## Version\n"@ + version + "\n\n## Created\n"@ + date
        + "\n\n## Methods\n- None yet\n\n## Last Updated\n"@ + date + "\n"@
}

pub fn endpoint_info_text(
    resource: &str,
    path: &str,
    category: &str,
    desc: &str,
    version: &str,
    date: &str,
) -> (r: String)
    ensures
        r@ == endpoint_info(resource@, path@, category@, desc@, version@, date@),
{
    let mut s = String::new();
    s.append("# ");
    s.append(resource);
    s.append("\n\n## Type\nendpoint\n\n## Path\n");
    s.append(path);
    s.append("\n\n## Resource\n");
    s.append(resource);
    s.append("\n\n## Category\n");
    s.append(category);
    s.append("\n\n## Description\n");
    s.append(desc);
    s.append("\n\n## Version\n");
    s.append(version);
    s.append("\n\n## Created\n");
    s.append(date);
    s.append("\n\n## Methods\n- None yet\n\n## Last Updated\n");
    s.append(date);
    s.append("\n");
    s
}

/// The request and response part of a new method's INFO.md.
pub open spec fn method_body() -> Seq<char> {
    "\n\n## Request\n\n### Path Parameters\n| Parameter | Type | Required | Description |\n|-----------|------|----------|-------------|\n| TBD | | | |\n\n### Query Parameters\n| Parameter | Type | Required | Default | Description |\n|-----------|------|----------|---------|-------------|\n| TBD | | | | |\n\n### Request Body\n```json\n{\n  \"example\": \"Please fill in request body parameters\"\n}\n```\n\n## Response\n\n### Success Response\n```json\n{\n  \"code\": 0,\n  \"data\": {},\n  \"message\": \"success\"\n}\n```\n\n### Error Codes\n| Error Code | Description | Trigger Scenario |\n|------------|-------------|------------------|\n| TBD | | |\n\n## Related Errors\n- None\n\n## Change History\n- "@
}

/// The INFO.md of a new method branch.
pub open spec fn method_info(
    method: Seq<char>,
    path: Seq<char>,
    version: Seq<char>,
    category: Seq<char>,
    resource: Seq<char>,
    desc: Seq<char>,
    date: Seq<char>,
) -> Seq<char> {
    "# "@ + method + " "@ + path + "\n\n## Type\nmethod\n\n## Method\n"@ + method + "\n\n## Path\n"@
        + path + "\n\n## Full Path\n/api/"@ + version + "/"@ + category + "/"@ + resource
        + "\n\n## Description\n"@ + desc + "\n\n## Version\n"@ + version + "\n\n## Created\n"@
        + date + method_body() + date + ": Initial creation\n"@
}

pub fn method_info_text(
    method: &str,
    path: &str,
    version: &str,
    category: &str,
    resource: &str,
    desc: &str,
    date: &str,
) -> (r: String)
    ensures
        r@ == method_info(method@, path@, version@, category@, resource@, desc@, date@),
{
    let mut s = String::new();
    s.append("# ");
    s.append(method);
    s.append(" ");
    s.append(path);
    s.append("\n\n## Type\nmethod\n\n## Method\n");
    s.append(method);
    s.append("\n\n## Path\n");
    s.append(path);
    s.append("\n\n## Full Path\n/api/");
    s.append(version);
    s.append("/");
    s.append(category);
    s.append("/");
    s.append(resource);
    s.append("\n\n## Description\n");
    s.append(desc);
    s.append("\n\n## Version\n");
    s.append(version);
    s.append("\n\n## Created\n");
    s.append(date);
    s.append("\n\n## Request\n\n### Path Parameters\n| Parameter | Type | Required | Description |\n|-----------|------|----------|-------------|\n| TBD | | | |\n\n### Query Parameters\n| Parameter | Type | Required | Default | Description |\n|-----------|------|----------|---------|-------------|\n| TBD | | | | |\n\n### Request Body\n```json\n{\n  \"example\": \"Please fill in request body parameters\"\n}\n```\n\n## Response\n\n### Success Response\n```json\n{\n  \"code\": 0,\n  \"data\": {},\n  \"message\": \"success\"\n}\n```\n\n### Error Codes\n| Error Code | Description | Trigger Scenario |\n|------------|-------------|------------------|\n| TBD | | |\n\n## Related Errors\n- None\n\n## Change History\n- ");
    s.append(date);
    s.append(": Initial creation\n");
    s
}

/// ERROR.md as it is first written when an error code is created.
pub open spec fn error_draft(
    code: Seq<char>,
    status: Seq<char>,
    message: Seq<char>,
    date: Seq<char>,
) -> Seq<char> {
    "# Error Code: "@ + code + "\n\n## Code\n"@ + code + "\n\n## HTTP Status\n"@ + status
        + "\n\n## Message\n"@ + message
        + "\n\n## Description\nTBD\n\n## Possible Causes\n1. TBD\n\n## Solutions\nTBD\n\n## Related Endpoints\n- None\n\n## Created\n"@
        + date + "\n\n## Change History\n- "@ + date + ": Initial definition\n"@
}

pub fn error_draft_text(code: &str, status: &str, message: &str, date: &str) -> (r: String)
    ensures
        r@ == error_draft(code@, status@, message@, date@),
{
    let mut s = String::new();
    s.append("# Error Code: ");
    s.append(code);
    s.append("\n\n## Code\n");
    s.append(code);
    s.append("\n\n## HTTP Status\n");
    s.append(status);
    s.append("\n\n## Message\n");
    s.append(message);
    s.append(
        "\n\n## Description\nTBD\n\n## Possible Causes\n1. TBD\n\n## Solutions\nTBD\n\n## Related Endpoints\n- None\n\n## Created\n",
    );
    s.append(date);
    s.append("\n\n## Change History\n- ");
    s.append(date);
    s.append(": Initial definition\n");
    s
}

/// ERROR.md as the error code's branch finally holds it.
pub open spec fn error_info(
    code: Seq<char>,
    status: Seq<char>,
    message: Seq<char>,
    date: Seq<char>,
) -> Seq<char> {
    "# Error Code "@ + code + "\n\n## Type\nerror\n\n## Code\n"@ + code + "\n\n## HTTP Status\n"@
        + status + "\n\n## Message\n"@ + message + "\n\n## Created\n"@ + date
        + "\n\n## Description\nTBD\n\n## Possible Causes\n- None yet\n\n## Solutions\n- None yet\n\n## Related Endpoints\n- None\n\n## Change History\n- "@
        + date + ": Initial definition\n"@
}

pub fn error_info_text(code: &str, status: &str, message: &str, date: &str) -> (r: String)
    ensures
        r@ == error_info(code@, status@, message@, date@),
{
    let mut s = String::new();
    s.append("# Error Code ");
    s.append(code);
    s.append("\n\n## Type\nerror\n\n## Code\n");
    s.append(code);
    s.append("\n\n## HTTP Status\n");
    s.append(status);
    s.append("\n\n## Message\n");
    s.append(message);
    s.append("\n\n## Created\n");
    s.append(date);
    s.append(
        "\n\n## Description\nTBD\n\n## Possible Causes\n- None yet\n\n## Solutions\n- None yet\n\n## Related Endpoints\n- None\n\n## Change History\n- ",
    );
    s.append(date);
    s.append(": Initial definition\n");
    s
}

/// VERSION.md with `version` recorded in it.
pub fn record_version(md: &str, version: &str, desc: &str, source: &str) -> (r: String)
    ensures
        r@ == recorded_version_md(md@, version@, desc@, source@),
{
    let mut current = String::new();
    current.append("## Current Version\n");
    current.append(version);
    let mut history = String::new();
    history.append("## Version History\n- ");
    history.append(version);
    history.append(": ");
    history.append(desc);
    history.append(" (from ");
    history.append(source);
    history.append(")\n");
    proof {
        reveal_strlit("## Current Version\nNone");
        reveal_strlit("## Version History");
    }
    let first = replace_chars(
        &chars_of(md),
        &chars_of("## Current Version\nNone"),
        &chars_of(current.as_str()),
    );
    let second = replace_chars(
        &first,
        &chars_of("## Version History"),
        &chars_of(history.as_str()),
    );
    string_of(&second)
}

} // verus!

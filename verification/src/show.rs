//! What `show` reports of an endpoint or an error code: the documents read
//! into structured records.
use crate::markdown::{
    code_block_text, extract_code_block, extract_field, extract_section, field_value,
    param_views, parse_change_history, parse_error_codes, parse_list, parse_params, section_error_codes,
    section_items, section_params, section_text, ParamInfo,
};
use crate::commands::{is_http_method, path_category, path_method, path_resource, version_source};
use crate::docs::{category_info, endpoint_info, error_info, method_body, method_info, version_info};
use crate::tree::lemma_filter_map_concat;
use crate::markdown::{
    cells, heading, item_of_line, lemma_field_after, lemma_section_after, lemma_section_last,
    nonblank, param_of_line, row_items, row_params, starts_heading, ParamView,
};
use crate::text::{
    all_digits, chars_of, decimal, is_digit, is_ws, join, lemma_join_sep_lacks, lemma_split_lacks, split, lacks, law_decimal_round_trip, lemma_decimal_digits,
    contains, lemma_find_from, lemma_index_of, lemma_index_of_at, lemma_trim_end_at, lemma_trim_start_at, lemma_trim_wrapped, lines, trim_end, trim_start,
    trim_start_matches, matches_at, opt_text, parse_unsigned,
    parse_unsigned_chars, starts_with, strings, trim,
};
use vstd::prelude::*;

verus! {

/// What the INFO.md of an endpoint or method says.
pub struct EndpointInfo {
    pub method: String,
    pub path: String,
    pub category: String,
    pub status: String,
    pub created: String,
    pub description: String,
    pub request: RequestInfo,
    pub response: ResponseInfo,
    pub related_errors: Vec<String>,
    pub change_history: Vec<String>,
}

/// The request part of an endpoint's document.
pub struct RequestInfo {
    pub path_params: Vec<ParamInfo>,
    pub query_params: Vec<ParamInfo>,
    pub body_example: Option<String>,
}

/// The response part of an endpoint's document.
pub struct ResponseInfo {
    pub success_example: Option<String>,
    pub error_codes: Vec<String>,
}

/// What the ERROR.md of an error code says.
pub struct ErrorInfo {
    pub code: String,
    pub http_status: u16,
    pub message: String,
    pub created: String,
    pub description: String,
    pub possible_causes: Vec<String>,
    pub solutions: Vec<String>,
    pub related_endpoints: Vec<String>,
    pub change_history: Vec<String>,
}

/// A field's value, or `default` where the document has none.
pub open spec fn field_or(content: Seq<char>, field: Seq<char>, default: Seq<char>) -> Seq<char> {
    match field_value(content, field) {
        Some(v) => v,
        None => default,
    }
}

/// A section's text, or nothing where the document has none.
pub open spec fn section_or_empty(content: Seq<char>, name: Seq<char>) -> Seq<char> {
    match section_text(content, name) {
        Some(v) => v,
        None => seq![],
    }
}

/// The HTTP status of an error document: the `HTTP Status` field read as a
/// number, or 400.
pub open spec fn http_status_of(content: Seq<char>) -> nat {
    match field_value(content, "HTTP Status"@) {
        Some(v) => match parse_unsigned(v, 65535) {
            Some(n) => n,
            None => 400,
        },
        None => 400,
    }
}

/// The text of a field, or `default`.
fn field_or_default(content: &str, field: &str, default: &str) -> (r: String)
    ensures
        r@ == field_or(content@, field@, default@),
{
    match extract_field(content, field) {
        Some(v) => v,
        None => default.to_string(),
    }
}

/// Reads an endpoint's INFO.md.
pub fn parse_info_md(content: &str) -> (info: EndpointInfo)
    ensures
        info.method@ == field_or(content@, "Method"@, seq![]),
        info.path@ == field_or(content@, "Path"@, seq![]),
        info.category@ == field_or(content@, "Category"@, seq![]),
        info.status@ == field_or(content@, "Status"@, "active"@),
        info.created@ == field_or(content@, "Created"@, seq![]),
        info.description@ == section_or_empty(content@, "Description"@),
        param_views(info.request.path_params@) == section_params(content@, "Path Parameters"@),
        param_views(info.request.query_params@) == section_params(content@, "Query Parameters"@),
        opt_text(info.request.body_example) == code_block_text(content@, "Request Body"@),
        opt_text(info.response.success_example) == code_block_text(content@, "Success Response"@),
        strings(info.response.error_codes@) == section_error_codes(content@),
        strings(info.related_errors@) == section_items(content@, "Related Errors"@),
        strings(info.change_history@) == section_items(content@, "Change History"@),
{
    let method = field_or_default(content, "Method", "");
    let path = field_or_default(content, "Path", "");
    let category = field_or_default(content, "Category", "");
    let status = field_or_default(content, "Status", "active");
    let created = field_or_default(content, "Created", "");
    let description = match extract_section(content, "Description") {
        Some(d) => d,
        None => String::new(),
    };
    let request = RequestInfo {
        path_params: parse_params(content, "Path Parameters"),
        query_params: parse_params(content, "Query Parameters"),
        body_example: extract_code_block(content, "Request Body"),
    };
    let response = ResponseInfo {
        success_example: extract_code_block(content, "Success Response"),
        error_codes: parse_error_codes(content),
    };
    let related_errors = parse_list(content, "Related Errors");
    let change_history = parse_change_history(content);
    proof {
        reveal_strlit("");
    }
    EndpointInfo {
        method,
        path,
        category,
        status,
        created,
        description,
        request,
        response,
        related_errors,
        change_history,
    }
}

/// Reads an error code's ERROR.md.
pub fn parse_error_md(content: &str) -> (info: ErrorInfo)
    ensures
        info.code@ == field_or(content@, "Code"@, seq![]),
        info.http_status as nat == http_status_of(content@),
        info.message@ == field_or(content@, "Message"@, seq![]),
        info.created@ == field_or(content@, "Created"@, seq![]),
        info.description@ == section_or_empty(content@, "Description"@),
        strings(info.possible_causes@) == section_items(content@, "Possible Causes"@),
        strings(info.solutions@) == section_items(content@, "Solutions"@),
        strings(info.related_endpoints@) == section_items(content@, "Related Endpoints"@),
        strings(info.change_history@) == section_items(content@, "Change History"@),
{
    let code = field_or_default(content, "Code", "");
    let http_status: u16 = match extract_field(content, "HTTP Status") {
        Some(v) => match parse_unsigned_chars(&chars_of(v.as_str()), 65535) {
            Some(n) => n as u16,
            None => 400,
        },
        None => 400,
    };
    let message = field_or_default(content, "Message", "");
    let created = field_or_default(content, "Created", "");
    let description = match extract_section(content, "Description") {
        Some(d) => d,
        None => String::new(),
    };
    let possible_causes = parse_list(content, "Possible Causes");
    let solutions = parse_list(content, "Solutions");
    let related_endpoints = parse_list(content, "Related Endpoints");
    let change_history = parse_change_history(content);
    proof {
        reveal_strlit("");
    }
    ErrorInfo {
        code,
        http_status,
        message,
        created,
        description,
        possible_causes,
        solutions,
        related_endpoints,
        change_history,
    }
}

/// A heading `p` ("## " and a name) starts nowhere inside the literal piece
/// that `text` holds at `off`, where no "##" in the piece is followed by a name
/// that begins as `p`'s does.
proof fn lemma_no_heading_in_piece(text: Seq<char>, off: int, piece: Seq<char>, p: Seq<char>)
    requires
        0 <= off,
        off + piece.len() <= text.len(),
        text.subrange(off, off + piece.len()) == piece,
        p.len() >= 4,
        p[0] == '#',
        p[1] == '#',
        forall|k: int|
            0 <= k < piece.len() && #[trigger] piece[k] == '#' ==> (k + 1 < piece.len() && piece[k
                + 1] != '#') || (k + 3 < piece.len() && piece[k + 3] != p[3]),
    ensures
        forall|j: int| off <= j < off + piece.len() ==> !matches_at(text, p, j),
{
    assert forall|j: int| off <= j < off + piece.len() implies !matches_at(text, p, j) by {
        if matches_at(text, p, j) {
            let k = j - off;
            let m = text.subrange(j, j + p.len());
            assert(piece[k] == text[j]);
            assert(m[0] == text[j]);
            if k + 1 < piece.len() && piece[k + 1] != '#' {
                assert(m[1] == text[j + 1]);
                assert(piece[k + 1] == text[j + 1]);
            } else {
                assert(m[3] == text[j + 3]);
                assert(piece[k + 3] == text[j + 3]);
            }
        }
    }
}

/// A heading starts nowhere inside a piece of `text` that holds no '#'.
proof fn lemma_no_heading_in_plain(text: Seq<char>, off: int, u: Seq<char>, p: Seq<char>)
    requires
        0 <= off,
        off + u.len() <= text.len(),
        text.subrange(off, off + u.len()) == u,
        p.len() > 0,
        p[0] == '#',
        lacks(u, '#'),
    ensures
        forall|j: int| off <= j < off + u.len() ==> !matches_at(text, p, j),
{
    assert forall|j: int| off <= j < off + u.len() implies !matches_at(text, p, j) by {
        if matches_at(text, p, j) {
            assert(text.subrange(j, j + p.len())[0] == text[j]);
            assert(u[j - off] == text[j]);
        }
    }
}

proof fn lemma_lacks_add(a: Seq<char>, b: Seq<char>, c: char)
    requires
        lacks(a, c),
        lacks(b, c),
    ensures
        lacks(a + b, c),
{
    assert forall|i: int| 0 <= i < (a + b).len() implies (a + b)[i] != c by {
        if i >= a.len() {
            assert((a + b)[i] == b[i - a.len()]);
        }
    }
}

/// A text without '#' does not start with "#" once trimmed.
proof fn lemma_trim_no_hash(s: Seq<char>)
    requires
        lacks(s, '#'),
        trim(s).len() > 0,
    ensures
        !starts_with(trim(s), "#"@),
{
    reveal_strlit("#");
    let a = lemma_trim_start_at(s);
    let t = s.skip(a);
    let e = lemma_trim_end_at(t);
    assert(trim(s) == t.take(e));
    assert(trim(s)[0] == s[a]);
    if starts_with(trim(s), "#"@) {
        assert(trim(s).take(1)[0] == trim(s)[0]);
    }
}

/// A decimal numeral is its own trimmed text, and holds no '#', '\n' or '\r'.
proof fn lemma_decimal_plain(n: nat)
    ensures
        trim(decimal(n)) == decimal(n),
        decimal(n).len() > 0,
        lacks(decimal(n), '#'),
        lacks(decimal(n), '\n'),
        lacks(decimal(n), '\r'),
{
    lemma_decimal_digits(n);
    let d = decimal(n);
    let a = lemma_trim_start_at(d);
    if a > 0 {
        assert(is_digit(d[0]));
    }
    assert(d.skip(0) =~= d);
    let e = lemma_trim_end_at(d);
    if e < d.len() {
        assert(is_digit(d[d.len() - 1]));
    }
    assert(d.take(d.len() as int) =~= d);
}

/// The pieces of an ERROR.md that hold no '#', no line break and no '\r'.
pub open spec fn plain_line(s: Seq<char>) -> bool {
    lacks(s, '#') && lacks(s, '\n') && lacks(s, '\r')
}

/// The ERROR.md holds no '\r' where its parts hold none.
#[verifier::spinoff_prover]
#[verifier::rlimit(40)]
proof fn lemma_error_info_no_cr(code: Seq<char>, st: Seq<char>, message: Seq<char>, date: Seq<char>)
    requires
        lacks(code, '\r'),
        lacks(st, '\r'),
        lacks(message, '\r'),
        lacks(date, '\r'),
    ensures
        lacks(error_info(code, st, message, date), '\r'),
{
    reveal_strlit("# Error Code ");
    reveal_strlit("\n\n## Type\nerror\n\n## Code\n");
    reveal_strlit("\n\n## HTTP Status\n");
    reveal_strlit("\n\n## Message\n");
    reveal_strlit("\n\n## Created\n");
    reveal_strlit("\n\n## Description\nTBD\n\n## Possible Causes\n- None yet\n\n## Solutions\n- None yet\n\n## Related Endpoints\n- None\n\n## Change History\n- ");
    reveal_strlit(": Initial definition\n");
    let l0 = "# Error Code "@;
    let l1 = "\n\n## Type\nerror\n\n## Code\n"@;
    let l2 = "\n\n## HTTP Status\n"@;
    let l3 = "\n\n## Message\n"@;
    let l4 = "\n\n## Created\n"@;
    let l5 = "\n\n## Description\nTBD\n\n## Possible Causes\n- None yet\n\n## Solutions\n- None yet\n\n## Related Endpoints\n- None\n\n## Change History\n- "@;
    let l6 = ": Initial definition\n"@;
    assert(lacks(l0, '\r') && lacks(l1, '\r') && lacks(l2, '\r') && lacks(l3, '\r'));
    assert(lacks(l4, '\r') && lacks(l5, '\r') && lacks(l6, '\r'));
    lemma_lacks_add(l0, code, '\r');
    lemma_lacks_add(l0 + code, l1, '\r');
    lemma_lacks_add(l0 + code + l1, code, '\r');
    lemma_lacks_add(l0 + code + l1 + code, l2, '\r');
    lemma_lacks_add(l0 + code + l1 + code + l2, st, '\r');
    lemma_lacks_add(l0 + code + l1 + code + l2 + st, l3, '\r');
    lemma_lacks_add(l0 + code + l1 + code + l2 + st + l3, message, '\r');
    lemma_lacks_add(l0 + code + l1 + code + l2 + st + l3 + message, l4, '\r');
    lemma_lacks_add(l0 + code + l1 + code + l2 + st + l3 + message + l4, date, '\r');
    lemma_lacks_add(l0 + code + l1 + code + l2 + st + l3 + message + l4 + date, l5, '\r');
    lemma_lacks_add(l0 + code + l1 + code + l2 + st + l3 + message + l4 + date + l5, date, '\r');
    lemma_lacks_add(
        l0 + code + l1 + code + l2 + st + l3 + message + l4 + date + l5 + date,
        l6,
        '\r',
    );
}

/// What follows the message line of an ERROR.md.
spec fn error_info_after_message(date: Seq<char>) -> Seq<char> {
    "\n## Created\n"@ + date
        + "\n\n## Description\nTBD\n\n## Possible Causes\n- None yet\n\n## Solutions\n- None yet\n\n## Related Endpoints\n- None\n\n## Change History\n- "@
        + date + ": Initial definition\n"@
}

/// The code of an ERROR.md, read under its heading.
#[verifier::spinoff_prover]
#[verifier::rlimit(40)]
proof fn lemma_error_info_code(code: Seq<char>, st: Seq<char>, message: Seq<char>, date: Seq<char>)
    requires
        plain_line(code),
        trim(code).len() > 0,
        lacks(st, '\r'),
        lacks(message, '\r'),
        lacks(date, '\r'),
    ensures
        field_value(error_info(code, st, message, date), "Code"@) == Some(trim(code)),
{
    let text = error_info(code, st, message, date);
    lemma_error_info_no_cr(code, st, message, date);
    lemma_trim_no_hash(code);
    reveal_strlit("# Error Code ");
    reveal_strlit("\n\n## Type\nerror\n\n## Code\n");
    reveal_strlit("\n\n## HTTP Status\n");
    reveal_strlit("\n\n## Message\n");
    reveal_strlit("\n\n## Created\n");
    reveal_strlit("\n\n## Type\nerror\n\n");
    reveal_strlit("\n");
    reveal_strlit("\n## Created\n");
    reveal_strlit("## ");
    reveal_strlit("Code");
    let l0 = "# Error Code "@;
    let b1 = "\n\n## Type\nerror\n\n"@;
    let hc = heading("Code"@);
    reveal_strlit("\n## HTTP Status\n");
    assert("\n\n## HTTP Status\n"@ =~= "\n"@ + "\n## HTTP Status\n"@);
    let rest = "\n## HTTP Status\n"@ + st + "\n\n## Message\n"@ + message + "\n"@
        + error_info_after_message(date);
    let pre = l0 + code + b1;
    assert("\n\n## Type\nerror\n\n## Code\n"@ =~= b1 + hc + "\n"@);
    assert("\n\n## Created\n"@ =~= "\n"@ + "\n## Created\n"@);
    assert(text =~= pre + hc + "\n"@ + code + "\n"@ + rest);
    let c = code.len() as int;
    assert(text.subrange(0, 13) =~= l0);
    assert(text.subrange(13, 13 + c) =~= code);
    assert(text.subrange(13 + c, 30 + c) =~= b1);
    lemma_no_heading_in_piece(text, 0, l0, hc);
    lemma_no_heading_in_plain(text, 13, code, hc);
    lemma_no_heading_in_piece(text, 13 + c, b1, hc);
    lemma_field_after(text, pre, "Code"@, code, rest);
}

/// The HTTP status of an ERROR.md, read under its heading.
#[verifier::spinoff_prover]
#[verifier::rlimit(40)]
proof fn lemma_error_info_status(code: Seq<char>, st: Seq<char>, message: Seq<char>, date: Seq<char>)
    requires
        plain_line(code),
        plain_line(st),
        trim(st).len() > 0,
        lacks(message, '\r'),
        lacks(date, '\r'),
    ensures
        field_value(error_info(code, st, message, date), "HTTP Status"@) == Some(trim(st)),
{
    let text = error_info(code, st, message, date);
    lemma_error_info_no_cr(code, st, message, date);
    lemma_trim_no_hash(st);
    reveal_strlit("# Error Code ");
    reveal_strlit("\n\n## Type\nerror\n\n## Code\n");
    reveal_strlit("\n\n## HTTP Status\n");
    reveal_strlit("\n\n## Message\n");
    reveal_strlit("\n\n## Created\n");
    reveal_strlit("\n\n");
    reveal_strlit("\n");
    reveal_strlit("\n## Message\n");
    reveal_strlit("\n## Created\n");
    reveal_strlit("## ");
    reveal_strlit("HTTP Status");
    let l0 = "# Error Code "@;
    let l1 = "\n\n## Type\nerror\n\n## Code\n"@;
    let nn = "\n\n"@;
    let hh = heading("HTTP Status"@);
    assert("\n\n## HTTP Status\n"@ =~= nn + hh + "\n"@);
    assert("\n\n## Message\n"@ =~= "\n"@ + "\n## Message\n"@);
    assert("\n\n## Created\n"@ =~= "\n"@ + "\n## Created\n"@);
    let rest = "\n## Message\n"@ + message + "\n"@ + error_info_after_message(date);
    let pre = l0 + code + l1 + code + nn;
    assert(text =~= pre + hh + "\n"@ + st + "\n"@ + rest);
    let c = code.len() as int;
    assert(text.subrange(0, 13) =~= l0);
    assert(text.subrange(13, 13 + c) =~= code);
    assert(text.subrange(13 + c, 38 + c) =~= l1);
    assert(text.subrange(38 + c, 38 + 2 * c) =~= code);
    assert(text.subrange(38 + 2 * c, 40 + 2 * c) =~= nn);
    lemma_no_heading_in_piece(text, 0, l0, hh);
    lemma_no_heading_in_plain(text, 13, code, hh);
    lemma_no_heading_in_piece(text, 13 + c, l1, hh);
    lemma_no_heading_in_plain(text, 38 + c, code, hh);
    lemma_no_heading_in_piece(text, 38 + 2 * c, nn, hh);
    lemma_field_after(text, pre, "HTTP Status"@, st, rest);
}

/// The message of an ERROR.md, read under its heading.
#[verifier::spinoff_prover]
#[verifier::rlimit(40)]
proof fn lemma_error_info_message(code: Seq<char>, st: Seq<char>, message: Seq<char>, date: Seq<char>)
    requires
        plain_line(code),
        plain_line(st),
        plain_line(message),
        trim(message).len() > 0,
        lacks(date, '\r'),
    ensures
        field_value(error_info(code, st, message, date), "Message"@) == Some(trim(message)),
{
    let text = error_info(code, st, message, date);
    lemma_error_info_no_cr(code, st, message, date);
    lemma_trim_no_hash(message);
    reveal_strlit("# Error Code ");
    reveal_strlit("\n\n## Type\nerror\n\n## Code\n");
    reveal_strlit("\n\n## HTTP Status\n");
    reveal_strlit("\n\n## Message\n");
    reveal_strlit("\n\n## Created\n");
    reveal_strlit("\n\n");
    reveal_strlit("\n");
    reveal_strlit("\n## Created\n");
    reveal_strlit("## ");
    reveal_strlit("Message");
    let l0 = "# Error Code "@;
    let l1 = "\n\n## Type\nerror\n\n## Code\n"@;
    let l2 = "\n\n## HTTP Status\n"@;
    let nn = "\n\n"@;
    let hm = heading("Message"@);
    assert("\n\n## Message\n"@ =~= nn + hm + "\n"@);
    assert("\n\n## Created\n"@ =~= "\n"@ + "\n## Created\n"@);
    let rest = error_info_after_message(date);
    let pre = l0 + code + l1 + code + l2 + st + nn;
    assert(text =~= pre + hm + "\n"@ + message + "\n"@ + rest);
    let c = code.len() as int;
    let o = 55 + 2 * c + st.len();
    assert(text.subrange(0, 13) =~= l0);
    assert(text.subrange(13, 13 + c) =~= code);
    assert(text.subrange(13 + c, 38 + c) =~= l1);
    assert(text.subrange(38 + c, 38 + 2 * c) =~= code);
    assert(text.subrange(38 + 2 * c, 55 + 2 * c) =~= l2);
    assert(text.subrange(55 + 2 * c, o) =~= st);
    assert(text.subrange(o, o + 2) =~= nn);
    lemma_no_heading_in_piece(text, 0, l0, hm);
    lemma_no_heading_in_plain(text, 13, code, hm);
    lemma_no_heading_in_piece(text, 13 + c, l1, hm);
    lemma_no_heading_in_plain(text, 38 + c, code, hm);
    lemma_no_heading_in_piece(text, 38 + 2 * c, l2, hm);
    lemma_no_heading_in_plain(text, 55 + 2 * c, st, hm);
    lemma_no_heading_in_piece(text, o, nn, hm);
    lemma_field_after(text, pre, "Message"@, message, rest);
}

/// An ERROR.md written for a code, an HTTP status and a message reads back as
/// that code, that status and that message (each trimmed), where neither the
/// code nor the message holds a '#' or a line break or is blank, and the
/// date holds no '\r'.
pub proof fn law_error_document_read_back(
    code: Seq<char>,
    status: u16,
    message: Seq<char>,
    date: Seq<char>,
)
    requires
        plain_line(code),
        trim(code).len() > 0,
        plain_line(message),
        trim(message).len() > 0,
        lacks(date, '\r'),
    ensures
        field_or(error_info(code, decimal(status as nat), message, date), "Code"@, seq![])
            == trim(code),
        http_status_of(error_info(code, decimal(status as nat), message, date)) == status as nat,
        field_or(error_info(code, decimal(status as nat), message, date), "Message"@, seq![])
            == trim(message),
{
    let st = decimal(status as nat);
    lemma_decimal_plain(status as nat);
    law_decimal_round_trip(status as nat, 65535);
    lemma_error_info_code(code, st, message, date);
    lemma_error_info_status(code, st, message, date);
    lemma_error_info_message(code, st, message, date);
}

/// A method's INFO.md holds no '\r' where its parts hold none.
#[verifier::spinoff_prover]
#[verifier::rlimit(40)]
proof fn lemma_method_info_no_cr(
    method: Seq<char>,
    path: Seq<char>,
    version: Seq<char>,
    category: Seq<char>,
    resource: Seq<char>,
    desc: Seq<char>,
    date: Seq<char>,
)
    requires
        lacks(method, '\r'),
        lacks(path, '\r'),
        lacks(version, '\r'),
        lacks(category, '\r'),
        lacks(resource, '\r'),
        lacks(desc, '\r'),
        lacks(date, '\r'),
    ensures
        lacks(method_info(method, path, version, category, resource, desc, date), '\r'),
{
    reveal_strlit("# ");
    reveal_strlit(" ");
    reveal_strlit("\n\n## Type\nmethod\n\n## Method\n");
    reveal_strlit("\n\n## Path\n");
    reveal_strlit("\n\n## Full Path\n/api/");
    reveal_strlit("/");
    reveal_strlit("\n\n## Description\n");
    reveal_strlit("\n\n## Version\n");
    reveal_strlit("\n\n## Created\n");
    reveal_strlit(": Initial creation\n");
    reveal_strlit("\n\n## Request\n\n### Path Parameters\n| Parameter | Type | Required | Description |\n|-----------|------|----------|-------------|\n| TBD | | | |\n\n### Query Parameters\n| Parameter | Type | Required | Default | Description |\n|-----------|------|----------|---------|-------------|\n| TBD | | | | |\n\n### Request Body\n```json\n{\n  \"example\": \"Please fill in request body parameters\"\n}\n```\n\n## Response\n\n### Success Response\n```json\n{\n  \"code\": 0,\n  \"data\": {},\n  \"message\": \"success\"\n}\n```\n\n### Error Codes\n| Error Code | Description | Trigger Scenario |\n|------------|-------------|------------------|\n| TBD | | |\n\n## Related Errors\n- None\n\n## Change History\n- ");
    let l0 = "# "@;
    let sp = " "@;
    let l1 = "\n\n## Type\nmethod\n\n## Method\n"@;
    let l2 = "\n\n## Path\n"@;
    let l3 = "\n\n## Full Path\n/api/"@;
    let sl = "/"@;
    let l4 = "\n\n## Description\n"@;
    let l5 = "\n\n## Version\n"@;
    let l6 = "\n\n## Created\n"@;
    let body = method_body();
    let l7 = ": Initial creation\n"@;
    assert(lacks(l0, '\r') && lacks(sp, '\r') && lacks(l1, '\r') && lacks(l2, '\r'));
    assert(lacks(l3, '\r') && lacks(sl, '\r') && lacks(l4, '\r') && lacks(l5, '\r'));
    assert(lacks(l6, '\r') && lacks(body, '\r') && lacks(l7, '\r'));
    let t1 = l0 + method;
    lemma_lacks_add(l0, method, '\r');
    lemma_lacks_add(t1, sp, '\r');
    lemma_lacks_add(t1 + sp, path, '\r');
    let t2 = t1 + sp + path + l1;
    lemma_lacks_add(t1 + sp + path, l1, '\r');
    lemma_lacks_add(t2, method, '\r');
    lemma_lacks_add(t2 + method, l2, '\r');
    lemma_lacks_add(t2 + method + l2, path, '\r');
    let t3 = t2 + method + l2 + path + l3;
    lemma_lacks_add(t2 + method + l2 + path, l3, '\r');
    lemma_lacks_add(t3, version, '\r');
    lemma_lacks_add(t3 + version, sl, '\r');
    lemma_lacks_add(t3 + version + sl, category, '\r');
    lemma_lacks_add(t3 + version + sl + category, sl, '\r');
    lemma_lacks_add(t3 + version + sl + category + sl, resource, '\r');
    let t4 = t3 + version + sl + category + sl + resource + l4;
    lemma_lacks_add(t3 + version + sl + category + sl + resource, l4, '\r');
    lemma_lacks_add(t4, desc, '\r');
    lemma_lacks_add(t4 + desc, l5, '\r');
    lemma_lacks_add(t4 + desc + l5, version, '\r');
    let t5 = t4 + desc + l5 + version + l6;
    lemma_lacks_add(t4 + desc + l5 + version, l6, '\r');
    lemma_lacks_add(t5, date, '\r');
    lemma_lacks_add(t5 + date, body, '\r');
    lemma_lacks_add(t5 + date + body, date, '\r');
    lemma_lacks_add(t5 + date + body + date, l7, '\r');
}

/// What follows the path line of a method's INFO.md.
spec fn method_info_after_path(
    version: Seq<char>,
    category: Seq<char>,
    resource: Seq<char>,
    desc: Seq<char>,
    date: Seq<char>,
) -> Seq<char> {
    "\n## Full Path\n/api/"@ + version + "/"@ + category + "/"@ + resource
        + "\n\n## Description\n"@ + desc + "\n\n## Version\n"@ + version + "\n\n## Created\n"@
        + date + method_body() + date + ": Initial creation\n"@
}

/// The method of a method's INFO.md, read under its heading.
#[verifier::spinoff_prover]
#[verifier::rlimit(40)]
proof fn lemma_method_info_method(
    method: Seq<char>,
    path: Seq<char>,
    version: Seq<char>,
    category: Seq<char>,
    resource: Seq<char>,
    desc: Seq<char>,
    date: Seq<char>,
)
    requires
        plain_line(method),
        trim(method).len() > 0,
        plain_line(path),
        lacks(version, '\r'),
        lacks(category, '\r'),
        lacks(resource, '\r'),
        lacks(desc, '\r'),
        lacks(date, '\r'),
    ensures
        field_value(method_info(method, path, version, category, resource, desc, date), "Method"@)
            == Some(trim(method)),
{
    let text = method_info(method, path, version, category, resource, desc, date);
    lemma_method_info_no_cr(method, path, version, category, resource, desc, date);
    lemma_trim_no_hash(method);
    reveal_strlit("# ");
    reveal_strlit(" ");
    reveal_strlit("\n\n## Type\nmethod\n\n## Method\n");
    reveal_strlit("\n\n## Type\nmethod\n\n");
    reveal_strlit("\n\n## Path\n");
    reveal_strlit("\n## Path\n");
    reveal_strlit("\n\n## Full Path\n/api/");
    reveal_strlit("\n## Full Path\n/api/");
    reveal_strlit("\n");
    reveal_strlit("## ");
    reveal_strlit("Method");
    let l0 = "# "@;
    let sp = " "@;
    let b1 = "\n\n## Type\nmethod\n\n"@;
    let hm = heading("Method"@);
    assert("\n\n## Type\nmethod\n\n## Method\n"@ =~= b1 + hm + "\n"@);
    assert("\n\n## Path\n"@ =~= "\n"@ + "\n## Path\n"@);
    assert("\n\n## Full Path\n/api/"@ =~= "\n"@ + "\n## Full Path\n/api/"@);
    let rest = "\n## Path\n"@ + path + "\n"@ + method_info_after_path(
        version,
        category,
        resource,
        desc,
        date,
    );
    let pre = l0 + method + sp + path + b1;
    assert(text =~= pre + hm + "\n"@ + method + "\n"@ + rest);
    let m = method.len() as int;
    let q = path.len() as int;
    assert(text.subrange(0, 2) =~= l0);
    assert(text.subrange(2, 2 + m) =~= method);
    assert(text.subrange(2 + m, 3 + m) =~= sp);
    assert(text.subrange(3 + m, 3 + m + q) =~= path);
    assert(text.subrange(3 + m + q, 21 + m + q) =~= b1);
    lemma_no_heading_in_piece(text, 0, l0, hm);
    lemma_no_heading_in_plain(text, 2, method, hm);
    lemma_no_heading_in_piece(text, 2 + m, sp, hm);
    lemma_no_heading_in_plain(text, 3 + m, path, hm);
    lemma_no_heading_in_piece(text, 3 + m + q, b1, hm);
    lemma_field_after(text, pre, "Method"@, method, rest);
}

/// The path of a method's INFO.md, read under its heading.
#[verifier::spinoff_prover]
#[verifier::rlimit(40)]
proof fn lemma_method_info_path(
    method: Seq<char>,
    path: Seq<char>,
    version: Seq<char>,
    category: Seq<char>,
    resource: Seq<char>,
    desc: Seq<char>,
    date: Seq<char>,
)
    requires
        plain_line(method),
        plain_line(path),
        trim(path).len() > 0,
        lacks(version, '\r'),
        lacks(category, '\r'),
        lacks(resource, '\r'),
        lacks(desc, '\r'),
        lacks(date, '\r'),
    ensures
        field_value(method_info(method, path, version, category, resource, desc, date), "Path"@)
            == Some(trim(path)),
{
    let text = method_info(method, path, version, category, resource, desc, date);
    lemma_method_info_no_cr(method, path, version, category, resource, desc, date);
    lemma_trim_no_hash(path);
    reveal_strlit("# ");
    reveal_strlit(" ");
    reveal_strlit("\n\n## Type\nmethod\n\n## Method\n");
    reveal_strlit("\n\n## Path\n");
    reveal_strlit("\n\n## Full Path\n/api/");
    reveal_strlit("\n## Full Path\n/api/");
    reveal_strlit("\n\n");
    reveal_strlit("\n");
    reveal_strlit("## ");
    reveal_strlit("Path");
    let l0 = "# "@;
    let sp = " "@;
    let l1 = "\n\n## Type\nmethod\n\n## Method\n"@;
    let nn = "\n\n"@;
    let hp = heading("Path"@);
    assert("\n\n## Path\n"@ =~= nn + hp + "\n"@);
    assert("\n\n## Full Path\n/api/"@ =~= "\n"@ + "\n## Full Path\n/api/"@);
    let rest = method_info_after_path(version, category, resource, desc, date);
    let pre = l0 + method + sp + path + l1 + method + nn;
    assert(text =~= pre + hp + "\n"@ + path + "\n"@ + rest);
    let m = method.len() as int;
    let q = path.len() as int;
    assert(text.subrange(0, 2) =~= l0);
    assert(text.subrange(2, 2 + m) =~= method);
    assert(text.subrange(2 + m, 3 + m) =~= sp);
    assert(text.subrange(3 + m, 3 + m + q) =~= path);
    assert(text.subrange(3 + m + q, 31 + m + q) =~= l1);
    assert(text.subrange(31 + m + q, 31 + 2 * m + q) =~= method);
    assert(text.subrange(31 + 2 * m + q, 33 + 2 * m + q) =~= nn);
    lemma_no_heading_in_piece(text, 0, l0, hp);
    lemma_no_heading_in_plain(text, 2, method, hp);
    lemma_no_heading_in_piece(text, 2 + m, sp, hp);
    lemma_no_heading_in_plain(text, 3 + m, path, hp);
    lemma_no_heading_in_piece(text, 3 + m + q, l1, hp);
    lemma_no_heading_in_plain(text, 31 + m + q, method, hp);
    lemma_no_heading_in_piece(text, 31 + 2 * m + q, nn, hp);
    lemma_field_after(text, pre, "Path"@, path, rest);
}

/// A method's INFO.md reads back as the method and the path it was written
/// for (each trimmed), where neither holds a '#' or a line break or is
/// blank, and no other part holds a '\r'.
pub proof fn law_method_document_read_back(
    method: Seq<char>,
    path: Seq<char>,
    version: Seq<char>,
    category: Seq<char>,
    resource: Seq<char>,
    desc: Seq<char>,
    date: Seq<char>,
)
    requires
        plain_line(method),
        trim(method).len() > 0,
        plain_line(path),
        trim(path).len() > 0,
        lacks(version, '\r'),
        lacks(category, '\r'),
        lacks(resource, '\r'),
        lacks(desc, '\r'),
        lacks(date, '\r'),
    ensures
        field_or(
            method_info(method, path, version, category, resource, desc, date),
            "Method"@,
            seq![],
        ) == trim(method),
        field_or(
            method_info(method, path, version, category, resource, desc, date),
            "Path"@,
            seq![],
        ) == trim(path),
{
    lemma_method_info_method(method, path, version, category, resource, desc, date);
    lemma_method_info_path(method, path, version, category, resource, desc, date);
}

/// A text of letters only is its own trimmed text.
proof fn lemma_trim_letters(s: Seq<char>)
    requires
        s.len() > 0,
        forall|i: int| 0 <= i < s.len() ==> 'A' <= #[trigger] s[i] && s[i] <= 'Z',
    ensures
        trim(s) == s,
{
    let a = lemma_trim_start_at(s);
    if a > 0 {
        assert('A' <= s[0] && s[0] <= 'Z');
    }
    assert(s.skip(0) =~= s);
    let e = lemma_trim_end_at(s);
    if e < s.len() {
        assert('A' <= s[s.len() - 1] && s[s.len() - 1] <= 'Z');
    }
    assert(s.take(s.len() as int) =~= s);
}

/// An HTTP method holds no '#', line break or carriage return, and is its
/// own trimmed text.
proof fn lemma_http_method_plain(m: Seq<char>)
    requires
        is_http_method(m),
    ensures
        plain_line(m),
        trim(m) == m,
        m.len() > 0,
{
    reveal_strlit("GET");
    reveal_strlit("POST");
    reveal_strlit("PUT");
    reveal_strlit("DELETE");
    reveal_strlit("PATCH");
    reveal_strlit("HEAD");
    reveal_strlit("OPTIONS");
    assert(forall|i: int| 0 <= i < m.len() ==> 'A' <= #[trigger] m[i] && m[i] <= 'Z');
    lemma_trim_letters(m);
}

/// What `registry method` writes for a method shows as that method and
/// that path: the INFO.md that `plan_method` gives for a valid method path
/// (one without '#' or line breaks, not blank) reads back, under `Method`,
/// the method in upper case and, under `Path`, the path trimmed, where the
/// version, description and date hold no carriage return. Where moreover
/// none of them holds a '#' and the date is one line, it shows the
/// description given (trimmed), no path or query parameters, no related
/// errors, and one line of history.
pub proof fn law_created_method_reads_back(
    path: Seq<char>,
    version: Seq<char>,
    desc: Seq<char>,
    date: Seq<char>,
)
    requires
        split(path, '/').len() >= 3,
        is_http_method(path_method(path)),
        plain_line(path),
        trim(path).len() > 0,
        lacks(version, '\r'),
        lacks(desc, '\r'),
        lacks(date, '\r'),
    ensures
        ({
            let parts = split(path, '/');
            let category = join(parts.take(parts.len() - 2), "/"@);
            let resource = parts[parts.len() - 2];
            let md = method_info(path_method(path), path, version, category, resource, desc, date);
            &&& field_or(md, "Method"@, seq![]) == path_method(path)
            &&& field_or(md, "Path"@, seq![]) == trim(path)
            &&& lacks(version, '#') && lacks(desc, '#') && plain_line(date) ==> {
                &&& section_or_empty(md, "Description"@) == trim(desc)
                &&& section_params(md, "Path Parameters"@) == Seq::<ParamView>::empty()
                &&& section_params(md, "Query Parameters"@) == Seq::<ParamView>::empty()
                &&& section_items(md, "Related Errors"@) == Seq::<Seq<char>>::empty()
                &&& section_items(md, "Change History"@).len() == 1
            }
        }),
{
    let parts = split(path, '/');
    let category = join(parts.take(parts.len() - 2), "/"@);
    let resource = parts[parts.len() - 2];
    let m = path_method(path);
    lemma_http_method_plain(m);
    lemma_split_lacks(path, '/', '\r');
    lemma_split_lacks(path, '/', '#');
    assert(lacks(resource, '\r') && lacks(resource, '#'));
    reveal_strlit("/");
    assert(lacks("/"@, '\r') && lacks("/"@, '#'));
    assert forall|i: int| 0 <= i < parts.take(parts.len() - 2).len() implies #[trigger] lacks(
        parts.take(parts.len() - 2)[i],
        '\r',
    ) && lacks(parts.take(parts.len() - 2)[i], '#') by {
        assert(parts.take(parts.len() - 2)[i] == parts[i]);
    }
    lemma_join_sep_lacks(parts.take(parts.len() - 2), "/"@, '\r');
    lemma_join_sep_lacks(parts.take(parts.len() - 2), "/"@, '#');
    law_method_document_read_back(m, path, version, category, resource, desc, date);
    if lacks(version, '#') && lacks(desc, '#') && plain_line(date) {
        assert(method_parts_plain(m, path, version, category, resource, desc, date));
        lemma_method_info_description(m, path, version, category, resource, desc, date);
        lemma_method_info_path_params(m, path, version, category, resource, desc, date);
        lemma_method_info_query_params(m, path, version, category, resource, desc, date);
        lemma_method_info_related_errors(m, path, version, category, resource, desc, date);
        lemma_method_info_history(m, path, version, category, resource, desc, date);
    }
}

/// A piece of text in which no "##" is followed by a name that begins as
/// the heading `p`'s does, judged at the first, third, fifth and seventh
/// characters after the "##".
pub open spec fn heading_free(piece: Seq<char>, p: Seq<char>) -> bool {
    forall|k: int|
        0 <= k < piece.len() && #[trigger] piece[k] == '#' ==> {
            ||| k + 1 < piece.len() && piece[k + 1] != '#'
            ||| k + 3 < piece.len() && piece[k + 3] != p[3]
            ||| k + 5 < piece.len() && piece[k + 5] != p[5]
            ||| k + 7 < piece.len() && piece[k + 7] != p[7]
        }
}

/// The pieces one after another.
pub open spec fn concat_all(ps: Seq<Seq<char>>) -> Seq<char>
    decreases ps.len(),
{
    if ps.len() == 0 {
        seq![]
    } else {
        concat_all(ps.drop_last()) + ps.last()
    }
}

/// Every piece is free of the heading `p`.
pub open spec fn all_heading_free(ps: Seq<Seq<char>>, p: Seq<char>) -> bool
    decreases ps.len(),
{
    ps.len() == 0 || (all_heading_free(ps.drop_last(), p) && heading_free(ps.last(), p))
}

/// A heading starts nowhere inside a piece free of it.
proof fn lemma_no_heading_in_free_piece(text: Seq<char>, off: int, piece: Seq<char>, p: Seq<char>)
    requires
        0 <= off,
        off + piece.len() <= text.len(),
        text.subrange(off, off + piece.len()) == piece,
        p.len() >= 8,
        p[0] == '#',
        p[1] == '#',
        heading_free(piece, p),
    ensures
        forall|j: int| off <= j < off + piece.len() ==> !matches_at(text, p, j),
{
    assert forall|j: int| off <= j < off + piece.len() implies !matches_at(text, p, j) by {
        if matches_at(text, p, j) {
            let k = j - off;
            let m = text.subrange(j, j + p.len());
            assert(piece[k] == text[j]);
            assert(m[0] == text[j]);
            if k + 1 < piece.len() && piece[k + 1] != '#' {
                assert(m[1] == text[j + 1]);
                assert(piece[k + 1] == text[j + 1]);
            } else if k + 3 < piece.len() && piece[k + 3] != p[3] {
                assert(m[3] == text[j + 3]);
                assert(piece[k + 3] == text[j + 3]);
            } else if k + 5 < piece.len() && piece[k + 5] != p[5] {
                assert(m[5] == text[j + 5]);
                assert(piece[k + 5] == text[j + 5]);
            } else {
                assert(m[7] == text[j + 7]);
                assert(piece[k + 7] == text[j + 7]);
            }
        }
    }
}

/// A heading starts nowhere inside pieces free of it that begin a text.
proof fn lemma_no_heading_in_pieces(text: Seq<char>, ps: Seq<Seq<char>>, p: Seq<char>)
    requires
        concat_all(ps).len() <= text.len(),
        text.take(concat_all(ps).len() as int) == concat_all(ps),
        p.len() >= 8,
        p[0] == '#',
        p[1] == '#',
        all_heading_free(ps, p),
    ensures
        forall|j: int| 0 <= j < concat_all(ps).len() ==> !matches_at(text, p, j),
    decreases ps.len(),
{
    if ps.len() > 0 {
        let q = ps.drop_last();
        let c = concat_all(q);
        let last = ps.last();
        assert(concat_all(ps) == c + last);
        assert(text.take(c.len() as int) =~= c) by {
            assert forall|i: int| 0 <= i < c.len() implies text.take(c.len() as int)[i] == c[i] by {
                assert(text.take(concat_all(ps).len() as int)[i] == (c + last)[i]);
            }
        }
        lemma_no_heading_in_pieces(text, q, p);
        assert(text.subrange(c.len() as int, (c.len() + last.len()) as int) =~= last) by {
            assert forall|i: int| 0 <= i < last.len() implies text.subrange(
                c.len() as int,
                (c.len() + last.len()) as int,
            )[i] == last[i] by {
                assert(text.take(concat_all(ps).len() as int)[c.len() + i] == (c + last)[c.len() + i]);
            }
        }
        lemma_no_heading_in_free_piece(text, c.len() as int, last, p);
    }
}

/// The parts of a method's INFO.md hold neither '#' nor '\r'.
pub open spec fn method_parts_plain(
    method: Seq<char>,
    path: Seq<char>,
    version: Seq<char>,
    category: Seq<char>,
    resource: Seq<char>,
    desc: Seq<char>,
    date: Seq<char>,
) -> bool {
    &&& lacks(method, '#') && lacks(method, '\r')
    &&& lacks(path, '#') && lacks(path, '\r')
    &&& lacks(version, '#') && lacks(version, '\r')
    &&& lacks(category, '#') && lacks(category, '\r')
    &&& lacks(resource, '#') && lacks(resource, '\r')
    &&& lacks(desc, '#') && lacks(desc, '\r')
    &&& lacks(date, '#') && lacks(date, '\r')
}

/// The description of a method's INFO.md, read as its section.
#[verifier::spinoff_prover]
#[verifier::rlimit(60)]
proof fn lemma_method_info_description(
    method: Seq<char>,
    path: Seq<char>,
    version: Seq<char>,
    category: Seq<char>,
    resource: Seq<char>,
    desc: Seq<char>,
    date: Seq<char>,
)
    requires
        method_parts_plain(method, path, version, category, resource, desc, date),
    ensures
        section_or_empty(method_info(method, path, version, category, resource, desc, date), "Description"@)
            == trim(desc),
{
    let text = method_info(method, path, version, category, resource, desc, date);
    lemma_method_info_no_cr(method, path, version, category, resource, desc, date);
    reveal_strlit("# ");
    reveal_strlit(" ");
    reveal_strlit("\n\n## Type\nmethod\n\n## Method\n");
    reveal_strlit("\n\n## Path\n");
    reveal_strlit("\n\n## Full Path\n/api/");
    reveal_strlit("/");
    reveal_strlit("\n\n## Description\n");
    reveal_strlit("\n\n## Version\n");
    reveal_strlit("## Version\n");
    reveal_strlit("\n\n");
    reveal_strlit("\n");
    reveal_strlit("## ");
    reveal_strlit("Description");
    reveal_strlit("##");
    let hd = heading("Description"@);
    let ps = seq![
        "# "@,
        method,
        " "@,
        path,
        "\n\n## Type\nmethod\n\n## Method\n"@,
        method,
        "\n\n## Path\n"@,
        path,
        "\n\n## Full Path\n/api/"@,
        version,
        "/"@,
        category,
        "/"@,
        resource,
        "\n\n"@
    ];
    reveal_with_fuel(concat_all, 16);
    reveal_with_fuel(all_heading_free, 16);
    let pre = concat_all(ps);
    assert(pre =~= "# "@ + method + " "@ + path + "\n\n## Type\nmethod\n\n## Method\n"@ + method
        + "\n\n## Path\n"@ + path + "\n\n## Full Path\n/api/"@ + version + "/"@ + category + "/"@
        + resource + "\n\n"@);
    let body = seq!['\n'] + desc + seq!['\n'];
    let rest = "## Version\n"@ + version + "\n\n## Created\n"@ + date + method_body() + date
        + ": Initial creation\n"@;
    assert("\n\n## Description\n"@ =~= "\n\n"@ + hd + "\n"@);
    assert("\n\n## Version\n"@ =~= "\n"@ + "\n"@ + "## Version\n"@);
    assert(text =~= pre + hd + body + "\n"@ + rest);
    assert(text.take(pre.len() as int) =~= pre);
    assert(heading_free("# "@, hd));
    assert(heading_free(" "@, hd));
    assert(heading_free("\n\n## Type\nmethod\n\n## Method\n"@, hd));
    assert(heading_free("\n\n## Path\n"@, hd));
    assert(heading_free("\n\n## Full Path\n/api/"@, hd));
    assert(heading_free("/"@, hd));
    assert(heading_free("\n\n"@, hd));
    assert(all_heading_free(ps, hd));
    lemma_no_heading_in_pieces(text, ps, hd);
    assert forall|i: int| 0 <= i < body.len() implies body[i] != '#' by {
        if 0 < i < body.len() - 1 {
            assert(body[i] == desc[i - 1]);
        }
    }
    assert(starts_heading(rest)) by {
        assert(rest.take(2) =~= "##"@);
    }
    lemma_section_after(text, pre, "Description"@, body, rest);
    lemma_trim_wrapped(desc);
}

/// A text without line feeds is one line.
proof fn lemma_one_line(x: Seq<char>)
    requires
        x.len() > 0,
        lacks(x, '\n'),
    ensures
        lines(x) == seq![x],
{
    lemma_index_of(x, '\n');
}

/// The related errors of a method's INFO.md: none, its list holding only
/// `None`.
#[verifier::spinoff_prover]
#[verifier::rlimit(80)]
proof fn lemma_method_info_related_errors(
    method: Seq<char>,
    path: Seq<char>,
    version: Seq<char>,
    category: Seq<char>,
    resource: Seq<char>,
    desc: Seq<char>,
    date: Seq<char>,
)
    requires
        method_parts_plain(method, path, version, category, resource, desc, date),
    ensures
        section_items(method_info(method, path, version, category, resource, desc, date), "Related Errors"@)
            == Seq::<Seq<char>>::empty(),
{
    let text = method_info(method, path, version, category, resource, desc, date);
    lemma_method_info_no_cr(method, path, version, category, resource, desc, date);
    reveal_strlit("# ");
    reveal_strlit(" ");
    reveal_strlit("\n\n## Type\nmethod\n\n## Method\n");
    reveal_strlit("\n\n## Path\n");
    reveal_strlit("\n\n## Full Path\n/api/");
    reveal_strlit("/");
    reveal_strlit("\n\n## Description\n");
    reveal_strlit("## Description\n");
    reveal_strlit("\n\n## Version\n");
    reveal_strlit("\n\n## Created\n");
    reveal_strlit("\n\n");
    reveal_strlit("\n");
    reveal_strlit("## ");
    reveal_strlit("Related Errors");
    reveal_strlit("##");
    reveal_strlit("\n\n## Request\n\n### Path Parameters\n| Parameter | Type | Required | Description |\n|-----------|------|----------|-------------|\n| TBD | | | |\n\n### Query Parameters\n| Parameter | Type | Required | Default | Description |\n|-----------|------|----------|---------|-------------|\n| TBD | | | | |\n\n### Request Body\n```json\n{\n  \"example\": \"Please fill in request body parameters\"\n}\n```\n\n## Response\n\n### Success Response\n```json\n{\n  \"code\": 0,\n  \"data\": {},\n  \"message\": \"success\"\n}\n```\n\n### Error Codes\n| Error Code | Description | Trigger Scenario |\n|------------|-------------|------------------|\n| TBD | | |\n\n");
    reveal_strlit("\n- None\n");
    reveal_strlit("## Change History\n- ");
    reveal_strlit("\n\n## Request\n\n### Path Parameters\n| Parameter | Type | Required | Description |\n|-----------|------|----------|-------------|\n| TBD | | | |\n\n### Query Parameters\n| Parameter | Type | Required | Default | Description |\n|-----------|------|----------|---------|-------------|\n| TBD | | | | |\n\n### Request Body\n```json\n{\n  \"example\": \"Please fill in request body parameters\"\n}\n```\n\n## Response\n\n### Success Response\n```json\n{\n  \"code\": 0,\n  \"data\": {},\n  \"message\": \"success\"\n}\n```\n\n### Error Codes\n| Error Code | Description | Trigger Scenario |\n|------------|-------------|------------------|\n| TBD | | |\n\n## Related Errors\n- None\n\n## Change History\n- ");
    let hd = heading("Related Errors"@);
    let mb1 = "\n\n## Request\n\n### Path Parameters\n| Parameter | Type | Required | Description |\n|-----------|------|----------|-------------|\n| TBD | | | |\n\n### Query Parameters\n| Parameter | Type | Required | Default | Description |\n|-----------|------|----------|---------|-------------|\n| TBD | | | | |\n\n### Request Body\n```json\n{\n  \"example\": \"Please fill in request body parameters\"\n}\n```\n\n## Response\n\n### Success Response\n```json\n{\n  \"code\": 0,\n  \"data\": {},\n  \"message\": \"success\"\n}\n```\n\n### Error Codes\n| Error Code | Description | Trigger Scenario |\n|------------|-------------|------------------|\n| TBD | | |\n\n"@;
    let ps = seq![
        "# "@,
        method,
        " "@,
        path,
        "\n\n## Type\nmethod\n\n## Method\n"@,
        method,
        "\n\n## Path\n"@,
        path,
        "\n\n## Full Path\n/api/"@,
        version,
        "/"@,
        category,
        "/"@,
        resource,
        "\n\n"@,
        "## Description\n"@,
        desc,
        "\n\n## Version\n"@,
        version,
        "\n\n## Created\n"@,
        date,
        mb1
    ];
    reveal_with_fuel(concat_all, 23);
    reveal_with_fuel(all_heading_free, 23);
    let pre = concat_all(ps);
    assert("\n\n## Description\n"@ =~= "\n\n"@ + "## Description\n"@);
    assert(method_body() =~= mb1 + hd + "\n- None\n"@ + "\n"@ + "## Change History\n- "@);
    let body = "\n- None\n"@;
    let rest = "## Change History\n- "@ + date + ": Initial creation\n"@;
    assert(pre =~= "# "@ + method + " "@ + path + "\n\n## Type\nmethod\n\n## Method\n"@ + method
        + "\n\n## Path\n"@ + path + "\n\n## Full Path\n/api/"@ + version + "/"@ + category + "/"@
        + resource + "\n\n"@ + "## Description\n"@ + desc + "\n\n## Version\n"@ + version
        + "\n\n## Created\n"@ + date + mb1);
    assert(text =~= pre + hd + body + "\n"@ + rest);
    assert(text.take(pre.len() as int) =~= pre);
    assert(heading_free("# "@, hd));
    assert(heading_free(" "@, hd));
    assert(heading_free("\n\n## Type\nmethod\n\n## Method\n"@, hd));
    assert(heading_free("\n\n## Path\n"@, hd));
    assert(heading_free("\n\n## Full Path\n/api/"@, hd));
    assert(heading_free("/"@, hd));
    assert(heading_free("\n\n"@, hd));
    assert(heading_free("## Description\n"@, hd));
    assert(heading_free("\n\n## Version\n"@, hd));
    assert(heading_free("\n\n## Created\n"@, hd));
    assert(heading_free(mb1, hd));
    assert(all_heading_free(ps, hd));
    lemma_no_heading_in_pieces(text, ps, hd);
    assert(lacks(body, '#'));
    assert(starts_heading(rest)) by {
        assert(rest.take(2) =~= "##"@);
    }
    lemma_section_after(text, pre, "Related Errors"@, body, rest);
    let x = "- None"@;
    reveal_strlit("- None");
    reveal_strlit("None");
    reveal_strlit("- ");
    reveal_strlit("1. ");
    assert(trim(body) == x) by {
        lemma_trim_wrapped(x);
        assert(body =~= seq!['\n'] + x + seq!['\n']);
        assert(trim_start(x) == x);
        assert(trim_end(x) == x);
    }
    lemma_one_line(x);
    assert(row_items(seq![x]) =~= Seq::<Seq<char>>::empty()) by {
        assert(trim(x) == x) by {
            assert(trim_start(x) == x);
            assert(trim_end(x) == x);
        }
        assert(x.take(2) =~= "- "@);
        assert(starts_with(x, "- "@));
        assert(x.skip(2) =~= "None"@);
        assert("None"@.take(2)[0] == 'N');
        assert(!starts_with("None"@, "- "@));
        reveal_with_fuel(trim_start_matches, 3);
        assert(trim_start_matches(x, "- "@) == "None"@);
        assert(!starts_with("None"@, "1. "@)) by {
            assert("None"@.take(3)[0] == 'N');
        }
        assert(trim_start_matches("None"@, "1. "@) == "None"@);
        assert(trim_start("None"@) == "None"@);
        assert(trim_end("None"@) == "None"@);
        assert(item_of_line(x) is None);
        assert(seq![x].drop_last() =~= Seq::<Seq<char>>::empty());
        assert(seq![x].last() == x);
        let f = |l: Seq<char>| item_of_line(l);
        assert(Seq::<Seq<char>>::empty().filter_map(f) =~= Seq::<Seq<char>>::empty());
        assert(f(x) is None);
        assert(seq![x].filter_map(f) == seq![x].drop_last().filter_map(f));
    }
}

/// Stripping a prefix again and again leaves a tail that starts with a
/// character the prefix does not hold.
proof fn lemma_strip_keeps_tail(u: Seq<char>, w: Seq<char>, p: Seq<char>) -> (u2: Seq<char>)
    requires
        p.len() > 0,
        w.len() > 0,
        !p.contains(w[0]),
    ensures
        trim_start_matches(u + w, p) == u2 + w,
    decreases u.len(),
{
    let y = u + w;
    if starts_with(y, p) {
        if p.len() <= u.len() {
            assert(y.skip(p.len() as int) =~= u.skip(p.len() as int) + w);
            lemma_strip_keeps_tail(u.skip(p.len() as int), w, p)
        } else {
            assert(y.take(p.len() as int)[u.len() as int] == p[u.len() as int]);
            assert(y[u.len() as int] == w[0]);
            assert(p.contains(w[0]));
            u
        }
    } else {
        u
    }
}

/// Trimming a text that ends in a tail starting and ending with
/// non-whitespace keeps the tail.
proof fn lemma_trim_keeps_tail(u: Seq<char>, w: Seq<char>)
    requires
        w.len() > 0,
        !is_ws(w[0]),
        !is_ws(w.last()),
    ensures
        trim(u + w).len() >= w.len(),
{
    let y = u + w;
    let a = lemma_trim_start_at(y);
    if a > u.len() {
        assert(is_ws(y[u.len() as int]));
        assert(y[u.len() as int] == w[0]);
    }
    let z = y.skip(a);
    assert(z.len() > 0);
    assert(z.last() == w.last());
    assert(trim_end(z) == z);
}

/// The change history of a method's INFO.md: one item, its creation.
#[verifier::spinoff_prover]
#[verifier::rlimit(80)]
proof fn lemma_method_info_history(
    method: Seq<char>,
    path: Seq<char>,
    version: Seq<char>,
    category: Seq<char>,
    resource: Seq<char>,
    desc: Seq<char>,
    date: Seq<char>,
)
    requires
        method_parts_plain(method, path, version, category, resource, desc, date),
        lacks(date, '\n'),
    ensures
        section_items(method_info(method, path, version, category, resource, desc, date), "Change History"@).len()
            == 1,
{
    let text = method_info(method, path, version, category, resource, desc, date);
    lemma_method_info_no_cr(method, path, version, category, resource, desc, date);
    reveal_strlit("# ");
    reveal_strlit(" ");
    reveal_strlit("\n\n## Type\nmethod\n\n## Method\n");
    reveal_strlit("\n\n## Path\n");
    reveal_strlit("\n\n## Full Path\n/api/");
    reveal_strlit("/");
    reveal_strlit("\n\n## Description\n");
    reveal_strlit("## Description\n");
    reveal_strlit("\n\n## Version\n");
    reveal_strlit("\n\n## Created\n");
    reveal_strlit("\n\n");
    reveal_strlit("\n");
    reveal_strlit("## ");
    reveal_strlit("Change History");
    reveal_strlit("\n\n## Request\n\n### Path Parameters\n| Parameter | Type | Required | Description |\n|-----------|------|----------|-------------|\n| TBD | | | |\n\n### Query Parameters\n| Parameter | Type | Required | Default | Description |\n|-----------|------|----------|---------|-------------|\n| TBD | | | | |\n\n### Request Body\n```json\n{\n  \"example\": \"Please fill in request body parameters\"\n}\n```\n\n## Response\n\n### Success Response\n```json\n{\n  \"code\": 0,\n  \"data\": {},\n  \"message\": \"success\"\n}\n```\n\n### Error Codes\n| Error Code | Description | Trigger Scenario |\n|------------|-------------|------------------|\n| TBD | | |\n\n## Related Errors\n- None\n\n");
    reveal_strlit("\n\n## Request\n\n### Path Parameters\n| Parameter | Type | Required | Description |\n|-----------|------|----------|-------------|\n| TBD | | | |\n\n### Query Parameters\n| Parameter | Type | Required | Default | Description |\n|-----------|------|----------|---------|-------------|\n| TBD | | | | |\n\n### Request Body\n```json\n{\n  \"example\": \"Please fill in request body parameters\"\n}\n```\n\n## Response\n\n### Success Response\n```json\n{\n  \"code\": 0,\n  \"data\": {},\n  \"message\": \"success\"\n}\n```\n\n### Error Codes\n| Error Code | Description | Trigger Scenario |\n|------------|-------------|------------------|\n| TBD | | |\n\n## Related Errors\n- None\n\n## Change History\n- ");
    reveal_strlit(": Initial creation\n");
    reveal_strlit(": Initial creation");
    reveal_strlit("- ");
    reveal_strlit("1. ");
    let hd = heading("Change History"@);
    let mb2 = "\n\n## Request\n\n### Path Parameters\n| Parameter | Type | Required | Description |\n|-----------|------|----------|-------------|\n| TBD | | | |\n\n### Query Parameters\n| Parameter | Type | Required | Default | Description |\n|-----------|------|----------|---------|-------------|\n| TBD | | | | |\n\n### Request Body\n```json\n{\n  \"example\": \"Please fill in request body parameters\"\n}\n```\n\n## Response\n\n### Success Response\n```json\n{\n  \"code\": 0,\n  \"data\": {},\n  \"message\": \"success\"\n}\n```\n\n### Error Codes\n| Error Code | Description | Trigger Scenario |\n|------------|-------------|------------------|\n| TBD | | |\n\n## Related Errors\n- None\n\n"@;
    let ps = seq![
        "# "@,
        method,
        " "@,
        path,
        "\n\n## Type\nmethod\n\n## Method\n"@,
        method,
        "\n\n## Path\n"@,
        path,
        "\n\n## Full Path\n/api/"@,
        version,
        "/"@,
        category,
        "/"@,
        resource,
        "\n\n"@,
        "## Description\n"@,
        desc,
        "\n\n## Version\n"@,
        version,
        "\n\n## Created\n"@,
        date,
        mb2
    ];
    reveal_with_fuel(concat_all, 23);
    reveal_with_fuel(all_heading_free, 23);
    let pre = concat_all(ps);
    assert("\n\n## Description\n"@ =~= "\n\n"@ + "## Description\n"@);
    let w = ": Initial creation"@;
    let x = "- "@ + date + w;
    let body = seq!['\n'] + x + seq!['\n'];
    assert(method_body() =~= mb2 + hd + "\n"@ + "- "@);
    assert(": Initial creation\n"@ =~= w + "\n"@);
    assert(pre =~= "# "@ + method + " "@ + path + "\n\n## Type\nmethod\n\n## Method\n"@ + method
        + "\n\n## Path\n"@ + path + "\n\n## Full Path\n/api/"@ + version + "/"@ + category + "/"@
        + resource + "\n\n"@ + "## Description\n"@ + desc + "\n\n## Version\n"@ + version
        + "\n\n## Created\n"@ + date + mb2);
    assert(text =~= pre + hd + body);
    assert(text.take(pre.len() as int) =~= pre);
    assert(heading_free("# "@, hd));
    assert(heading_free(" "@, hd));
    assert(heading_free("\n\n## Type\nmethod\n\n## Method\n"@, hd));
    assert(heading_free("\n\n## Path\n"@, hd));
    assert(heading_free("\n\n## Full Path\n/api/"@, hd));
    assert(heading_free("/"@, hd));
    assert(heading_free("\n\n"@, hd));
    assert(heading_free("## Description\n"@, hd));
    assert(heading_free("\n\n## Version\n"@, hd));
    assert(heading_free("\n\n## Created\n"@, hd));
    assert(heading_free(mb2, hd));
    assert(all_heading_free(ps, hd));
    lemma_no_heading_in_pieces(text, ps, hd);
    assert forall|i: int| 0 <= i < body.len() implies body[i] != '#' && (1 <= i < body.len() - 1
        ==> x[i - 1] != '\n') by {
        if 1 <= i < body.len() - 1 {
            assert(body[i] == x[i - 1]);
            if 3 <= i < 3 + date.len() {
                assert(x[i - 1] == date[i - 3]);
            }
        }
    }
    lemma_section_last(text, pre, "Change History"@, body);
    lemma_trim_wrapped(x);
    assert(x[0] == '-');
    assert(x.last() == 'n');
    assert(trim_start(x) == x);
    assert(trim_end(x) == x);
    assert(trim(x) == x);
    assert(lacks(x, '\n'));
    lemma_one_line(x);
    // The one line is an item.
    assert(x.take(2) =~= "- "@);
    assert(x.skip(2) =~= date + w);
    assert(!"- "@.contains(w[0]));
    assert(!"1. "@.contains(w[0]));
    let u2 = lemma_strip_keeps_tail(date, w, "- "@);
    let u3 = lemma_strip_keeps_tail(u2, w, "1. "@);
    assert(trim_start_matches(x, "- "@) == trim_start_matches(date + w, "- "@));
    lemma_trim_keeps_tail(u3, w);
    let item = trim(trim_start_matches(trim_start_matches(trim(x), "- "@), "1. "@));
    assert(item.len() >= 18);
    reveal_strlit("None");
    reveal_strlit("TBD");
    assert(item != "None"@);
    assert(item != "TBD"@);
    assert(item_of_line(x) == Some(item));
    let f = |l: Seq<char>| item_of_line(l);
    assert(seq![x].drop_last() =~= Seq::<Seq<char>>::empty());
    assert(seq![x].last() == x);
    assert(Seq::<Seq<char>>::empty().filter_map(f) =~= Seq::<Seq<char>>::empty());
    assert(seq![x].filter_map(f) =~= seq![item]);
}

/// `p` occurs in a text where it stands at some place.
proof fn lemma_contains_at(s: Seq<char>, p: Seq<char>, i: int)
    requires
        matches_at(s, p, i),
    ensures
        contains(s, p),
{
    lemma_find_from(s, p, 0);
}

/// Splitting at a separator cuts off the piece before its first
/// occurrence.
proof fn lemma_split_cons(a: Seq<char>, b: Seq<char>, c: char)
    requires
        lacks(a, c),
    ensures
        split(a + seq![c] + b, c) == seq![a] + split(b, c),
{
    let s = a + seq![c] + b;
    assert(s[a.len() as int] == c);
    assert forall|j: int| 0 <= j < a.len() implies s[j] != c by {
        assert(s[j] == a[j]);
    }
    lemma_index_of_at(s, c, a.len() as int);
    assert(s.take(a.len() as int) =~= a);
    assert(s.skip(a.len() as int + 1) =~= b);
}

/// A line without line feeds or a final carriage return comes first among
/// the lines of a text that continues after a line feed.
proof fn lemma_lines_cons(a: Seq<char>, b: Seq<char>)
    requires
        lacks(a, '\n'),
        a.len() == 0 || a.last() != '\r',
    ensures
        lines(a + seq!['\n'] + b) == seq![a] + lines(b),
{
    let s = a + seq!['\n'] + b;
    assert(s[a.len() as int] == '\n');
    assert forall|j: int| 0 <= j < a.len() implies s[j] != '\n' by {
        assert(s[j] == a[j]);
    }
    lemma_index_of_at(s, '\n', a.len() as int);
    assert(s.take(a.len() as int) =~= a);
    assert(s.skip(a.len() as int + 1) =~= b);
}

/// Nothing trims to nothing, and neither it nor a space is kept as a cell.
proof fn lemma_blank_pieces()
    ensures
        trim(Seq::<char>::empty()) == Seq::<char>::empty(),
        nonblank(Seq::<char>::empty()) is None,
        nonblank(seq![' ']) is None,
        seq![Seq::<char>::empty()].filter_map(|p: Seq<char>| nonblank(p)) == Seq::<Seq<char>>::empty(),
        seq![seq![' ']].filter_map(|p: Seq<char>| nonblank(p)) == Seq::<Seq<char>>::empty(),
{
    let e = Seq::<char>::empty();
    assert(trim_start(e) =~= e);
    assert(trim_end(e) =~= e);
    assert(is_ws(' '));
    assert(seq![' '].drop_first() =~= e);
    assert(trim_start(seq![' ']) =~= e);
    let f = |p: Seq<char>| nonblank(p);
    assert(Seq::<Seq<char>>::empty().filter_map(f) =~= Seq::<Seq<char>>::empty());
    assert(seq![e].drop_last() =~= Seq::<Seq<char>>::empty());
    assert(seq![e].last() == e);
    assert(seq![seq![' ']].drop_last() =~= Seq::<Seq<char>>::empty());
    assert(seq![seq![' ']].last() == seq![' ']);
}

/// The row `| TBD |` followed by `n` blank cells holds one cell.
#[verifier::rlimit(40)]
proof fn lemma_tbd_row_cells(n: nat) -> (line: Seq<char>)
    ensures
        line == "| TBD |"@ + tbd_blanks(n),
        cells(line).len() == 1,
{
    reveal_strlit("| TBD |");
    reveal_strlit(" TBD ");
    reveal_strlit("TBD ");
    reveal_strlit("TBD");
    lemma_blank_pieces();
    let e = Seq::<char>::empty();
    let tb = " TBD "@;
    let bl = tbd_blanks(n);
    let line = "| TBD |"@ + bl;
    assert(line =~= e + seq!['|'] + (tb + seq!['|'] + bl));
    lemma_split_cons(e, tb + seq!['|'] + bl, '|');
    assert(lacks(tb, '|'));
    lemma_split_cons(tb, bl, '|');
    lemma_blank_cells(n);
    let pieces = seq![e, tb] + split(bl, '|');
    assert(split(line, '|') =~= pieces);
    let f = |p: Seq<char>| nonblank(p);
    assert(trim(tb) == "TBD"@) by {
        assert(is_ws(' '));
        assert(tb.drop_first() =~= "TBD "@);
        assert(trim_start("TBD "@) == "TBD "@);
        assert(trim_start(tb) == "TBD "@);
        assert("TBD "@.drop_last() =~= "TBD"@);
        assert(trim_end("TBD"@) == "TBD"@);
        assert(trim_end("TBD "@) == "TBD"@);
    }
    assert(nonblank(tb) == Some("TBD"@));
    lemma_filter_map_concat(seq![e, tb], split(bl, '|'), f);
    assert(seq![e, tb].drop_last() =~= seq![e]);
    assert(seq![e, tb].last() == tb);
    assert(seq![e, tb].filter_map(f) =~= seq!["TBD"@]);
    line
}

/// `n` blank cells: a space and a bar, `n` times.
pub open spec fn tbd_blanks(n: nat) -> Seq<char>
    decreases n,
{
    if n == 0 {
        seq![]
    } else {
        seq![' ', '|'] + tbd_blanks((n - 1) as nat)
    }
}

/// Blank cells give no cell.
proof fn lemma_blank_cells(n: nat)
    ensures
        split(tbd_blanks(n), '|').filter_map(|p: Seq<char>| nonblank(p)) == Seq::<Seq<char>>::empty(),
    decreases n,
{
    let f = |p: Seq<char>| nonblank(p);
    lemma_blank_pieces();
    if n == 0 {
        lemma_index_of(Seq::<char>::empty(), '|');
        assert(split(Seq::<char>::empty(), '|') == seq![Seq::<char>::empty()]);
    } else {
        lemma_blank_cells((n - 1) as nat);
        assert(tbd_blanks(n) =~= seq![' '] + seq!['|'] + tbd_blanks((n - 1) as nat));
        lemma_split_cons(seq![' '], tbd_blanks((n - 1) as nat), '|');
        lemma_filter_map_concat(seq![seq![' ']], split(tbd_blanks((n - 1) as nat), '|'), f);
        assert(Seq::<Seq<char>>::empty() + Seq::<Seq<char>>::empty() =~= Seq::<Seq<char>>::empty());
    }
}

/// A table of a header row naming `Parameter`, a separator row and one row
/// of `TBD` and blank cells lists no parameter.
proof fn lemma_param_table_empty(l1: Seq<char>, l2: Seq<char>, n: nat)
    requires
        contains(l1, "Parameter"@),
        contains(l2, "---"@),
        lacks(l1, '\n'),
        lacks(l2, '\n'),
        l1.len() > 0 && l1.last() != '\r',
        l2.len() > 0 && l2.last() != '\r',
    ensures
        row_params(lines(l1 + seq!['\n'] + l2 + seq!['\n'] + ("| TBD |"@ + tbd_blanks(n))))
            == Seq::<ParamView>::empty(),
{
    reveal_strlit("| TBD |");
    let l3 = lemma_tbd_row_cells(n);
    assert(lacks(l3, '\n')) by {
        lemma_tbd_blanks_plain(n);
        assert forall|i: int| 0 <= i < l3.len() implies l3[i] != '\n' by {
            if i >= 7 {
                assert(l3[i] == tbd_blanks(n)[i - 7]);
            }
        }
    }
    lemma_lines_cons(l1, l2 + seq!['\n'] + l3);
    assert(l1 + seq!['\n'] + l2 + seq!['\n'] + l3 =~= l1 + seq!['\n'] + (l2 + seq!['\n'] + l3));
    lemma_lines_cons(l2, l3);
    lemma_one_line(l3);
    let ls = seq![l1, l2, l3];
    assert(lines(l1 + seq!['\n'] + l2 + seq!['\n'] + l3) =~= ls);
    assert(param_of_line(l1) is None);
    assert(param_of_line(l2) is None);
    assert(param_of_line(l3) is None);
    let f = |l: Seq<char>| param_of_line(l);
    assert(ls.drop_last() =~= seq![l1, l2]);
    assert(seq![l1, l2].drop_last() =~= seq![l1]);
    assert(seq![l1].drop_last() =~= Seq::<Seq<char>>::empty());
    assert(Seq::<Seq<char>>::empty().filter_map(f) =~= Seq::<ParamView>::empty());
    assert(seq![l1].filter_map(f) =~= Seq::<ParamView>::empty());
    assert(seq![l1, l2].filter_map(f) =~= Seq::<ParamView>::empty());
    assert(ls.filter_map(f) =~= Seq::<ParamView>::empty());
}

/// Blank cells hold no line feed.
proof fn lemma_tbd_blanks_plain(n: nat)
    ensures
        lacks(tbd_blanks(n), '\n'),
    decreases n,
{
    if n > 0 {
        lemma_tbd_blanks_plain((n - 1) as nat);
        let t = tbd_blanks(n);
        assert forall|i: int| 0 <= i < t.len() implies t[i] != '\n' by {
            if i >= 2 {
                assert(t[i] == tbd_blanks((n - 1) as nat)[i - 2]);
            }
        }
    }
}

/// The path parameters of a method's INFO.md: none, its table holding only a
/// `TBD` row.
#[verifier::spinoff_prover]
#[verifier::rlimit(90)]
proof fn lemma_method_info_path_params(
    method: Seq<char>,
    path: Seq<char>,
    version: Seq<char>,
    category: Seq<char>,
    resource: Seq<char>,
    desc: Seq<char>,
    date: Seq<char>,
)
    requires
        method_parts_plain(method, path, version, category, resource, desc, date),
    ensures
        section_params(method_info(method, path, version, category, resource, desc, date), "Path Parameters"@)
            == Seq::<ParamView>::empty(),
{
    let text = method_info(method, path, version, category, resource, desc, date);
    lemma_method_info_no_cr(method, path, version, category, resource, desc, date);
    reveal_strlit("# ");
    reveal_strlit(" ");
    reveal_strlit("\n\n## Type\nmethod\n\n## Method\n");
    reveal_strlit("\n\n## Path\n");
    reveal_strlit("\n\n## Full Path\n/api/");
    reveal_strlit("/");
    reveal_strlit("\n\n## Description\n");
    reveal_strlit("## Description\n");
    reveal_strlit("\n\n## Version\n");
    reveal_strlit("\n\n## Created\n");
    reveal_strlit("\n\n");
    reveal_strlit("\n");
    reveal_strlit("#");
    reveal_strlit("## ");
    reveal_strlit("Path Parameters");
    reveal_strlit("##");
    reveal_strlit("\n\n## Request\n\n");
    reveal_strlit("### Query Parameters\n| Parameter | Type | Required | Default | Description |\n|-----------|------|----------|---------|-------------|\n| TBD | | | | |\n\n### Request Body\n```json\n{\n  \"example\": \"Please fill in request body parameters\"\n}\n```\n\n## Response\n\n### Success Response\n```json\n{\n  \"code\": 0,\n  \"data\": {},\n  \"message\": \"success\"\n}\n```\n\n### Error Codes\n| Error Code | Description | Trigger Scenario |\n|------------|-------------|------------------|\n| TBD | | |\n\n## Related Errors\n- None\n\n## Change History\n- ");
    reveal_strlit("| Parameter | Type | Required | Description |");
    reveal_strlit("|-----------|------|----------|-------------|");
    reveal_strlit("| TBD |");
    reveal_strlit("\n\n## Request\n\n### Path Parameters\n| Parameter | Type | Required | Description |\n|-----------|------|----------|-------------|\n| TBD | | | |\n\n### Query Parameters\n| Parameter | Type | Required | Default | Description |\n|-----------|------|----------|---------|-------------|\n| TBD | | | | |\n\n### Request Body\n```json\n{\n  \"example\": \"Please fill in request body parameters\"\n}\n```\n\n## Response\n\n### Success Response\n```json\n{\n  \"code\": 0,\n  \"data\": {},\n  \"message\": \"success\"\n}\n```\n\n### Error Codes\n| Error Code | Description | Trigger Scenario |\n|------------|-------------|------------------|\n| TBD | | |\n\n## Related Errors\n- None\n\n## Change History\n- ");
    reveal_strlit("Parameter");
    reveal_strlit("---");
    let hd = heading("Path Parameters"@);
    let mbp = "\n\n## Request\n\n"@;
    let ps = seq![
        "# "@,
        method,
        " "@,
        path,
        "\n\n## Type\nmethod\n\n## Method\n"@,
        method,
        "\n\n## Path\n"@,
        path,
        "\n\n## Full Path\n/api/"@,
        version,
        "/"@,
        category,
        "/"@,
        resource,
        "\n\n"@,
        "## Description\n"@,
        desc,
        "\n\n## Version\n"@,
        version,
        "\n\n## Created\n"@,
        date,
        mbp
    ];
    reveal_with_fuel(concat_all, 23);
    reveal_with_fuel(all_heading_free, 23);
    let c = concat_all(ps);
    assert("\n\n## Description\n"@ =~= "\n\n"@ + "## Description\n"@);
    let l1 = "| Parameter | Type | Required | Description |"@;
    let l2 = "|-----------|------|----------|-------------|"@;
    let l3 = "| TBD |"@ + tbd_blanks(3);
    assert(l3 =~= "| TBD | | | |"@) by {
        reveal_strlit("| TBD | | | |");
        reveal_with_fuel(tbd_blanks, 6);
    }
    let t = l1 + seq!['\n'] + l2 + seq!['\n'] + l3;
    let body = seq!['\n'] + t + seq!['\n'];
    let rest = "### Query Parameters\n| Parameter | Type | Required | Default | Description |\n|-----------|------|----------|---------|-------------|\n| TBD | | | | |\n\n### Request Body\n```json\n{\n  \"example\": \"Please fill in request body parameters\"\n}\n```\n\n## Response\n\n### Success Response\n```json\n{\n  \"code\": 0,\n  \"data\": {},\n  \"message\": \"success\"\n}\n```\n\n### Error Codes\n| Error Code | Description | Trigger Scenario |\n|------------|-------------|------------------|\n| TBD | | |\n\n## Related Errors\n- None\n\n## Change History\n- "@ + date + ": Initial creation\n"@;
    assert(method_body() =~= mbp + "#"@ + hd + body + "\n"@ + "### Query Parameters\n| Parameter | Type | Required | Default | Description |\n|-----------|------|----------|---------|-------------|\n| TBD | | | | |\n\n### Request Body\n```json\n{\n  \"example\": \"Please fill in request body parameters\"\n}\n```\n\n## Response\n\n### Success Response\n```json\n{\n  \"code\": 0,\n  \"data\": {},\n  \"message\": \"success\"\n}\n```\n\n### Error Codes\n| Error Code | Description | Trigger Scenario |\n|------------|-------------|------------------|\n| TBD | | |\n\n## Related Errors\n- None\n\n## Change History\n- "@) by {
        reveal_strlit("| TBD | | | |");
    }
    assert(c =~= "# "@ + method + " "@ + path + "\n\n## Type\nmethod\n\n## Method\n"@ + method
        + "\n\n## Path\n"@ + path + "\n\n## Full Path\n/api/"@ + version + "/"@ + category + "/"@
        + resource + "\n\n"@ + "## Description\n"@ + desc + "\n\n## Version\n"@ + version
        + "\n\n## Created\n"@ + date + mbp);
    let pre = c + "#"@;
    assert(text =~= pre + hd + body + "\n"@ + rest);
    assert(text.take(c.len() as int) =~= c);
    assert(heading_free("# "@, hd));
    assert(heading_free(" "@, hd));
    assert(heading_free("\n\n## Type\nmethod\n\n## Method\n"@, hd));
    assert(heading_free("\n\n## Path\n"@, hd));
    assert(heading_free("\n\n## Full Path\n/api/"@, hd));
    assert(heading_free("/"@, hd));
    assert(heading_free("\n\n"@, hd));
    assert(heading_free("## Description\n"@, hd));
    assert(heading_free("\n\n## Version\n"@, hd));
    assert(heading_free("\n\n## Created\n"@, hd));
    assert(heading_free(mbp, hd));
    assert(all_heading_free(ps, hd));
    lemma_no_heading_in_pieces(text, ps, hd);
    assert(!matches_at(text, hd, c.len() as int)) by {
        if matches_at(text, hd, c.len() as int) {
            assert(text.subrange(c.len() as int, (c.len() + hd.len()) as int)[2] == text[c.len() as int + 2]);
            assert(text[c.len() as int + 2] == hd[1]);
        }
    }
    assert(lacks(body, '#')) by {
        reveal_strlit("| TBD | | | |");
        assert(l3 == "| TBD | | | |"@);
        assert(lacks(l1, '#') && lacks(l2, '#') && lacks(l3, '#'));
        let a = 1 + l1.len();
        let b = a + 1 + l2.len();
        assert forall|i: int| 0 <= i < body.len() implies body[i] != '#' by {
            if 1 <= i < a {
                assert(body[i] == l1[i - 1]);
            } else if a + 1 <= i < b {
                assert(body[i] == l2[i - a - 1]);
            } else if b + 1 <= i < body.len() - 1 {
                assert(body[i] == l3[i - b - 1]);
            }
        }
    }
    assert(starts_heading(rest)) by {
        assert(rest.take(2) =~= "##"@);
    }
    lemma_section_after(text, pre, "Path Parameters"@, body, rest);
    lemma_trim_wrapped(t);
    assert(t[0] == '|');
    assert(t.last() == l3.last());
    assert(l3.last() == '|') by {
        reveal_with_fuel(tbd_blanks, 6);
    }
    assert(trim_start(t) == t);
    assert(trim_end(t) == t);
    assert(l1.subrange(2, 11) =~= "Parameter"@);
    assert(matches_at(l1, "Parameter"@, 2));
    lemma_contains_at(l1, "Parameter"@, 2);
    assert(l2.subrange(1, 4) =~= "---"@);
    assert(matches_at(l2, "---"@, 1));
    lemma_contains_at(l2, "---"@, 1);
    lemma_param_table_empty(l1, l2, 3);
}

/// The query parameters of a method's INFO.md: none, its table holding only a
/// `TBD` row.
#[verifier::spinoff_prover]
#[verifier::rlimit(90)]
proof fn lemma_method_info_query_params(
    method: Seq<char>,
    path: Seq<char>,
    version: Seq<char>,
    category: Seq<char>,
    resource: Seq<char>,
    desc: Seq<char>,
    date: Seq<char>,
)
    requires
        method_parts_plain(method, path, version, category, resource, desc, date),
    ensures
        section_params(method_info(method, path, version, category, resource, desc, date), "Query Parameters"@)
            == Seq::<ParamView>::empty(),
{
    let text = method_info(method, path, version, category, resource, desc, date);
    lemma_method_info_no_cr(method, path, version, category, resource, desc, date);
    reveal_strlit("# ");
    reveal_strlit(" ");
    reveal_strlit("\n\n## Type\nmethod\n\n## Method\n");
    reveal_strlit("\n\n## Path\n");
    reveal_strlit("\n\n## Full Path\n/api/");
    reveal_strlit("/");
    reveal_strlit("\n\n## Description\n");
    reveal_strlit("## Description\n");
    reveal_strlit("\n\n## Version\n");
    reveal_strlit("\n\n## Created\n");
    reveal_strlit("\n\n");
    reveal_strlit("\n");
    reveal_strlit("#");
    reveal_strlit("## ");
    reveal_strlit("Query Parameters");
    reveal_strlit("##");
    reveal_strlit("\n\n## Request\n\n### Path Parameters\n| Parameter | Type | Required | Description |\n|-----------|------|----------|-------------|\n| TBD | | | |\n\n");
    reveal_strlit("### Request Body\n```json\n{\n  \"example\": \"Please fill in request body parameters\"\n}\n```\n\n## Response\n\n### Success Response\n```json\n{\n  \"code\": 0,\n  \"data\": {},\n  \"message\": \"success\"\n}\n```\n\n### Error Codes\n| Error Code | Description | Trigger Scenario |\n|------------|-------------|------------------|\n| TBD | | |\n\n## Related Errors\n- None\n\n## Change History\n- ");
    reveal_strlit("| Parameter | Type | Required | Default | Description |");
    reveal_strlit("|-----------|------|----------|---------|-------------|");
    reveal_strlit("| TBD |");
    reveal_strlit("\n\n## Request\n\n### Path Parameters\n| Parameter | Type | Required | Description |\n|-----------|------|----------|-------------|\n| TBD | | | |\n\n### Query Parameters\n| Parameter | Type | Required | Default | Description |\n|-----------|------|----------|---------|-------------|\n| TBD | | | | |\n\n### Request Body\n```json\n{\n  \"example\": \"Please fill in request body parameters\"\n}\n```\n\n## Response\n\n### Success Response\n```json\n{\n  \"code\": 0,\n  \"data\": {},\n  \"message\": \"success\"\n}\n```\n\n### Error Codes\n| Error Code | Description | Trigger Scenario |\n|------------|-------------|------------------|\n| TBD | | |\n\n## Related Errors\n- None\n\n## Change History\n- ");
    reveal_strlit("Parameter");
    reveal_strlit("---");
    let hd = heading("Query Parameters"@);
    let mbp = "\n\n## Request\n\n### Path Parameters\n| Parameter | Type | Required | Description |\n|-----------|------|----------|-------------|\n| TBD | | | |\n\n"@;
    let ps = seq![
        "# "@,
        method,
        " "@,
        path,
        "\n\n## Type\nmethod\n\n## Method\n"@,
        method,
        "\n\n## Path\n"@,
        path,
        "\n\n## Full Path\n/api/"@,
        version,
        "/"@,
        category,
        "/"@,
        resource,
        "\n\n"@,
        "## Description\n"@,
        desc,
        "\n\n## Version\n"@,
        version,
        "\n\n## Created\n"@,
        date,
        mbp
    ];
    reveal_with_fuel(concat_all, 23);
    reveal_with_fuel(all_heading_free, 23);
    let c = concat_all(ps);
    assert("\n\n## Description\n"@ =~= "\n\n"@ + "## Description\n"@);
    let l1 = "| Parameter | Type | Required | Default | Description |"@;
    let l2 = "|-----------|------|----------|---------|-------------|"@;
    let l3 = "| TBD |"@ + tbd_blanks(4);
    assert(l3 =~= "| TBD | | | | |"@) by {
        reveal_strlit("| TBD | | | | |");
        reveal_with_fuel(tbd_blanks, 6);
    }
    let t = l1 + seq!['\n'] + l2 + seq!['\n'] + l3;
    let body = seq!['\n'] + t + seq!['\n'];
    let rest = "### Request Body\n```json\n{\n  \"example\": \"Please fill in request body parameters\"\n}\n```\n\n## Response\n\n### Success Response\n```json\n{\n  \"code\": 0,\n  \"data\": {},\n  \"message\": \"success\"\n}\n```\n\n### Error Codes\n| Error Code | Description | Trigger Scenario |\n|------------|-------------|------------------|\n| TBD | | |\n\n## Related Errors\n- None\n\n## Change History\n- "@ + date + ": Initial creation\n"@;
    assert(method_body() =~= mbp + "#"@ + hd + body + "\n"@ + "### Request Body\n```json\n{\n  \"example\": \"Please fill in request body parameters\"\n}\n```\n\n## Response\n\n### Success Response\n```json\n{\n  \"code\": 0,\n  \"data\": {},\n  \"message\": \"success\"\n}\n```\n\n### Error Codes\n| Error Code | Description | Trigger Scenario |\n|------------|-------------|------------------|\n| TBD | | |\n\n## Related Errors\n- None\n\n## Change History\n- "@) by {
        reveal_strlit("| TBD | | | | |");
    }
    assert(c =~= "# "@ + method + " "@ + path + "\n\n## Type\nmethod\n\n## Method\n"@ + method
        + "\n\n## Path\n"@ + path + "\n\n## Full Path\n/api/"@ + version + "/"@ + category + "/"@
        + resource + "\n\n"@ + "## Description\n"@ + desc + "\n\n## Version\n"@ + version
        + "\n\n## Created\n"@ + date + mbp);
    let pre = c + "#"@;
    assert(text =~= pre + hd + body + "\n"@ + rest);
    assert(text.take(c.len() as int) =~= c);
    assert(heading_free("# "@, hd));
    assert(heading_free(" "@, hd));
    assert(heading_free("\n\n## Type\nmethod\n\n## Method\n"@, hd));
    assert(heading_free("\n\n## Path\n"@, hd));
    assert(heading_free("\n\n## Full Path\n/api/"@, hd));
    assert(heading_free("/"@, hd));
    assert(heading_free("\n\n"@, hd));
    assert(heading_free("## Description\n"@, hd));
    assert(heading_free("\n\n## Version\n"@, hd));
    assert(heading_free("\n\n## Created\n"@, hd));
    assert(heading_free(mbp, hd));
    assert(all_heading_free(ps, hd));
    lemma_no_heading_in_pieces(text, ps, hd);
    assert(!matches_at(text, hd, c.len() as int)) by {
        if matches_at(text, hd, c.len() as int) {
            assert(text.subrange(c.len() as int, (c.len() + hd.len()) as int)[2] == text[c.len() as int + 2]);
            assert(text[c.len() as int + 2] == hd[1]);
        }
    }
    assert(lacks(body, '#')) by {
        reveal_strlit("| TBD | | | | |");
        assert(l3 == "| TBD | | | | |"@);
        assert(lacks(l1, '#') && lacks(l2, '#') && lacks(l3, '#'));
        let a = 1 + l1.len();
        let b = a + 1 + l2.len();
        assert forall|i: int| 0 <= i < body.len() implies body[i] != '#' by {
            if 1 <= i < a {
                assert(body[i] == l1[i - 1]);
            } else if a + 1 <= i < b {
                assert(body[i] == l2[i - a - 1]);
            } else if b + 1 <= i < body.len() - 1 {
                assert(body[i] == l3[i - b - 1]);
            }
        }
    }
    assert(starts_heading(rest)) by {
        assert(rest.take(2) =~= "##"@);
    }
    lemma_section_after(text, pre, "Query Parameters"@, body, rest);
    lemma_trim_wrapped(t);
    assert(t[0] == '|');
    assert(t.last() == l3.last());
    assert(l3.last() == '|') by {
        reveal_with_fuel(tbd_blanks, 6);
    }
    assert(trim_start(t) == t);
    assert(trim_end(t) == t);
    assert(l1.subrange(2, 11) =~= "Parameter"@);
    assert(matches_at(l1, "Parameter"@, 2));
    lemma_contains_at(l1, "Parameter"@, 2);
    assert(l2.subrange(1, 4) =~= "---"@);
    assert(matches_at(l2, "---"@, 1));
    lemma_contains_at(l2, "---"@, 1);
    lemma_param_table_empty(l1, l2, 4);
}

/// Every piece lacks `c`.
pub open spec fn pieces_lack(ps: Seq<Seq<char>>, c: char) -> bool
    decreases ps.len(),
{
    ps.len() == 0 || (pieces_lack(ps.drop_last(), c) && lacks(ps.last(), c))
}

/// Pieces that lack `c` put together lack it.
proof fn lemma_concat_lacks(ps: Seq<Seq<char>>, c: char)
    requires
        pieces_lack(ps, c),
    ensures
        lacks(concat_all(ps), c),
    decreases ps.len(),
{
    if ps.len() > 0 {
        lemma_concat_lacks(ps.drop_last(), c);
        lemma_lacks_add(concat_all(ps.drop_last()), ps.last(), c);
    }
}

/// An endpoint's INFO.md reads back, under `Category`, the category it was
/// written for (trimmed), where that category is one line without '#' and
/// not blank, the resource and path hold no '#', and no part holds a
/// carriage return.
pub proof fn law_endpoint_document_category(
    resource: Seq<char>,
    path: Seq<char>,
    category: Seq<char>,
    desc: Seq<char>,
    version: Seq<char>,
    date: Seq<char>,
)
    requires
        lacks(resource, '#'),
        lacks(path, '#'),
        plain_line(category),
        trim(category).len() > 0,
        lacks(resource, '\r'),
        lacks(path, '\r'),
        lacks(desc, '\r'),
        lacks(version, '\r'),
        lacks(date, '\r'),
    ensures
        field_or(endpoint_info(resource, path, category, desc, version, date), "Category"@, seq![])
            == trim(category),
{
    let text = endpoint_info(resource, path, category, desc, version, date);
    reveal_strlit("# ");
    reveal_strlit("\n\n## Type\nendpoint\n\n## Path\n");
    reveal_strlit("\n\n## Resource\n");
    reveal_strlit("\n\n## Category\n");
    reveal_strlit("\n\n## Description\n");
    reveal_strlit("\n## Description\n");
    reveal_strlit("\n\n## Version\n");
    reveal_strlit("\n\n## Created\n");
    reveal_strlit("\n\n## Methods\n- None yet\n\n## Last Updated\n");
    reveal_strlit("\n\n");
    reveal_strlit("\n");
    reveal_strlit("## ");
    reveal_strlit("Category");
    let hd = heading("Category"@);
    let all = seq![
        "# "@,
        resource,
        "\n\n## Type\nendpoint\n\n## Path\n"@,
        path,
        "\n\n## Resource\n"@,
        resource,
        "\n\n## Category\n"@,
        category,
        "\n\n## Description\n"@,
        desc,
        "\n\n## Version\n"@,
        version,
        "\n\n## Created\n"@,
        date,
        "\n\n## Methods\n- None yet\n\n## Last Updated\n"@,
        date,
        "\n"@
    ];
    reveal_with_fuel(concat_all, 18);
    reveal_with_fuel(pieces_lack, 18);
    reveal_with_fuel(all_heading_free, 18);
    assert(text =~= concat_all(all));
    lemma_concat_lacks(all, '\r');
    let ps = seq![
        "# "@,
        resource,
        "\n\n## Type\nendpoint\n\n## Path\n"@,
        path,
        "\n\n## Resource\n"@,
        resource,
        "\n\n"@
    ];
    let pre = concat_all(ps);
    let rest = "\n## Description\n"@ + desc + "\n\n## Version\n"@ + version + "\n\n## Created\n"@ + date
        + "\n\n## Methods\n- None yet\n\n## Last Updated\n"@ + date + "\n"@;
    assert("\n\n## Category\n"@ =~= "\n\n"@ + hd + "\n"@);
    assert("\n\n## Description\n"@ =~= "\n"@ + "\n## Description\n"@);
    assert(text =~= pre + hd + "\n"@ + category + "\n"@ + rest);
    assert(text.take(pre.len() as int) =~= pre);
    assert(all_heading_free(ps, hd));
    lemma_no_heading_in_pieces(text, ps, hd);
    lemma_trim_no_hash(category);
    lemma_field_after(text, pre, "Category"@, category, rest);
}

/// The INFO.md that `registry endpoint` plans for a path reads back its
/// category: all of the path but its last segment, where the path is one
/// line without '#' and its category is not blank.
pub proof fn law_planned_endpoint_category(path: Seq<char>, desc: Seq<char>, version: Seq<char>, date: Seq<char>)
    requires
        split(path, '/').len() >= 2,
        plain_line(path),
        trim(path_category(path)).len() > 0,
        lacks(desc, '\r'),
        lacks(version, '\r'),
        lacks(date, '\r'),
    ensures
        field_or(
            endpoint_info(path_resource(path), path, path_category(path), desc, version, date),
            "Category"@,
            seq![],
        ) == trim(path_category(path)),
{
    let parts = split(path, '/');
    lemma_split_lacks(path, '/', '\r');
    lemma_split_lacks(path, '/', '#');
    lemma_split_lacks(path, '/', '\n');
    reveal_strlit("/");
    assert(lacks("/"@, '\r') && lacks("/"@, '#') && lacks("/"@, '\n'));
    let front = parts.drop_last();
    assert forall|i: int| 0 <= i < front.len() implies #[trigger] lacks(front[i], '\r') && lacks(
        front[i],
        '#',
    ) && lacks(front[i], '\n') by {
        assert(front[i] == parts[i]);
    }
    lemma_join_sep_lacks(front, "/"@, '\r');
    lemma_join_sep_lacks(front, "/"@, '#');
    lemma_join_sep_lacks(front, "/"@, '\n');
    assert(lacks(parts.last(), '#') && lacks(parts.last(), '\r')) by {
        assert(parts.last() == parts[parts.len() - 1]);
    }
    law_endpoint_document_category(path_resource(path), path, path_category(path), desc, version, date);
}

/// A category's INFO.md reads back the description it was written with
/// (trimmed), where the name and the description hold no '#' and no part
/// holds a carriage return.
pub proof fn law_category_document_description(
    name: Seq<char>,
    desc: Seq<char>,
    version: Seq<char>,
    date: Seq<char>,
)
    requires
        lacks(name, '#'),
        lacks(desc, '#'),
        lacks(name, '\r'),
        lacks(desc, '\r'),
        lacks(version, '\r'),
        lacks(date, '\r'),
    ensures
        section_or_empty(category_info(name, desc, version, date), "Description"@) == trim(desc),
{
    let text = category_info(name, desc, version, date);
    reveal_strlit("# ");
    reveal_strlit("\n\n## Type\ncategory\n\n## Path\n");
    reveal_strlit("\n\n## Description\n");
    reveal_strlit("\n\n## Version\n");
    reveal_strlit("## Version\n");
    reveal_strlit("\n\n## Created\n");
    reveal_strlit("\n\n## Endpoints\n- None yet\n\n## Last Updated\n");
    reveal_strlit("\n\n");
    reveal_strlit("\n");
    reveal_strlit("## ");
    reveal_strlit("Description");
    reveal_strlit("##");
    let hd = heading("Description"@);
    let all = seq![
        "# "@,
        name,
        "\n\n## Type\ncategory\n\n## Path\n"@,
        name,
        "\n\n## Description\n"@,
        desc,
        "\n\n## Version\n"@,
        version,
        "\n\n## Created\n"@,
        date,
        "\n\n## Endpoints\n- None yet\n\n## Last Updated\n"@,
        date,
        "\n"@
    ];
    reveal_with_fuel(concat_all, 14);
    reveal_with_fuel(pieces_lack, 14);
    reveal_with_fuel(all_heading_free, 14);
    assert(text =~= concat_all(all));
    lemma_concat_lacks(all, '\r');
    let ps = seq!["# "@, name, "\n\n## Type\ncategory\n\n## Path\n"@, name, "\n\n"@];
    let pre = concat_all(ps);
    let body = seq!['\n'] + desc + seq!['\n'];
    let rest = "## Version\n"@ + version + "\n\n## Created\n"@ + date
        + "\n\n## Endpoints\n- None yet\n\n## Last Updated\n"@ + date + "\n"@;
    assert("\n\n## Description\n"@ =~= "\n\n"@ + hd + "\n"@);
    assert("\n\n## Version\n"@ =~= "\n"@ + "\n"@ + "## Version\n"@);
    assert(text =~= pre + hd + body + "\n"@ + rest);
    assert(text.take(pre.len() as int) =~= pre);
    assert(all_heading_free(ps, hd));
    lemma_no_heading_in_pieces(text, ps, hd);
    assert forall|i: int| 0 <= i < body.len() implies body[i] != '#' by {
        if 0 < i < body.len() - 1 {
            assert(body[i] == desc[i - 1]);
        }
    }
    assert(starts_heading(rest)) by {
        assert(rest.take(2) =~= "##"@);
    }
    lemma_section_after(text, pre, "Description"@, body, rest);
    lemma_trim_wrapped(desc);
}

/// A new version's INFO.md reads back, under `Source Version`, the branch it
/// was made from (trimmed), where that branch is one line without '#' and
/// not blank, the version, description and date hold no '#', and no part
/// holds a carriage return.
pub proof fn law_version_document_source(
    version: Seq<char>,
    desc: Seq<char>,
    date: Seq<char>,
    source: Seq<char>,
)
    requires
        lacks(version, '#'),
        lacks(desc, '#'),
        lacks(date, '#'),
        plain_line(source),
        trim(source).len() > 0,
        lacks(version, '\r'),
        lacks(desc, '\r'),
        lacks(date, '\r'),
    ensures
        field_or(version_info(version, desc, date, source), "Source Version"@, seq![]) == trim(source),
{
    let text = version_info(version, desc, date, source);
    reveal_strlit("# ");
    reveal_strlit("\n\n## Description\n");
    reveal_strlit("\n\n## Created\n");
    reveal_strlit("\n\n## Source Version\n");
    reveal_strlit("\n\n## Categories\n- None yet\n\n## Last Updated\n");
    reveal_strlit("\n## Categories\n- None yet\n\n## Last Updated\n");
    reveal_strlit("\n\n");
    reveal_strlit("\n");
    reveal_strlit("## ");
    reveal_strlit("Source Version");
    let hd = heading("Source Version"@);
    let all = seq![
        "# "@,
        version,
        "\n\n## Description\n"@,
        desc,
        "\n\n## Created\n"@,
        date,
        "\n\n## Source Version\n"@,
        source,
        "\n\n## Categories\n- None yet\n\n## Last Updated\n"@,
        date,
        "\n"@
    ];
    reveal_with_fuel(concat_all, 12);
    reveal_with_fuel(pieces_lack, 12);
    reveal_with_fuel(all_heading_free, 12);
    assert(text =~= concat_all(all));
    lemma_concat_lacks(all, '\r');
    let ps = seq!["# "@, version, "\n\n## Description\n"@, desc, "\n\n## Created\n"@, date, "\n\n"@];
    let pre = concat_all(ps);
    let rest = "\n## Categories\n- None yet\n\n## Last Updated\n"@ + date + "\n"@;
    assert("\n\n## Source Version\n"@ =~= "\n\n"@ + hd + "\n"@);
    assert("\n\n## Categories\n- None yet\n\n## Last Updated\n"@ =~= "\n"@
        + "\n## Categories\n- None yet\n\n## Last Updated\n"@);
    assert(text =~= pre + hd + "\n"@ + source + "\n"@ + rest);
    assert(text.take(pre.len() as int) =~= pre);
    assert(all_heading_free(ps, hd));
    lemma_no_heading_in_pieces(text, ps, hd);
    lemma_trim_no_hash(source);
    lemma_field_after(text, pre, "Source Version"@, source, rest);
}

/// The INFO.md that `registry new` plans reads back, under `Source Version`,
/// the branch the new version is made from: `api` where there is no
/// version yet, else the latest version (trimmed), where that is one line
/// without '#' and not blank and the description and date hold no '#' or
/// carriage return.
pub proof fn law_planned_version_source(
    latest: Option<Seq<char>>,
    n: nat,
    desc: Seq<char>,
    date: Seq<char>,
)
    requires
        latest is Some ==> plain_line(latest->0) && trim(latest->0).len() > 0,
        lacks(desc, '#'),
        lacks(date, '#'),
        lacks(desc, '\r'),
        lacks(date, '\r'),
    ensures
        field_or(
            version_info("v"@ + decimal(n), desc, date, version_source(latest)),
            "Source Version"@,
            seq![],
        ) == match latest {
            Some(l) => trim(l),
            None => "api"@,
        },
{
    reveal_strlit("v");
    reveal_strlit("api");
    lemma_decimal_plain(n);
    let v = "v"@ + decimal(n);
    assert(lacks(v, '#') && lacks(v, '\r')) by {
        assert forall|i: int| 0 <= i < v.len() implies v[i] != '#' && v[i] != '\r' by {
            if i > 0 {
                assert(v[i] == decimal(n)[i - 1]);
            }
        }
    }
    match latest {
        Some(l) => {
            law_version_document_source(v, desc, date, l);
        },
        None => {
            let a = "api"@;
            assert(plain_line(a));
            assert(trim_start(a) == a);
            assert(trim_end(a) == a);
            law_version_document_source(v, desc, date, a);
        },
    }
}

} // verus!

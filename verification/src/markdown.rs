//! Reading the INFO.md and ERROR.md documents of endpoints and error codes:
//! fields, sections, tables and lists.
use crate::outside::{lowercase, regex_group, regex_group_result, to_lowercase};
use crate::text::{
    find_from, is_ws, lacks, lemma_find_from, lemma_find_from_at, lemma_index_of_at,
    lemma_replace_absent, matches_at, strip_cr,
    chars_of, concat, find, find_chars, lemma_matches_at_skip, lines, lines_of, matches_at_chars,
    replace, replace_chars, slice, split, split_chars, starts_with, starts_with_chars, string_of,
    texts, trim, trim_chars, contains, contains_chars, eq_chars, lemma_texts_push,
    trim_start_matches, trim_start_matches_chars, strings, lemma_strings_push, opt_text,
};
use vstd::prelude::*;

verus! {

// ---------------------------------------------------------------------------
// Specifications
// ---------------------------------------------------------------------------
/// The text with every `\r\n` turned into `\n`.
pub open spec fn normalize(s: Seq<char>) -> Seq<char> {
    replace(s, "\r\n"@, "\n"@)
}

/// The heading line that opens a section named `name`.
pub open spec fn heading(name: Seq<char>) -> Seq<char> {
    "## "@ + name
}

/// The characters that the `regex` crate treats as meta characters.
pub open spec fn is_regex_meta(c: char) -> bool {
    c == '\\' || c == '.' || c == '+' || c == '*' || c == '?' || c == '(' || c == ')' || c == '|'
        || c == '[' || c == ']' || c == '{' || c == '}' || c == '^' || c == '$' || c == '#' || c
        == '&' || c == '-' || c == '~'
}

/// `regex::escape`: each meta character gets a backslash before it.
pub open spec fn regex_escape(s: Seq<char>) -> Seq<char>
    decreases s.len(),
{
    if s.len() == 0 {
        seq![]
    } else if is_regex_meta(s.last()) {
        regex_escape(s.drop_last()) + seq!['\\', s.last()]
    } else {
        regex_escape(s.drop_last()) + seq![s.last()]
    }
}

/// The value under a heading: the first non-blank line, trimmed, unless
/// that line is itself a heading.
pub open spec fn first_value_line(ls: Seq<Seq<char>>) -> Option<Seq<char>>
    decreases ls.len(),
{
    if ls.len() == 0 {
        None
    } else if trim(ls[0]).len() == 0 {
        first_value_line(ls.drop_first())
    } else if starts_with(trim(ls[0]), "#"@) {
        None
    } else {
        Some(trim(ls[0]))
    }
}

/// The pattern of the older `**Field**: value` form.
pub open spec fn field_pattern(field: Seq<char>) -> Seq<char> {
    "\\*\\*"@ + regex_escape(field) + "\\*\\*:\\s*(.+)"@
}

/// The value of a field: under its `## Field` heading, or else in the
/// `**Field**: value` form.
pub open spec fn field_value(content: Seq<char>, field: Seq<char>) -> Option<Seq<char>> {
    let n = normalize(content);
    let from_heading = match find(n, heading(field)) {
        Some(pos) => first_value_line(lines(n.skip(pos + heading(field).len()))),
        None => None,
    };
    match from_heading {
        Some(v) => Some(v),
        None => match regex_group_result(field_pattern(field), n, 1) {
            Some(g) => Some(trim(g)),
            None => None,
        },
    }
}

/// Whether a line begins a new section: it starts with `##` or `# `.
pub open spec fn starts_heading(rest: Seq<char>) -> bool {
    starts_with(rest, "##"@) || starts_with(rest, "# "@)
}

/// Where the body after a heading ends: at the first line feed, from `i`
/// on, that a heading follows; or at the end of the text.
pub open spec fn section_end_from(a: Seq<char>, i: int) -> int
    decreases a.len() - i,
{
    if i < 0 || i >= a.len() {
        a.len() as int
    } else if a[i] == '\n' && starts_heading(a.skip(i + 1)) {
        i
    } else {
        section_end_from(a, i + 1)
    }
}

/// The trimmed body of the first section headed `## name`, if it holds
/// anything.
pub open spec fn section_text(content: Seq<char>, name: Seq<char>) -> Option<Seq<char>> {
    let n = normalize(content);
    match find(n, heading(name)) {
        None => None,
        Some(start) => {
            let after = n.skip(start + heading(name).len());
            let body = trim(after.take(section_end_from(after, 0)));
            if body.len() == 0 {
                None
            } else {
                Some(body)
            }
        },
    }
}

/// The pattern of a fenced code block.
pub open spec fn code_block_pattern() -> Seq<char> {
    "```(?:json)?\\s*\\n(.*?)```"@
}

/// The trimmed text inside the first fenced block of a section.
pub open spec fn code_block_text(content: Seq<char>, name: Seq<char>) -> Option<Seq<char>> {
    match section_text(content, name) {
        None => None,
        Some(sc) => match regex_group_result(code_block_pattern(), sc, 1) {
            Some(g) => Some(trim(g)),
            None => None,
        },
    }
}

// ---------------------------------------------------------------------------
// Executable functions
// ---------------------------------------------------------------------------
/// `\r\n` turned into `\n` throughout.
pub fn normalize_newlines(s: &Vec<char>) -> (r: Vec<char>)
    ensures
        r@ == normalize(s@),
{
    let p = chars_of("\r\n");
    let q = chars_of("\n");
    proof {
        reveal_strlit("\r\n");
    }
    replace_chars(s, &p, &q)
}

/// `regex::escape`.
pub fn escape_regex(s: &Vec<char>) -> (r: Vec<char>)
    ensures
        r@ == regex_escape(s@),
{
    let mut out: Vec<char> = Vec::new();
    let mut i: usize = 0;
    while i < s.len()
        invariant
            i <= s.len(),
            out@ == regex_escape(s@.take(i as int)),
        decreases s.len() - i,
    {
        let c = s[i];
        let ghost t = s@.take(i + 1);
        assert(t.drop_last() =~= s@.take(i as int));
        if c == '\\' || c == '.' || c == '+' || c == '*' || c == '?' || c == '(' || c == ')' || c
            == '|' || c == '[' || c == ']' || c == '{' || c == '}' || c == '^' || c == '$' || c
            == '#' || c == '&' || c == '-' || c == '~' {
            out.push('\\');
        }
        out.push(c);
        assert(out@ =~= regex_escape(t));
        i = i + 1;
    }
    assert(s@.take(s.len() as int) =~= s@);
    out
}

/// The value under a heading, from the lines that follow it.
fn first_value_line_of(ls: &Vec<Vec<char>>) -> (r: Option<Vec<char>>)
    ensures
        match r {
            Some(v) => first_value_line(texts(ls@)) == Some(v@),
            None => first_value_line(texts(ls@)) is None,
        },
{
    let hash = chars_of("#");
    let mut i: usize = 0;
    assert(texts(ls@).skip(0) =~= texts(ls@));
    while i < ls.len()
        invariant
            i <= ls.len(),
            first_value_line(texts(ls@).skip(i as int)) == first_value_line(texts(ls@)),
            hash@ == "#"@,
        decreases ls.len() - i,
    {
        let ghost rest = texts(ls@).skip(i as int);
        assert(rest[0] == ls@[i as int]@);
        assert(rest.drop_first() =~= texts(ls@).skip(i + 1));
        let t = trim_chars(&ls[i]);
        if t.len() > 0 {
            if starts_with_chars(&t, &hash) {
                return None;
            }
            return Some(t);
        }
        i = i + 1;
    }
    None
}

/// The value of a field of a document.
pub fn field_value_of(content: &Vec<char>, field: &Vec<char>) -> (r: Option<Vec<char>>)
    ensures
        match r {
            Some(v) => field_value(content@, field@) == Some(v@),
            None => field_value(content@, field@) is None,
        },
{
    let n = normalize_newlines(content);
    let header = concat(&chars_of("## "), field);
    let from_heading = match find_chars(&n, &header) {
        Some(pos) => {
            assert(pos + header@.len() <= n@.len());
            assert(n@.len() == n.len() && header@.len() == header.len());
            let after = slice(&n, pos + header.len(), n.len());
            assert(after@ =~= n@.skip(pos + header@.len()));
            first_value_line_of(&lines_of(&after))
        },
        None => None,
    };
    match from_heading {
        Some(v) => Some(v),
        None => {
            let pattern = concat(
                &concat(&chars_of("\\*\\*"), &escape_regex(field)),
                &chars_of("\\*\\*:\\s*(.+)"),
            );
            match regex_group(&string_of(&pattern), &string_of(&n), 1) {
                Some(g) => Some(trim_chars(&chars_of(g.as_str()))),
                None => None,
            }
        },
    }
}

/// Whether a heading begins at position `k` of `a`.
fn heading_at(a: &Vec<char>, k: usize) -> (r: bool)
    requires
        k <= a.len(),
    ensures
        r == starts_heading(a@.skip(k as int)),
{
    proof {
        lemma_matches_at_skip(a@, "##"@, k as int);
        lemma_matches_at_skip(a@, "# "@, k as int);
    }
    matches_at_chars(a, &chars_of("##"), k) || matches_at_chars(a, &chars_of("# "), k)
}

/// Where the body after a heading ends.
fn section_end(a: &Vec<char>) -> (r: usize)
    ensures
        r as int == section_end_from(a@, 0),
        r <= a.len(),
{
    let mut i: usize = 0;
    while i < a.len()
        invariant
            i <= a.len(),
            section_end_from(a@, i as int) == section_end_from(a@, 0),
        decreases a.len() - i,
    {
        if a[i] == '\n' && heading_at(a, i + 1) {
            return i;
        }
        i = i + 1;
    }
    a.len()
}

/// The trimmed body of the first section with the given name.
pub fn section_text_of(content: &Vec<char>, name: &Vec<char>) -> (r: Option<Vec<char>>)
    ensures
        match r {
            Some(v) => section_text(content@, name@) == Some(v@),
            None => section_text(content@, name@) is None,
        },
{
    let n = normalize_newlines(content);
    let header = concat(&chars_of("## "), name);
    match find_chars(&n, &header) {
        None => None,
        Some(start) => {
            assert(start + header@.len() <= n@.len());
            assert(n@.len() == n.len() && header@.len() == header.len());
            let after = slice(&n, start + header.len(), n.len());
            assert(after@ =~= n@.skip(start + header@.len()));
            let end = section_end(&after);
            let body = trim_chars(&slice(&after, 0, end));
            assert(after@.subrange(0, end as int) =~= after@.take(end as int));
            if body.len() == 0 {
                None
            } else {
                Some(body)
            }
        },
    }
}

/// The trimmed text in the first fenced block of a section.
pub fn code_block_of(content: &Vec<char>, name: &Vec<char>) -> (r: Option<Vec<char>>)
    ensures
        match r {
            Some(v) => code_block_text(content@, name@) == Some(v@),
            None => code_block_text(content@, name@) is None,
        },
{
    let sc = section_text_of(content, name)?;
    match regex_group("```(?:json)?\\s*\\n(.*?)```", &string_of(&sc), 1) {
        Some(g) => Some(trim_chars(&chars_of(g.as_str()))),
        None => None,
    }
}

// ---------------------------------------------------------------------------
// Tables and lists
// ---------------------------------------------------------------------------
/// One row of a parameter table.
pub struct ParamInfo {
    pub name: String,
    pub param_type: String,
    pub required: bool,
    pub description: String,
}

/// What a parameter row holds.
pub struct ParamView {
    pub name: Seq<char>,
    pub param_type: Seq<char>,
    pub required: bool,
    pub description: Seq<char>,
}

impl View for ParamInfo {
    type V = ParamView;

    open spec fn view(&self) -> ParamView {
        ParamView {
            name: self.name@,
            param_type: self.param_type@,
            required: self.required,
            description: self.description@,
        }
    }
}

/// The views of a sequence of parameter rows.
pub open spec fn param_views(v: Seq<ParamInfo>) -> Seq<ParamView> {
    v.map_values(|p: ParamInfo| p@)
}

/// A trimmed piece, kept only if something is left of it.
pub open spec fn nonblank(p: Seq<char>) -> Option<Seq<char>> {
    if trim(p).len() > 0 {
        Some(trim(p))
    } else {
        None
    }
}

/// The non-empty trimmed cells of a table row.
pub open spec fn cells(line: Seq<char>) -> Seq<Seq<char>> {
    split(line, '|').filter_map(|p: Seq<char>| nonblank(p))
}

/// A table row: it starts with `|`, and is neither the header row (which
/// names `header_word`) nor the separator row.
pub open spec fn is_table_row(line: Seq<char>, header_word: Seq<char>) -> bool {
    starts_with(line, "|"@) && !contains(line, header_word) && !contains(line, "---"@)
}

/// The parameter that a row of a parameter table describes.
pub open spec fn param_of_line(line: Seq<char>) -> Option<ParamView> {
    let c = cells(line);
    if is_table_row(line, "Parameter"@) && c.len() >= 4 {
        Some(
            ParamView {
                name: c[0],
                param_type: c[1],
                required: lowercase(c[2]) == "yes"@ || c[2] == "true"@,
                description: c[3],
            },
        )
    } else {
        None
    }
}

/// The parameters of a table's lines.
pub open spec fn row_params(ls: Seq<Seq<char>>) -> Seq<ParamView> {
    ls.filter_map(|l: Seq<char>| param_of_line(l))
}

/// The parameters listed in a section.
pub open spec fn section_params(content: Seq<char>, name: Seq<char>) -> Seq<ParamView> {
    match section_text(content, name) {
        Some(sc) => row_params(lines(sc)),
        None => seq![],
    }
}

/// The error code that a row of the error code table names.
pub open spec fn code_of_line(line: Seq<char>) -> Option<Seq<char>> {
    if is_table_row(line, "Error Code"@) && cells(line).len() > 0 {
        Some(cells(line)[0])
    } else {
        None
    }
}

/// The error codes of a table's lines.
pub open spec fn row_codes(ls: Seq<Seq<char>>) -> Seq<Seq<char>> {
    ls.filter_map(|l: Seq<char>| code_of_line(l))
}

/// The error codes listed in the `Error Codes` section.
pub open spec fn section_error_codes(content: Seq<char>) -> Seq<Seq<char>> {
    match section_text(content, "Error Codes"@) {
        Some(sc) => row_codes(lines(sc)),
        None => seq![],
    }
}

/// The item of a `- item` or `1. item` line, unless it is empty, `None`
/// or `TBD`.
pub open spec fn item_of_line(line: Seq<char>) -> Option<Seq<char>> {
    let t = trim(line);
    let item = trim(trim_start_matches(trim_start_matches(t, "- "@), "1. "@));
    if (starts_with(t, "- "@) || starts_with(t, "1. "@)) && item.len() > 0 && item != "None"@
        && item != "TBD"@ {
        Some(item)
    } else {
        None
    }
}

/// The items of a list's lines.
pub open spec fn row_items(ls: Seq<Seq<char>>) -> Seq<Seq<char>> {
    ls.filter_map(|l: Seq<char>| item_of_line(l))
}

/// The items listed in a section.
pub open spec fn section_items(content: Seq<char>, name: Seq<char>) -> Seq<Seq<char>> {
    match section_text(content, name) {
        Some(sc) => row_items(lines(sc)),
        None => seq![],
    }
}

/// The non-empty trimmed cells of a table row.
pub fn cells_of(line: &Vec<char>) -> (r: Vec<Vec<char>>)
    ensures
        texts(r@) == cells(line@),
{
    let parts = split_chars(line, '|');
    let ghost ps = texts(parts@);
    let mut out: Vec<Vec<char>> = Vec::new();
    let mut i: usize = 0;
    while i < parts.len()
        invariant
            i <= parts.len(),
            ps == texts(parts@),
            texts(out@) == ps.take(i as int).filter_map(|p: Seq<char>| nonblank(p)),
        decreases parts.len() - i,
    {
        proof {
            ps.lemma_filter_map_take_succ(|p: Seq<char>| nonblank(p), i as int);
        }
        let t = trim_chars(&parts[i]);
        if t.len() > 0 {
            proof {
                lemma_texts_push(out@, t);
            }
            out.push(t);
        }
        i = i + 1;
    }
    assert(ps.take(parts.len() as int) =~= ps);
    out
}

/// Whether a line is a row of a table whose header row names `word`.
fn is_table_row_of(line: &Vec<char>, word: &Vec<char>) -> (r: bool)
    ensures
        r == is_table_row(line@, word@),
{
    starts_with_chars(line, &chars_of("|")) && !contains_chars(line, word) && !contains_chars(
        line,
        &chars_of("---"),
    )
}

/// The parameter that a table row describes.
fn param_of(line: &Vec<char>) -> (r: Option<ParamInfo>)
    ensures
        match r {
            Some(p) => param_of_line(line@) == Some(p@),
            None => param_of_line(line@) is None,
        },
{
    if !is_table_row_of(line, &chars_of("Parameter")) {
        return None;
    }
    let c = cells_of(line);
    if c.len() < 4 {
        return None;
    }
    assert(texts(c@)[2] == c@[2]@);
    let third = string_of(&c[2]);
    let lower = to_lowercase(third.as_str());
    let required = eq_chars(&chars_of(lower.as_str()), &chars_of("yes")) || eq_chars(
        &c[2],
        &chars_of("true"),
    );
    assert(texts(c@)[0] == c@[0]@ && texts(c@)[1] == c@[1]@ && texts(c@)[3] == c@[3]@);
    Some(
        ParamInfo {
            name: string_of(&c[0]),
            param_type: string_of(&c[1]),
            required,
            description: string_of(&c[3]),
        },
    )
}

/// The parameters listed in a section (a table with a `Parameter` header).
pub fn parse_params(content: &str, section: &str) -> (r: Vec<ParamInfo>)
    ensures
        param_views(r@) == section_params(content@, section@),
{
    let mut params: Vec<ParamInfo> = Vec::new();
    if let Some(sc) = section_text_of(&chars_of(content), &chars_of(section)) {
        let ls = lines_of(&sc);
        let ghost lv = texts(ls@);
        let mut i: usize = 0;
        while i < ls.len()
            invariant
                i <= ls.len(),
                lv == texts(ls@),
                param_views(params@) == lv.take(i as int).filter_map(
                    |l: Seq<char>| param_of_line(l),
                ),
            decreases ls.len() - i,
        {
            proof {
                lv.lemma_filter_map_take_succ(|l: Seq<char>| param_of_line(l), i as int);
            }
            if let Some(p) = param_of(&ls[i]) {
                let ghost before = params@;
                params.push(p);
                assert(param_views(params@) =~= param_views(before).push(p@));
            }
            i = i + 1;
        }
        assert(lv.take(ls.len() as int) =~= lv);
    }
    params
}

/// The error code that a row of the error code table names.
fn code_of(line: &Vec<char>) -> (r: Option<Vec<char>>)
    ensures
        match r {
            Some(c) => code_of_line(line@) == Some(c@),
            None => code_of_line(line@) is None,
        },
{
    if !is_table_row_of(line, &chars_of("Error Code")) {
        return None;
    }
    let c = cells_of(line);
    if c.len() == 0 {
        return None;
    }
    assert(texts(c@)[0] == c@[0]@);
    Some(c[0].clone())
}

/// The error codes of the `Error Codes` table.
pub fn parse_error_codes(content: &str) -> (r: Vec<String>)
    ensures
        strings(r@) == section_error_codes(content@),
{
    let mut codes: Vec<String> = Vec::new();
    if let Some(sc) = section_text_of(&chars_of(content), &chars_of("Error Codes")) {
        let ls = lines_of(&sc);
        let ghost lv = texts(ls@);
        let mut i: usize = 0;
        while i < ls.len()
            invariant
                i <= ls.len(),
                lv == texts(ls@),
                strings(codes@) == lv.take(i as int).filter_map(|l: Seq<char>| code_of_line(l)),
            decreases ls.len() - i,
        {
            proof {
                lv.lemma_filter_map_take_succ(|l: Seq<char>| code_of_line(l), i as int);
            }
            if let Some(c) = code_of(&ls[i]) {
                let cs = string_of(&c);
                proof {
                    lemma_strings_push(codes@, cs);
                }
                codes.push(cs);
            }
            i = i + 1;
        }
        assert(lv.take(ls.len() as int) =~= lv);
    }
    codes
}

/// The item of a list line.
fn item_of(line: &Vec<char>) -> (r: Option<Vec<char>>)
    ensures
        match r {
            Some(c) => item_of_line(line@) == Some(c@),
            None => item_of_line(line@) is None,
        },
{
    let t = trim_chars(line);
    let dash = chars_of("- ");
    let one = chars_of("1. ");
    if !starts_with_chars(&t, &dash) && !starts_with_chars(&t, &one) {
        return None;
    }
    let item = trim_chars(&trim_start_matches_chars(&trim_start_matches_chars(&t, &dash), &one));
    if item.len() == 0 || eq_chars(&item, &chars_of("None")) || eq_chars(&item, &chars_of("TBD")) {
        return None;
    }
    Some(item)
}

/// The items of a `- item` or `1. item` list in a section.
pub fn parse_list(content: &str, section: &str) -> (r: Vec<String>)
    ensures
        strings(r@) == section_items(content@, section@),
{
    let mut items: Vec<String> = Vec::new();
    if let Some(sc) = section_text_of(&chars_of(content), &chars_of(section)) {
        let ls = lines_of(&sc);
        let ghost lv = texts(ls@);
        let mut i: usize = 0;
        while i < ls.len()
            invariant
                i <= ls.len(),
                lv == texts(ls@),
                strings(items@) == lv.take(i as int).filter_map(|l: Seq<char>| item_of_line(l)),
            decreases ls.len() - i,
        {
            proof {
                lv.lemma_filter_map_take_succ(|l: Seq<char>| item_of_line(l), i as int);
            }
            if let Some(c) = item_of(&ls[i]) {
                let cs = string_of(&c);
                proof {
                    lemma_strings_push(items@, cs);
                }
                items.push(cs);
            }
            i = i + 1;
        }
        assert(lv.take(ls.len() as int) =~= lv);
    }
    items
}

/// The entries of the `Change History` list.
pub fn parse_change_history(content: &str) -> (r: Vec<String>)
    ensures
        strings(r@) == section_items(content@, "Change History"@),
{
    parse_list(content, "Change History")
}

/// The value of a field: under its `## Field` heading, or else in the
/// `**Field**: value` form.
pub fn extract_field(content: &str, field: &str) -> (r: Option<String>)
    ensures
        opt_text(r) == field_value(content@, field@),
{
    match field_value_of(&chars_of(content), &chars_of(field)) {
        Some(v) => Some(string_of(&v)),
        None => None,
    }
}

/// The trimmed body of the first section with the given name, if it holds
/// anything.
pub fn extract_section(content: &str, section: &str) -> (r: Option<String>)
    ensures
        opt_text(r) == section_text(content@, section@),
{
    match section_text_of(&chars_of(content), &chars_of(section)) {
        Some(v) => Some(string_of(&v)),
        None => None,
    }
}

/// The trimmed text inside the first fenced block of a section.
pub fn extract_code_block(content: &str, section: &str) -> (r: Option<String>)
    ensures
        opt_text(r) == code_block_text(content@, section@),
{
    match code_block_of(&chars_of(content), &chars_of(section)) {
        Some(v) => Some(string_of(&v)),
        None => None,
    }
}

/// A text without carriage returns is already normal.
pub proof fn lemma_normalize_plain(s: Seq<char>)
    requires
        lacks(s, '\r'),
    ensures
        normalize(s) == s,
{
    reveal_strlit("\r\n");
    lemma_find_from(s, "\r\n"@, 0);
    if contains(s, "\r\n"@) {
        let k = find(s, "\r\n"@)->0;
        assert(s.subrange(k, k + 2)[0] == s[k]);
    }
    lemma_replace_absent(s, "\r\n"@, "\n"@);
}

/// The value found under a heading: after blank lines, the first line
/// that is not a heading.
pub proof fn lemma_first_value_at(x: Seq<Seq<char>>, c: int)
    requires
        0 <= c < x.len(),
        forall|j: int| 0 <= j < c ==> trim(#[trigger] x[j]).len() == 0,
        trim(x[c]).len() > 0,
        !starts_with(trim(x[c]), "#"@),
    ensures
        first_value_line(x) == Some(trim(x[c])),
    decreases c,
{
    if c > 0 {
        assert(trim(x[0]).len() == 0);
        assert forall|j: int| 0 <= j < c - 1 implies trim(#[trigger] x.drop_first()[j]).len() == 0 by {
            assert(x.drop_first()[j] == x[j + 1]);
        }
        assert(x.drop_first()[c - 1] == x[c]);
        lemma_first_value_at(x.drop_first(), c - 1);
    }
}

/// A field whose heading first stands right after `pre`, with the value on
/// the next line, reads as that value trimmed.
pub proof fn lemma_field_after(text: Seq<char>, pre: Seq<char>, field: Seq<char>, v: Seq<char>, rest: Seq<char>)
    requires
        text == pre + heading(field) + "\n"@ + v + "\n"@ + rest,
        lacks(text, '\r'),
        lacks(v, '\n'),
        forall|j: int| 0 <= j < pre.len() ==> !matches_at(text, heading(field), j),
        trim(v).len() > 0,
        !starts_with(trim(v), "#"@),
    ensures
        field_value(text, field) == Some(trim(v)),
{
    reveal_strlit("\n");
    let hd = heading(field);
    lemma_normalize_plain(text);
    let pos = pre.len() as int;
    assert(text.subrange(pos, pos + hd.len()) =~= hd);
    lemma_find_from_at(text, hd, 0, pos);
    let after = text.skip(pos + hd.len());
    let s2 = v + "\n"@ + rest;
    assert(after =~= "\n"@ + s2);
    lemma_index_of_at(after, '\n', 0);
    assert(after.take(0) =~= Seq::<char>::empty());
    assert(after.skip(1) =~= s2);
    assert forall|i: int| 0 <= i < v.len() implies s2[i] != '\n' && v[i] != '\r' by {
        assert(s2[i] == v[i]);
        assert(v[i] == text[pos + hd.len() + 1 + i]);
    }
    lemma_index_of_at(s2, '\n', v.len() as int);
    assert(s2.take(v.len() as int) =~= v);
    assert(s2.skip(v.len() as int + 1) =~= rest);
    assert(strip_cr(v) == v) by {
        if v.len() > 0 {
            assert(v[v.len() - 1] != '\r');
        }
    }
    let x = seq![Seq::<char>::empty()] + (seq![v] + lines(rest));
    assert(s2.len() > 0);
    assert(lines(s2) == seq![strip_cr(s2.take(v.len() as int))] + lines(s2.skip(v.len() as int + 1)));
    assert(lines(s2) == seq![v] + lines(rest));
    assert(after.len() > 0);
    assert(strip_cr(after.take(0)) =~= Seq::<char>::empty());
    assert(lines(after) == seq![strip_cr(after.take(0))] + lines(after.skip(1)));
    assert(lines(after) == x);
    assert(trim(Seq::<char>::empty()) =~= Seq::<char>::empty());
    assert(x[1] == v);
    lemma_first_value_at(x, 1);
}

/// A body without '#' runs to the line feed before the heading that
/// follows it.
proof fn lemma_section_end_at(a: Seq<char>, body: Seq<char>, rest: Seq<char>, i: int)
    requires
        a == body + "\n"@ + rest,
        lacks(body, '#'),
        starts_heading(rest),
        0 <= i <= body.len(),
    ensures
        section_end_from(a, i) == body.len(),
    decreases body.len() - i,
{
    reveal_strlit("\n");
    reveal_strlit("##");
    reveal_strlit("# ");
    assert(a[body.len() as int] == '\n');
    assert(a.skip(body.len() as int + 1) =~= rest);
    if i < body.len() {
        assert(a[i] == body[i]);
        if a[i] == '\n' {
            let x = a.skip(i + 1);
            assert(x[0] == a[i + 1]);
            if i + 1 < body.len() {
                assert(a[i + 1] == body[i + 1]);
            }
            if starts_with(x, "##"@) {
                assert(x.take(2)[0] == x[0]);
            }
            if starts_with(x, "# "@) {
                assert(x.take(2)[0] == x[0]);
            }
        }
        lemma_section_end_at(a, body, rest, i + 1);
    }
}

/// A body without '#' at the end of the text runs to the end.
proof fn lemma_section_end_last(a: Seq<char>, i: int)
    requires
        lacks(a, '#'),
        0 <= i <= a.len(),
    ensures
        section_end_from(a, i) == a.len(),
    decreases a.len() - i,
{
    reveal_strlit("##");
    reveal_strlit("# ");
    if i < a.len() {
        if a[i] == '\n' {
            let x = a.skip(i + 1);
            if x.len() > 0 {
                assert(x[0] == a[i + 1]);
            }
            if starts_with(x, "##"@) {
                assert(x.take(2)[0] == x[0]);
            }
            if starts_with(x, "# "@) {
                assert(x.take(2)[0] == x[0]);
            }
        }
        lemma_section_end_last(a, i + 1);
    }
}

/// The section under a heading that first occurs after `pre` is its body,
/// trimmed, up to the next heading, where the body holds no '#'.
pub proof fn lemma_section_after(
    text: Seq<char>,
    pre: Seq<char>,
    name: Seq<char>,
    body: Seq<char>,
    rest: Seq<char>,
)
    requires
        text == pre + heading(name) + body + "\n"@ + rest,
        lacks(text, '\r'),
        lacks(body, '#'),
        starts_heading(rest),
        forall|j: int| 0 <= j < pre.len() ==> !matches_at(text, heading(name), j),
    ensures
        section_text(text, name) == if trim(body).len() == 0 {
            None
        } else {
            Some(trim(body))
        },
{
    let hd = heading(name);
    lemma_normalize_plain(text);
    let pos = pre.len() as int;
    assert(text.subrange(pos, pos + hd.len()) =~= hd);
    lemma_find_from_at(text, hd, 0, pos);
    let after = text.skip(pos + hd.len());
    assert(after =~= body + "\n"@ + rest);
    lemma_section_end_at(after, body, rest, 0);
    assert(after.take(body.len() as int) =~= body);
}

/// The section under a heading that first occurs after `pre` and closes
/// the text is the rest of the text, trimmed, where it holds no '#'.
pub proof fn lemma_section_last(text: Seq<char>, pre: Seq<char>, name: Seq<char>, body: Seq<char>)
    requires
        text == pre + heading(name) + body,
        lacks(text, '\r'),
        lacks(body, '#'),
        forall|j: int| 0 <= j < pre.len() ==> !matches_at(text, heading(name), j),
    ensures
        section_text(text, name) == if trim(body).len() == 0 {
            None
        } else {
            Some(trim(body))
        },
{
    let hd = heading(name);
    lemma_normalize_plain(text);
    let pos = pre.len() as int;
    assert(text.subrange(pos, pos + hd.len()) =~= hd);
    lemma_find_from_at(text, hd, 0, pos);
    let after = text.skip(pos + hd.len());
    assert(after =~= body);
    lemma_section_end_last(after, 0);
    assert(after.take(body.len() as int) =~= body);
}

} // verus!

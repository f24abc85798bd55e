//! What `update` does to a document: a `key:content` request, and the
//! rewriting of the field or section that the key names.
use crate::error::{ArmError, ArmErrorKind};
use crate::markdown::{
    escape_regex, field_value, first_value_line, heading, lemma_first_value_at,
    lemma_normalize_plain, normalize, normalize_newlines, regex_escape,
};
use crate::outside::{
    char_to_uppercase, char_uppercase, lowercase, regex_is_match, regex_match_result,
    regex_replace_all, regex_replace_result, to_lowercase,
};
use crate::text::{
    chars_of, concat, contains, eq_chars, find, index_of, index_of_char, lemma_index_of, join, join_chars, lacks,
    is_ws, lemma_find_from, lemma_find_from_at, lemma_index_of_at, lemma_join_append,
    lemma_join_lacks, lemma_join_not_contains, lemma_lines_join, lemma_lines_lack,
    lemma_replace_absent, lemma_texts_push, lemma_trim_all_ws, lemma_trim_end_at,
    lemma_trim_start_at, lines, lines_of, matches_at, slice, starts_with, starts_with_chars,
    string_of, strip_cr, texts, trim, trim_chars,
};
use vstd::prelude::*;

verus! {

// ---------------------------------------------------------------------------
// The request
// ---------------------------------------------------------------------------
/// The key and the content of a `key:content` request: split at the first
/// colon, if there is one.
pub open spec fn update_parts(u: Seq<char>) -> Option<(Seq<char>, Seq<char>)> {
    match index_of(u, ':') {
        Some(i) => Some((u.take(i), u.skip(i + 1))),
        None => None,
    }
}

/// Splits a `key:content` request at its first colon.
pub fn parse_update(update: &str) -> (r: Result<(String, String), ArmError>)
    ensures
        match r {
            Ok((k, c)) => update_parts(update@) == Some((k@, c@)),
            Err(e) => update_parts(update@) is None && e.kind == ArmErrorKind::InvalidUpdateFormat
                && e.message@ == "Invalid update format. Use 'key:content'"@,
        },
{
    let u = chars_of(update);
    match index_of_char(&u, ':') {
        Some(i) => {
            let key = slice(&u, 0, i);
            let content = slice(&u, i + 1, u.len());
            assert(key@ =~= u@.take(i as int));
            assert(content@ =~= u@.skip(i + 1));
            Ok((string_of(&key), string_of(&content)))
        },
        None => Err(ArmError::new(
            ArmErrorKind::InvalidUpdateFormat,
            "Invalid update format. Use 'key:content'",
        )),
    }
}

/// A key as a section name: its first character in upper case, the rest in
/// lower case.
pub open spec fn capitalized(key: Seq<char>) -> Seq<char> {
    if key.len() == 0 {
        seq![]
    } else {
        char_uppercase(key[0]) + lowercase(key.drop_first())
    }
}

/// A key as a section name (`description` becomes `Description`).
pub fn capitalize_key(key: &str) -> (r: String)
    ensures
        r@ == capitalized(key@),
{
    let k = chars_of(key);
    if k.len() == 0 {
        return String::new();
    }
    let first = char_to_uppercase(k[0]);
    let rest = slice(&k, 1, k.len());
    assert(rest@ =~= k@.drop_first());
    let lower = to_lowercase(string_of(&rest).as_str());
    string_of(&concat(&chars_of(first.as_str()), &chars_of(lower.as_str())))
}

// ---------------------------------------------------------------------------
// Rewriting a section
// ---------------------------------------------------------------------------
pub open spec fn is_blank(l: Seq<char>) -> bool {
    trim(l).len() == 0
}

/// How many blank lines the sequence begins with.
pub open spec fn blank_run(ls: Seq<Seq<char>>) -> nat
    decreases ls.len(),
{
    if ls.len() > 0 && is_blank(ls[0]) {
        1 + blank_run(ls.drop_first())
    } else {
        0
    }
}

/// A line that opens a section or a title.
pub open spec fn is_heading_line(l: Seq<char>) -> bool {
    starts_with(trim(l), "##"@) || starts_with(trim(l), "# "@)
}

pub proof fn lemma_blank_run_bound(ls: Seq<Seq<char>>)
    ensures
        blank_run(ls) <= ls.len(),
    decreases ls.len(),
{
    if ls.len() > 0 && is_blank(ls[0]) {
        lemma_blank_run_bound(ls.drop_first());
    }
}

pub proof fn lemma_blank_run_at(ls: Seq<Seq<char>>, k: int)
    requires
        0 <= k <= ls.len(),
        forall|j: int| 0 <= j < k ==> is_blank(ls[j]),
        k == ls.len() || !is_blank(ls[k]),
    ensures
        blank_run(ls) == k,
    decreases k,
{
    if k > 0 {
        assert forall|j: int| 0 <= j < k - 1 implies is_blank(ls.drop_first()[j]) by {
            assert(ls.drop_first()[j] == ls[j + 1]);
        }
        if k < ls.len() {
            assert(ls.drop_first()[k - 1] == ls[k]);
        }
        lemma_blank_run_at(ls.drop_first(), k - 1);
    }
}

/// The lines with `v` put in as the value under every line that reads
/// `header` once trimmed: it replaces the first non-blank line after the
/// heading, or stands before the next heading, or at the end. The flag
/// says whether any heading was found.
pub open spec fn rewrite(ls: Seq<Seq<char>>, header: Seq<char>, v: Seq<char>) -> (Seq<Seq<char>>, bool)
    decreases ls.len(),
{
    if ls.len() == 0 {
        (seq![], false)
    } else if trim(ls[0]) == header {
        let rest = ls.drop_first();
        let k = blank_run(rest);
        proof {
            lemma_blank_run_bound(rest);
        }
        let after = rest.skip(k as int);
        let head = seq![ls[0]] + rest.take(k as int) + seq![v];
        if after.len() > 0 && !is_heading_line(after[0]) {
            (head + rewrite(after.drop_first(), header, v).0, true)
        } else {
            (head + rewrite(after, header, v).0, true)
        }
    } else {
        let r = rewrite(ls.drop_first(), header, v);
        (seq![ls[0]] + r.0, r.1)
    }
}

/// The pattern of the `**Key**: value` form, matched on each line.
pub open spec fn field_line_pattern(key: Seq<char>) -> Seq<char> {
    "(?im)^(\\*\\*"@ + regex_escape(key) + "\\*\\*):\\s*(.+)$"@
}

/// `v` with each '$' doubled, so that a regex replacement string writes it
/// as it is (`$$` stands for one '$' there).
pub open spec fn escape_dollars(v: Seq<char>) -> Seq<char>
    decreases v.len(),
{
    if v.len() == 0 {
        seq![]
    } else {
        escape_dollars(v.drop_last()) + if v.last() == '$' {
            seq!['$', '$']
        } else {
            seq![v.last()]
        }
    }
}

/// The replacement that sets each `**Key**:` line to `v`: the label the
/// line matched, a colon, a space, and `v` with its '$' escaped.
pub open spec fn field_line_replacement(v: Seq<char>) -> Seq<char> {
    "$1: "@ + escape_dollars(v)
}

/// The document after `update` sets `key` to `v`, given what the regex
/// answered for the `**Key**:` lines: whether any matches (`matched`) and
/// the text with them replaced (`replaced`). Under a `## Key` heading where
/// there is one; else the replaced text where a line matched; else the
/// text with a new `**Key**: v` line at the end.
pub open spec fn section_given(
    content: Seq<char>,
    key: Seq<char>,
    v: Seq<char>,
    matched: Option<bool>,
    replaced: Option<Seq<char>>,
) -> Seq<char> {
    let n = normalize(content);
    let ck = capitalized(key);
    let rw = rewrite(lines(n), "## "@ + ck, v);
    if rw.1 {
        join(rw.0, "\n"@)
    } else {
        match (matched, replaced) {
            (Some(true), Some(r)) => r,
            _ => n + "\n\n**"@ + ck + "**: "@ + v + "\n"@,
        }
    }
}

/// The document after `update` sets `key` to `v`: under a `## Key` heading
/// where there is one; else in the `**Key**: value` lines where there are
/// any; else as a new `**Key**: value` line at the end.
pub open spec fn replaced_section(content: Seq<char>, key: Seq<char>, v: Seq<char>) -> Seq<char> {
    let n = normalize(content);
    let pat = field_line_pattern(capitalized(key));
    section_given(
        content,
        key,
        v,
        regex_match_result(pat, n),
        regex_replace_result(pat, n, field_line_replacement(v)),
    )
}

/// Whether a line opens a section or a title.
fn is_heading_line_of(l: &Vec<char>) -> (r: bool)
    ensures
        r == is_heading_line(l@),
{
    let t = trim_chars(l);
    starts_with_chars(&t, &chars_of("##")) || starts_with_chars(&t, &chars_of("# "))
}

/// The lines rewritten with `v` under each heading that reads `header`.
pub fn rewrite_lines(ls: &Vec<Vec<char>>, header: &Vec<char>, v: &Vec<char>) -> (r: (
    Vec<Vec<char>>,
    bool,
))
    ensures
        (texts(r.0@), r.1) == rewrite(texts(ls@), header@, v@),
{
    let ghost lv = texts(ls@);
    let mut result: Vec<Vec<char>> = Vec::new();
    let mut replaced = false;
    let mut i: usize = 0;
    assert(lv.skip(0) =~= lv);
    while i < ls.len()
        invariant
            i <= ls.len(),
            lv == texts(ls@),
            texts(result@) + rewrite(lv.skip(i as int), header@, v@).0 == rewrite(lv, header@, v@).0,
            (replaced || rewrite(lv.skip(i as int), header@, v@).1) == rewrite(lv, header@, v@).1,
        decreases ls.len() - i,
    {
        let ghost s = lv.skip(i as int);
        let ghost before = texts(result@);
        let line = ls[i].clone();
        assert(s[0] == line@);
        proof {
            lemma_texts_push(result@, line);
        }
        result.push(line);
        if eq_chars(&trim_chars(&ls[i]), header) {
            let ghost rest = s.drop_first();
            i = i + 1;
            assert(rest =~= lv.skip(i as int));
            let start = i;
            while i < ls.len() && trim_chars(&ls[i]).len() == 0
                invariant
                    start <= i <= ls.len(),
                    lv == texts(ls@),
                    forall|j: int| start <= j < i ==> is_blank(#[trigger] lv[j]),
                    texts(result@) == before + seq![s[0]] + lv.subrange(start as int, i as int),
                decreases ls.len() - i,
            {
                let ghost b = texts(result@);
                let blank = ls[i].clone();
                proof {
                    lemma_texts_push(result@, blank);
                }
                result.push(blank);
                assert(texts(result@) =~= before + seq![s[0]] + lv.subrange(start as int, i + 1));
                i = i + 1;
            }
            proof {
                assert forall|j: int| 0 <= j < i - start implies is_blank(rest[j]) by {
                    assert(rest[j] == lv[j + start]);
                }
                if i < ls.len() {
                    assert(rest[i - start] == lv[i as int]);
                }
                lemma_blank_run_at(rest, i - start);
                assert(rest.take(i - start) =~= lv.subrange(start as int, i as int));
                assert(rest.skip(i - start) =~= lv.skip(i as int));
            }
            let vv = v.clone();
            proof {
                lemma_texts_push(result@, vv);
            }
            result.push(vv);
            assert(texts(result@) =~= before + (seq![s[0]] + rest.take(i - start) + seq![v@]));
            if i < ls.len() && !is_heading_line_of(&ls[i]) {
                assert(lv.skip(i as int)[0] == lv[i as int]);
                assert(lv.skip(i as int).drop_first() =~= lv.skip(i + 1));
                i = i + 1;
            }
            replaced = true;
            assert(texts(result@) + rewrite(lv.skip(i as int), header@, v@).0 =~= before + rewrite(
                s,
                header@,
                v@,
            ).0);
        } else {
            assert(s.drop_first() =~= lv.skip(i + 1));
            i = i + 1;
            assert(texts(result@) + rewrite(lv.skip(i as int), header@, v@).0 =~= before + rewrite(
                s,
                header@,
                v@,
            ).0);
        }
    }
    (result, replaced)
}

/// `v` with each '$' doubled.
pub fn escape_dollars_chars(v: &Vec<char>) -> (r: Vec<char>)
    ensures
        r@ == escape_dollars(v@),
{
    let mut out: Vec<char> = Vec::new();
    let mut i: usize = 0;
    while i < v.len()
        invariant
            i <= v.len(),
            out@ == escape_dollars(v@.take(i as int)),
        decreases v.len() - i,
    {
        assert(v@.take(i + 1).drop_last() =~= v@.take(i as int));
        if v[i] == '$' {
            out.push('$');
            out.push('$');
        } else {
            out.push(v[i]);
        }
        i = i + 1;
        assert(out@ =~= escape_dollars(v@.take(i as int)));
    }
    assert(v@.take(v.len() as int) =~= v@);
    out
}

/// The regex that finds the `**Key**: value` lines of `key`.
fn field_line_regex(ck: &Vec<char>) -> (r: String)
    ensures
        r@ == field_line_pattern(ck@),
{
    let pattern = concat(
        &concat(&chars_of("(?im)^(\\*\\*"), &escape_regex(ck)),
        &chars_of("\\*\\*):\\s*(.+)$"),
    );
    string_of(&pattern)
}

/// The document after setting `key` to `new_value`, given what the regex
/// answered for the `**Key**:` lines (see `section_given`).
pub fn settle_section(
    content: &str,
    key: &str,
    new_value: &str,
    matched: Option<bool>,
    replaced: Option<String>,
) -> (r: String)
    ensures
        r@ == section_given(
            content@,
            key@,
            new_value@,
            matched,
            match replaced {
                Some(t) => Some(t@),
                None => None,
            },
        ),
{
    let n = normalize_newlines(&chars_of(content));
    let ck = chars_of(capitalize_key(key).as_str());
    let header = concat(&chars_of("## "), &ck);
    let v = chars_of(new_value);
    let (rewritten, replaced_here) = rewrite_lines(&lines_of(&n), &header, &v);
    if replaced_here {
        return string_of(&join_chars(&rewritten, &chars_of("\n")));
    }
    if matched == Some(true) {
        if let Some(t) = replaced {
            return t;
        }
    }
    let tail = concat(
        &concat(&concat(&chars_of("\n\n**"), &ck), &chars_of("**: ")),
        &concat(&v, &chars_of("\n")),
    );
    let out = concat(&n, &tail);
    assert(out@ =~= n@ + "\n\n**"@ + ck@ + "**: "@ + v@ + "\n"@);
    string_of(&out)
}

/// The document after setting `key` to `new_value` (see
/// `replaced_section`). In `**Key**:` lines the value goes in with each '$'
/// doubled, so that the regex writes it as given.
pub fn replace_markdown_section(content: &str, key: &str, new_value: &str) -> (r: String)
    ensures
        r@ == replaced_section(content@, key@, new_value@),
{
    let n = normalize_newlines(&chars_of(content));
    let ck = chars_of(capitalize_key(key).as_str());
    let pattern_s = field_line_regex(&ck);
    let text = string_of(&n);
    let rep = string_of(&concat(&chars_of("$1: "), &escape_dollars_chars(&chars_of(new_value))));
    let matched = regex_is_match(pattern_s.as_str(), text.as_str());
    let replaced = if matched == Some(true) {
        regex_replace_all(pattern_s.as_str(), text.as_str(), rep.as_str())
    } else {
        None
    };
    settle_section(content, key, new_value, matched, replaced)
}

// ---------------------------------------------------------------------------
// Reading back what `update` wrote
// ---------------------------------------------------------------------------
/// The lines that `blank_run` counts are blank.
pub proof fn lemma_blank_run_blank(ls: Seq<Seq<char>>)
    ensures
        forall|j: int| 0 <= j < blank_run(ls) ==> is_blank(#[trigger] ls[j]),
    decreases ls.len(),
{
    lemma_blank_run_bound(ls);
    if ls.len() > 0 && is_blank(ls[0]) {
        lemma_blank_run_blank(ls.drop_first());
        assert forall|j: int| 0 <= j < blank_run(ls) implies is_blank(#[trigger] ls[j]) by {
            if j > 0 {
                assert(ls[j] == ls.drop_first()[j - 1]);
            }
        }
    }
}

/// Lines before the first one that reads `header` once trimmed are kept;
/// that line and the blank lines after it are kept, and `v` follows them.
pub proof fn lemma_rewrite_first(ls: Seq<Seq<char>>, header: Seq<char>, v: Seq<char>, h: int)
    requires
        0 <= h < ls.len(),
        trim(ls[h]) == header,
        forall|j: int| 0 <= j < h ==> trim(#[trigger] ls[j]) != header,
    ensures
        rewrite(ls, header, v).1,
        rewrite(ls, header, v).0.len() >= h + 2 + blank_run(ls.skip(h + 1)),
        rewrite(ls, header, v).0.take(h + 2 + blank_run(ls.skip(h + 1))) == ls.take(h + 1)
            + ls.skip(h + 1).take(blank_run(ls.skip(h + 1)) as int) + seq![v],
    decreases h,
{
    if h == 0 {
        let rest = ls.drop_first();
        assert(rest =~= ls.skip(1));
        lemma_blank_run_bound(rest);
        let k = blank_run(rest);
        let head = seq![ls[0]] + rest.take(k as int) + seq![v];
        let r = rewrite(ls, header, v).0;
        assert(r.take(head.len() as int) =~= head);
        assert(ls.take(1) =~= seq![ls[0]]);
    } else {
        let t = ls.drop_first();
        assert forall|j: int| 0 <= j < h - 1 implies trim(#[trigger] t[j]) != header by {
            assert(t[j] == ls[j + 1]);
        }
        assert(t[h - 1] == ls[h]);
        assert(trim(ls[0]) != header);
        lemma_rewrite_first(t, header, v, h - 1);
        assert(t.skip(h) =~= ls.skip(h + 1));
        let k = blank_run(ls.skip(h + 1));
        let r = rewrite(t, header, v).0;
        assert(rewrite(ls, header, v).0 == seq![ls[0]] + r);
        assert((seq![ls[0]] + r).take(h + 2 + k) =~= seq![ls[0]] + r.take(h + 1 + k));
        assert(seq![ls[0]] + t.take(h) =~= ls.take(h + 1));
    }
}

/// Rewriting lines that lack `c` with a value that lacks it gives lines
/// that lack it.
pub proof fn lemma_rewrite_lacks(ls: Seq<Seq<char>>, header: Seq<char>, v: Seq<char>, c: char)
    requires
        lacks(v, c),
        forall|i: int| 0 <= i < ls.len() ==> #[trigger] lacks(ls[i], c),
    ensures
        forall|i: int| 0 <= i < rewrite(ls, header, v).0.len() ==> #[trigger] lacks(
            rewrite(ls, header, v).0[i],
            c,
        ),
    decreases ls.len(),
{
    if ls.len() > 0 {
        let rest = ls.drop_first();
        assert forall|i: int| 0 <= i < rest.len() implies #[trigger] lacks(rest[i], c) by {
            assert(rest[i] == ls[i + 1]);
        }
        assert(lacks(ls[0], c));
        if trim(ls[0]) == header {
            lemma_blank_run_bound(rest);
            let k = blank_run(rest);
            let after = rest.skip(k as int);
            let head = seq![ls[0]] + rest.take(k as int) + seq![v];
            assert forall|i: int| 0 <= i < head.len() implies #[trigger] lacks(head[i], c) by {
                if 0 < i <= k {
                    assert(head[i] == rest[i - 1]);
                }
            }
            if after.len() > 0 && !is_heading_line(after[0]) {
                let tail = after.drop_first();
                assert forall|i: int| 0 <= i < tail.len() implies #[trigger] lacks(tail[i], c) by {
                    assert(tail[i] == rest[i + k + 1]);
                }
                lemma_rewrite_lacks(tail, header, v, c);
                let r = rewrite(tail, header, v).0;
                assert forall|i: int| 0 <= i < (head + r).len() implies #[trigger] lacks((head + r)[i], c) by {
                    if i >= head.len() {
                        assert((head + r)[i] == r[i - head.len()]);
                    } else {
                        assert((head + r)[i] == head[i]);
                    }
                }
            } else {
                assert forall|i: int| 0 <= i < after.len() implies #[trigger] lacks(after[i], c) by {
                    assert(after[i] == rest[i + k]);
                }
                lemma_rewrite_lacks(after, header, v, c);
                let r = rewrite(after, header, v).0;
                assert forall|i: int| 0 <= i < (head + r).len() implies #[trigger] lacks((head + r)[i], c) by {
                    if i >= head.len() {
                        assert((head + r)[i] == r[i - head.len()]);
                    } else {
                        assert((head + r)[i] == head[i]);
                    }
                }
            }
        } else {
            lemma_rewrite_lacks(rest, header, v, c);
            let r = rewrite(rest, header, v).0;
            assert forall|i: int| 0 <= i < (seq![ls[0]] + r).len() implies #[trigger] lacks(
                (seq![ls[0]] + r)[i],
                c,
            ) by {
                if i > 0 {
                    assert((seq![ls[0]] + r)[i] == r[i - 1]);
                }
            }
        }
    }
}



/// A line that reads `hd` once trimmed holds it at `a`, with only
/// whitespace before and after.
pub proof fn lemma_line_holds(l: Seq<char>, hd: Seq<char>) -> (a: int)
    requires
        trim(l) == hd,
    ensures
        0 <= a,
        a + hd.len() <= l.len(),
        l.subrange(a, a + hd.len()) == hd,
        matches_at(l, hd, a),
        forall|j: int| 0 <= j < a ==> is_ws(#[trigger] l[j]),
        forall|j: int| a + hd.len() <= j < l.len() ==> is_ws(#[trigger] l[j]),
{
    let a = lemma_trim_start_at(l);
    let e = lemma_trim_end_at(l.skip(a));
    assert(l.skip(a).take(e) =~= l.subrange(a, a + e));
    assert forall|j: int| a + hd.len() <= j < l.len() implies is_ws(#[trigger] l[j]) by {
        assert(l[j] == l.skip(a)[j - a]);
    }
    a
}

/// The text of the lines before line `h`, each followed by a line feed.
pub open spec fn text_before(rw: Seq<Seq<char>>, h: int) -> Seq<char> {
    if h == 0 {
        Seq::<char>::empty()
    } else {
        join(rw.take(h), "\n"@) + "\n"@
    }
}

/// Lines joined with line feeds: the lines before `h`, line `h`, a line
/// feed, and the lines after it.
pub proof fn lemma_joined_at(rw: Seq<Seq<char>>, h: int)
    requires
        0 <= h < rw.len() - 1,
    ensures
        join(rw, "\n"@) == text_before(rw, h) + rw[h] + "\n"@ + join(rw.skip(h + 1), "\n"@),
{
    let l0 = rw[h];
    let m = rw.skip(h + 1);
    assert(seq![l0] + m =~= rw.skip(h));
    lemma_join_append(seq![l0], m, "\n"@);
    if h == 0 {
        assert(rw.skip(0) =~= rw);
    } else {
        assert(rw.take(h) + rw.skip(h) =~= rw);
        lemma_join_append(rw.take(h), rw.skip(h), "\n"@);
    }
    assert(join(rw, "\n"@) =~= text_before(rw, h) + l0 + "\n"@ + join(m, "\n"@));
}

/// No heading starts in the text of earlier lines that hold none.
pub proof fn lemma_no_match_before(rw: Seq<Seq<char>>, h: int, hd: Seq<char>, r: Seq<char>)
    requires
        0 < h < rw.len(),
        hd.len() > 0,
        lacks(hd, '\n'),
        forall|i: int| 0 <= i < h ==> !contains(#[trigger] rw[i], hd),
        text_before(rw, h).len() <= r.len(),
        r.take(text_before(rw, h).len() as int) == text_before(rw, h),
    ensures
        forall|j: int| 0 <= j < text_before(rw, h).len() ==> !matches_at(r, hd, j),
{
    reveal_strlit("\n");
    let j1 = join(rw.take(h), "\n"@);
    let pfx = text_before(rw, h);
    assert forall|i: int| 0 <= i < h implies !contains(#[trigger] rw.take(h)[i], hd) by {
        assert(rw.take(h)[i] == rw[i]);
    }
    lemma_join_not_contains(rw.take(h), hd);
    lemma_find_from(j1, hd, 0);
    assert forall|j: int| 0 <= j < pfx.len() implies !matches_at(r, hd, j) by {
        if matches_at(r, hd, j) {
            if j + hd.len() <= j1.len() {
                assert(r.subrange(j, j + hd.len()) =~= j1.subrange(j, j + hd.len())) by {
                    assert forall|i: int| 0 <= i < hd.len() implies #[trigger] r.subrange(j, j + hd.len())[i]
                        == j1.subrange(j, j + hd.len())[i] by {
                        assert(r[j + i] == r.take(pfx.len() as int)[j + i]);
                    }
                }
                assert(matches_at(j1, hd, j));
            } else {
                assert(r[j1.len() as int] == r.take(pfx.len() as int)[j1.len() as int]);
                assert(r[j1.len() as int] == '\n');
                assert(hd[j1.len() - j] == r.subrange(j, j + hd.len())[j1.len() - j]);
            }
        }
    }
}

/// In lines joined with line feeds, a heading first held by line `h` (and
/// by no line before it) is found where that line holds it; what follows
/// it is the rest of that line, a line feed and the later lines.
pub proof fn lemma_find_in_joined(rw: Seq<Seq<char>>, h: int, hd: Seq<char>, a: int) -> (pos: int)
    requires
        0 <= h < rw.len() - 1,
        hd.len() > 0,
        lacks(hd, '\n'),
        !is_ws(hd[0]),
        0 <= a,
        matches_at(rw[h], hd, a),
        forall|j: int| 0 <= j < a ==> is_ws(#[trigger] rw[h][j]),
        forall|i: int| 0 <= i < h ==> !contains(#[trigger] rw[i], hd),
    ensures
        find(join(rw, "\n"@), hd) == Some(pos),
        join(rw, "\n"@).skip(pos + hd.len()) == rw[h].skip(a + hd.len()) + "\n"@ + join(
            rw.skip(h + 1),
            "\n"@,
        ),
{
    let l0 = rw[h];
    let j2 = join(rw.skip(h + 1), "\n"@);
    let r = join(rw, "\n"@);
    let pfx = text_before(rw, h);
    lemma_joined_at(rw, h);
    let pos = pfx.len() + a;
    assert(r.subrange(pos, pos + hd.len()) =~= l0.subrange(a, a + hd.len()));
    if h > 0 {
        assert(r.take(pfx.len() as int) =~= pfx);
        lemma_no_match_before(rw, h, hd, r);
    }
    assert forall|j: int| pfx.len() <= j < pos implies !matches_at(r, hd, j) by {
        assert(r[j] == l0[j - pfx.len()]);
        assert(is_ws(l0[j - pfx.len()]));
        if matches_at(r, hd, j) {
            assert(r.subrange(j, j + hd.len())[0] == r[j]);
        }
    }
    lemma_find_from_at(r, hd, 0, pos);
    assert(r.skip(pos + hd.len()) =~= l0.skip(a + hd.len()) + "\n"@ + j2);
    pos
}

/// After a heading: the rest of its line (whitespace), blank lines, then
/// the value line, which is what is read as the value.
pub proof fn lemma_value_after(b: Seq<char>, m: Seq<Seq<char>>, k: int, v: Seq<char>)
    requires
        forall|i: int| 0 <= i < b.len() ==> is_ws(#[trigger] b[i]),
        lacks(b, '\n'),
        lacks(b, '\r'),
        forall|i: int| 0 <= i < m.len() ==> lacks(#[trigger] m[i], '\n') && lacks(m[i], '\r'),
        0 <= k < m.len(),
        forall|j: int| 0 <= j < k ==> is_blank(#[trigger] m[j]),
        m[k] == v,
        trim(v).len() > 0,
        !starts_with(trim(v), "#"@),
    ensures
        first_value_line(lines(b + "\n"@ + join(m, "\n"@))) == Some(trim(v)),
{
    reveal_strlit("\n");
    let j2 = join(m, "\n"@);
    let s2 = b + "\n"@ + j2;
    lemma_trim_all_ws(b);
    assert forall|i: int| 0 <= i < b.len() implies s2[i] != '\n' by {
        assert(s2[i] == b[i]);
    }
    lemma_index_of_at(s2, '\n', b.len() as int);
    assert(s2.take(b.len() as int) =~= b);
    assert(s2.skip(b.len() as int + 1) =~= j2);
    assert(strip_cr(b) == b) by {
        if b.len() > 0 {
            assert(b[b.len() - 1] != '\r');
        }
    }
    assert(lines(s2) == seq![b] + lines(j2));
    lemma_lines_join(m);
    assert(v.len() > 0) by {
        if v.len() == 0 {
            assert(trim(v) =~= v);
        }
    }
    let x = seq![b] + lines(j2);
    assert(x[1 + k] == v);
    assert forall|j: int| 0 <= j < 1 + k implies trim(#[trigger] x[j]).len() == 0 by {
        if j > 0 {
            assert(x[j] == m[j - 1]);
            assert(is_blank(m[j - 1]));
        }
    }
    lemma_first_value_at(x, 1 + k);
}

/// `law_update_then_read` for a text without carriage returns.
proof fn lemma_update_then_read_plain(content: Seq<char>, key: Seq<char>, v: Seq<char>, h: int)
    requires
        lacks(content, '\r'),
        lacks(v, '\r'),
        lacks(v, '\n'),
        0 <= h < lines(content).len(),
        trim(lines(content)[h]) == "## "@ + capitalized(key),
        forall|j: int| 0 <= j < h ==> !contains(#[trigger] lines(content)[j], "## "@ + capitalized(key)),
        trim(v).len() > 0,
        !starts_with(trim(v), "#"@),
    ensures
        field_value(replaced_section(content, key, v), capitalized(key)) == Some(trim(v)),
{
    reveal_strlit("## ");
    let ck = capitalized(key);
    let hd = "## "@ + ck;
    assert(heading(ck) == hd);
    lemma_normalize_plain(content);
    let ls = lines(content);
    lemma_lines_lack(content, '\r');
    let l0 = ls[h];
    assert(lacks(l0, '\n') && lacks(l0, '\r'));
    let a = lemma_line_holds(l0, hd);
    assert(lacks(hd, '\n')) by {
        assert forall|i: int| 0 <= i < hd.len() implies hd[i] != '\n' by {
            assert(hd[i] == l0.subrange(a, a + hd.len())[i]);
        }
    }
    assert(hd[0] == '#');
    assert forall|j: int| 0 <= j < h implies trim(#[trigger] ls[j]) != hd by {
        if trim(ls[j]) == hd {
            let aj = lemma_line_holds(ls[j], hd);
            lemma_find_from(ls[j], hd, 0);
        }
    }
    lemma_rewrite_first(ls, hd, v, h);
    let rw = rewrite(ls, hd, v).0;
    let k = blank_run(ls.skip(h + 1));
    let pre = rw.take(h + 2 + k);
    assert(replaced_section(content, key, v) == join(rw, "\n"@));
    lemma_rewrite_lacks(ls, hd, v, '\r');
    lemma_rewrite_lacks(ls, hd, v, '\n');
    lemma_join_lacks(rw, '\r');
    lemma_normalize_plain(join(rw, "\n"@));
    assert(rw[h] == pre[h]);
    assert forall|i: int| 0 <= i < h implies !contains(#[trigger] rw[i], hd) by {
        assert(rw[i] == pre[i]);
        assert(pre[i] == ls[i]);
    }
    let pos = lemma_find_in_joined(rw, h, hd, a);
    let m = rw.skip(h + 1);
    let b = l0.skip(a + hd.len());
    assert forall|i: int| 0 <= i < b.len() implies is_ws(#[trigger] b[i]) by {
        assert(b[i] == l0[a + hd.len() + i]);
    }
    assert(lacks(b, '\n') && lacks(b, '\r')) by {
        assert forall|i: int| 0 <= i < b.len() implies b[i] != '\n' && b[i] != '\r' by {
            assert(b[i] == l0[a + hd.len() + i]);
        }
    }
    assert forall|i: int| 0 <= i < m.len() implies lacks(#[trigger] m[i], '\n') && lacks(m[i], '\r') by {
        assert(m[i] == rw[h + 1 + i]);
    }
    lemma_blank_run_blank(ls.skip(h + 1));
    lemma_blank_run_bound(ls.skip(h + 1));
    assert(pre == ls.take(h + 1) + ls.skip(h + 1).take(k as int) + seq![v]);
    assert forall|j: int| 0 <= j < k implies is_blank(#[trigger] m[j]) by {
        assert(m[j] == pre[h + 1 + j]);
        assert(pre[h + 1 + j] == ls.skip(h + 1).take(k as int)[j]);
        assert(pre[h + 1 + j] == ls.skip(h + 1)[j]);
    }
    assert(m[k as int] == v) by {
        assert(m[k as int] == pre[h + 1 + k]);
        assert(pre[h + 1 + k] == v);
    }
    lemma_value_after(b, m, k as int, v);
}

/// A field set under its heading reads back as the value set: where the
/// first line of the document that holds `## Key` reads just that once
/// trimmed, reading the field `Key` after `update` gives the new value,
/// trimmed, for a one-line value that is not blank and no heading. The
/// document's lines may end in "\r\n" as well as "\n" (the text read with
/// each "\r\n" as "\n" holds no other carriage return).
pub proof fn law_update_then_read(content: Seq<char>, key: Seq<char>, v: Seq<char>, h: int)
    requires
        lacks(normalize(content), '\r'),
        lacks(v, '\r'),
        lacks(v, '\n'),
        0 <= h < lines(normalize(content)).len(),
        trim(lines(normalize(content))[h]) == "## "@ + capitalized(key),
        forall|j: int|
            0 <= j < h ==> !contains(#[trigger] lines(normalize(content))[j], "## "@ + capitalized(key)),
        trim(v).len() > 0,
        !starts_with(trim(v), "#"@),
    ensures
        field_value(replaced_section(content, key, v), capitalized(key)) == Some(trim(v)),
{
    let n = normalize(content);
    lemma_normalize_plain(n);
    assert(replaced_section(content, key, v) == replaced_section(n, key, v));
    lemma_update_then_read_plain(n, key, v, h);
}

/// A request splits into a key without a colon and the content, and the
/// two joined again with a colon give the request back.
pub proof fn law_update_parts_rebuild(u: Seq<char>)
    ensures
        match update_parts(u) {
            Some((k, c)) => k + ":"@ + c == u && !k.contains(':'),
            None => !u.contains(':'),
        },
{
    reveal_strlit(":");
    lemma_index_of(u, ':');
    match index_of(u, ':') {
        Some(i) => {
            assert(u.take(i) + ":"@ + u.skip(i + 1) =~= u);
            if u.take(i).contains(':') {
                let j = choose|j: int| 0 <= j < i && u.take(i)[j] == ':';
                assert(u[j] == ':');
            }
        },
        None => {
            if u.contains(':') {
                let j = choose|j: int| 0 <= j < u.len() && u[j] == ':';
                assert(u[j] == ':');
            }
        },
    }
}

} // verus!

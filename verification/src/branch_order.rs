//! What a branch's name says of its place in the tree, and the order in
//! which branches are added to it: fewer dashes first, then by name.
use crate::outside::{regex_is_match, regex_match_result};
use crate::text::{
    chars_of, concat, join, lemma_join_append, lemma_join_split, opt_text, split, split_chars,
    starts_with, starts_with_chars, str_eq, string_of,
};
use crate::tree::NodeType;
use vstd::prelude::*;

verus! {

// ---------------------------------------------------------------------------
// Classification
// ---------------------------------------------------------------------------
/// The pattern of a version branch's name (`v1`, `v2`, ...).
pub open spec fn version_name_pattern() -> Seq<char> {
    "^v\\d+$"@
}

/// The pattern of the name of a branch under a version (`v1-...`).
pub open spec fn under_version_pattern() -> Seq<char> {
    "^v\\d+-"@
}

/// The kind of a branch and the name of its parent branch, given whether
/// its name is a version's and whether it lies under a version.
pub open spec fn branch_class(name: Seq<char>, is_version: bool, under_version: bool) -> (
    NodeType,
    Option<Seq<char>>,
) {
    if name == "master"@ || name == "main"@ {
        (NodeType::Root, None)
    } else if name == "api"@ {
        (NodeType::ApiRoot, Some("master"@))
    } else if name == "error"@ {
        (NodeType::ErrorRoot, Some("master"@))
    } else if starts_with(name, "error-"@) {
        (NodeType::ErrorCode, Some("error"@))
    } else if is_version {
        (NodeType::Version, Some("api"@))
    } else if under_version {
        let parts = split(name, '-');
        if parts.len() == 2 {
            (NodeType::Category, Some(parts[0]))
        } else if parts.len() >= 3 {
            (NodeType::Endpoint, Some(parts[0] + "-"@ + parts[1]))
        } else {
            (NodeType::Category, None)
        }
    } else {
        (NodeType::Endpoint, None)
    }
}

/// The kind and parent branch of the branch `name`, the two patterns
/// answered by the regex engine.
pub open spec fn branch_kind(name: Seq<char>) -> (NodeType, Option<Seq<char>>) {
    branch_class(
        name,
        regex_match_result(version_name_pattern(), name) == Some(true),
        regex_match_result(under_version_pattern(), name) == Some(true),
    )
}

/// The kind and parent branch of `name`, given the answers to the two
/// patterns.
pub fn classify_name(name: &str, is_version: bool, under_version: bool) -> (r: (
    NodeType,
    Option<String>,
))
    ensures
        (r.0, opt_text(r.1)) == branch_class(name@, is_version, under_version),
        parent_ranks_lower((name@, r.0, opt_text(r.1))),
{
    proof {
        lemma_class_ranks(name@, is_version, under_version);
    }
    if str_eq(name, "master") || str_eq(name, "main") {
        return (NodeType::Root, None);
    }
    if str_eq(name, "api") {
        return (NodeType::ApiRoot, Some("master".to_string()));
    }
    if str_eq(name, "error") {
        return (NodeType::ErrorRoot, Some("master".to_string()));
    }
    let cs = chars_of(name);
    if starts_with_chars(&cs, &chars_of("error-")) {
        return (NodeType::ErrorCode, Some("error".to_string()));
    }
    if is_version {
        return (NodeType::Version, Some("api".to_string()));
    }
    if under_version {
        let parts = split_chars(&cs, '-');
        assert(parts@.len() == split(name@, '-').len());
        if parts.len() == 2 {
            assert(parts@[0]@ == split(name@, '-')[0]);
            (NodeType::Category, Some(string_of(&parts[0])))
        } else if parts.len() >= 3 {
            assert(parts@[0]@ == split(name@, '-')[0]);
            assert(parts@[1]@ == split(name@, '-')[1]);
            let joined = concat(&concat(&parts[0], &chars_of("-")), &parts[1]);
            (NodeType::Endpoint, Some(string_of(&joined)))
        } else {
            (NodeType::Category, None)
        }
    } else {
        (NodeType::Endpoint, None)
    }
}

/// The kind and parent branch of a branch. Every name is placed: a name
/// that fits no rule is an endpoint without a parent.
pub fn classify_branch(branch_name: &str) -> (r: Option<(NodeType, Option<String>)>)
    ensures
        r is Some,
        ((r->0).0, opt_text((r->0).1)) == branch_kind(branch_name@),
        parent_ranks_lower((branch_name@, (r->0).0, opt_text((r->0).1))),
{
    let is_version = regex_is_match("^v\\d+$", branch_name) == Some(true);
    let under_version = regex_is_match("^v\\d+-", branch_name) == Some(true);
    Some(classify_name(branch_name, is_version, under_version))
}

// ---------------------------------------------------------------------------
// Classified branches and their order
// ---------------------------------------------------------------------------
/// A classified branch: its name, its kind and its parent branch.
pub struct BranchInfo {
    pub name: String,
    pub node_type: NodeType,
    pub parent: Option<String>,
}

impl View for BranchInfo {
    type V = (Seq<char>, NodeType, Option<Seq<char>>);

    open spec fn view(&self) -> (Seq<char>, NodeType, Option<Seq<char>>) {
        (self.name@, self.node_type, opt_text(self.parent))
    }
}

/// The views of classified branches.
pub open spec fn info_views(v: Seq<BranchInfo>) -> Seq<(Seq<char>, NodeType, Option<Seq<char>>)> {
    v.map_values(|b: BranchInfo| b@)
}

/// The number of dashes in a name.
pub open spec fn dash_count(s: Seq<char>) -> nat
    decreases s.len(),
{
    if s.len() == 0 {
        0
    } else {
        dash_count(s.drop_last()) + if s.last() == '-' {
            1nat
        } else {
            0nat
        }
    }
}

/// Whether `a` comes strictly before `b` in the order of `String`: letter
/// by letter by code point, a proper prefix first.
pub open spec fn text_before(a: Seq<char>, b: Seq<char>) -> bool
    decreases a.len(),
{
    if b.len() == 0 {
        false
    } else if a.len() == 0 {
        true
    } else if a[0] != b[0] {
        (a[0] as int) < (b[0] as int)
    } else {
        text_before(a.drop_first(), b.drop_first())
    }
}

/// Whether branch `a` may come before branch `b`: fewer dashes first, then
/// by name.
pub open spec fn info_le(
    a: (Seq<char>, NodeType, Option<Seq<char>>),
    b: (Seq<char>, NodeType, Option<Seq<char>>),
) -> bool {
    dash_count(a.0) < dash_count(b.0) || (dash_count(a.0) == dash_count(b.0) && !text_before(
        b.0,
        a.0,
    ))
}

/// `s` with `x` put after the last branch that may come before it.
pub open spec fn insert_in_order(
    s: Seq<(Seq<char>, NodeType, Option<Seq<char>>)>,
    x: (Seq<char>, NodeType, Option<Seq<char>>),
) -> Seq<(Seq<char>, NodeType, Option<Seq<char>>)>
    decreases s.len(),
{
    if s.len() == 0 {
        seq![x]
    } else if info_le(s.last(), x) {
        s.push(x)
    } else {
        insert_in_order(s.drop_last(), x).push(s.last())
    }
}

/// The branches in order, those that tie keeping the order they came in.
pub open spec fn sort_infos(s: Seq<(Seq<char>, NodeType, Option<Seq<char>>)>) -> Seq<
    (Seq<char>, NodeType, Option<Seq<char>>),
>
    decreases s.len(),
{
    if s.len() == 0 {
        s
    } else {
        insert_in_order(sort_infos(s.drop_last()), s.last())
    }
}

/// Whether every branch may come before each one after it.
pub open spec fn infos_sorted(s: Seq<(Seq<char>, NodeType, Option<Seq<char>>)>) -> bool {
    forall|i: int, j: int| 0 <= i < j < s.len() ==> #[trigger] info_le(s[i], s[j])
}

/// The number of dashes in a name.
fn dash_count_of(s: &Vec<char>) -> (r: usize)
    ensures
        r == dash_count(s@),
{
    let mut n: usize = 0;
    let mut i: usize = 0;
    while i < s.len()
        invariant
            i <= s.len(),
            n == dash_count(s@.take(i as int)),
            n <= i,
        decreases s.len() - i,
    {
        assert(s@.take(i + 1).drop_last() =~= s@.take(i as int));
        if s[i] == '-' {
            n = n + 1;
        }
        i = i + 1;
    }
    assert(s@.take(s.len() as int) =~= s@);
    n
}

/// Whether `a` comes strictly before `b`, as `text_before` says.
fn text_before_of(a: &Vec<char>, b: &Vec<char>) -> (r: bool)
    ensures
        r == text_before(a@, b@),
{
    let mut i: usize = 0;
    assert(a@.skip(0) =~= a@);
    assert(b@.skip(0) =~= b@);
    while i < a.len() && i < b.len() && a[i] == b[i]
        invariant
            i <= a.len(),
            i <= b.len(),
            text_before(a@.skip(i as int), b@.skip(i as int)) == text_before(a@, b@),
        decreases a.len() - i,
    {
        let ghost sa = a@.skip(i as int);
        let ghost sb = b@.skip(i as int);
        assert(sa.drop_first() =~= a@.skip(i + 1));
        assert(sb.drop_first() =~= b@.skip(i + 1));
        i = i + 1;
    }
    let ghost sa = a@.skip(i as int);
    let ghost sb = b@.skip(i as int);
    if i == b.len() {
        assert(sb.len() == 0);
        false
    } else if i == a.len() {
        assert(sa.len() == 0);
        true
    } else {
        assert(sa[0] == a@[i as int]);
        assert(sb[0] == b@[i as int]);
        a[i] < b[i]
    }
}

/// Whether branch `a` may come before branch `b`.
fn info_le_of(a: &BranchInfo, b: &BranchInfo) -> (r: bool)
    ensures
        r == info_le(a@, b@),
{
    let an = chars_of(a.name.as_str());
    let bn = chars_of(b.name.as_str());
    let da = dash_count_of(&an);
    let db = dash_count_of(&bn);
    da < db || (da == db && !text_before_of(&bn, &an))
}

/// Puts `x` after the last branch of `v` that may come before it.
fn insert_info(v: &mut Vec<BranchInfo>, x: BranchInfo)
    ensures
        info_views(final(v)@) == insert_in_order(info_views(old(v)@), x@),
{
    let ghost s = info_views(v@);
    let mut j: usize = v.len();
    assert(s.take(j as int) =~= s);
    assert(s.skip(j as int) =~= Seq::<(Seq<char>, NodeType, Option<Seq<char>>)>::empty());
    while j > 0 && !info_le_of(&v[j - 1], &x)
        invariant
            j <= v.len(),
            s == info_views(v@),
            insert_in_order(s, x@) == insert_in_order(s.take(j as int), x@) + s.skip(j as int),
        decreases j,
    {
        let ghost t = s.take(j as int);
        assert(t.drop_last() =~= s.take(j - 1));
        assert(t.last() == s[j - 1]);
        assert(s.skip(j - 1) =~= seq![s[j - 1]] + s.skip(j as int));
        assert(insert_in_order(t, x@) == insert_in_order(s.take(j - 1), x@).push(s[j - 1]));
        assert(insert_in_order(s.take(j - 1), x@) + s.skip(j - 1) =~= insert_in_order(t, x@)
            + s.skip(j as int));
        j = j - 1;
    }
    let ghost xv = x@;
    proof {
        if j > 0 {
            assert(s.take(j as int).last() == s[j - 1]);
        }
        assert(insert_in_order(s.take(j as int), xv) =~= s.take(j as int).push(xv));
    }
    v.insert(j, x);
    assert(info_views(v@) =~= s.take(j as int).push(xv) + s.skip(j as int));
}

/// The branches in order: fewer dashes first, then by name, those that tie
/// keeping the order they came in.
pub fn sort_branch_infos(infos: Vec<BranchInfo>) -> (r: Vec<BranchInfo>)
    ensures
        info_views(r@) == sort_infos(info_views(infos@)),
        infos_sorted(info_views(r@)),
        info_views(r@).to_multiset() == info_views(infos@).to_multiset(),
{
    let ghost s = info_views(infos@);
    let mut out: Vec<BranchInfo> = Vec::new();
    let mut rest = infos;
    let n = rest.len();
    let mut i: usize = 0;
    assert(s.take(0) =~= Seq::<(Seq<char>, NodeType, Option<Seq<char>>)>::empty());
    assert(info_views(out@) =~= Seq::<(Seq<char>, NodeType, Option<Seq<char>>)>::empty());
    assert(info_views(rest@) =~= s.skip(0));
    while i < n
        invariant
            i <= n,
            n == s.len(),
            info_views(rest@) == s.skip(i as int),
            info_views(out@) == sort_infos(s.take(i as int)),
        decreases n - i,
    {
        assert(info_views(rest@).len() == n - i);
        let ghost before = rest@;
        let x = rest.remove(0);
        assert(x == before[0]);
        assert(info_views(before)[0] == s.skip(i as int)[0]);
        assert(x@ == s[i as int]);
        assert(rest@ =~= before.subrange(1, before.len() as int));
        assert forall|k: int| 0 <= k < rest@.len() implies #[trigger] info_views(rest@)[k] == s.skip(
            i + 1,
        )[k] by {
            assert(info_views(before)[k + 1] == s.skip(i as int)[k + 1]);
        }
        assert(info_views(rest@) =~= s.skip(i + 1));
        let ghost t = s.take(i + 1);
        assert(t.drop_last() =~= s.take(i as int));
        insert_info(&mut out, x);
        i = i + 1;
    }
    assert(s.take(n as int) =~= s);
    proof {
        law_sorted_branches(s);
    }
    out
}

// ---------------------------------------------------------------------------
// Laws of the order
// ---------------------------------------------------------------------------
/// No name comes before itself, and of two names at most one comes first.
pub proof fn lemma_text_before_asym(a: Seq<char>, b: Seq<char>)
    ensures
        !(text_before(a, b) && text_before(b, a)),
        !text_before(a, a),
    decreases a.len(),
{
    if a.len() > 0 && b.len() > 0 && a[0] == b[0] {
        lemma_text_before_asym(a.drop_first(), b.drop_first());
    }
    if a.len() > 0 {
        lemma_text_before_asym(a.drop_first(), a.drop_first());
    }
}

/// Of two different names one comes first.
pub proof fn lemma_text_before_total(a: Seq<char>, b: Seq<char>)
    ensures
        a == b || text_before(a, b) || text_before(b, a),
    decreases a.len(),
{
    if a.len() > 0 && b.len() > 0 && a[0] == b[0] {
        lemma_text_before_total(a.drop_first(), b.drop_first());
        if a.drop_first() == b.drop_first() {
            assert(a =~= seq![a[0]] + a.drop_first());
            assert(b =~= seq![b[0]] + b.drop_first());
        }
    }
    if a.len() == 0 && b.len() == 0 {
        assert(a =~= b);
    }
    if a.len() > 0 && b.len() > 0 && a[0] != b[0] {
    }
}

/// Coming first is transitive.
pub proof fn lemma_text_before_trans(a: Seq<char>, b: Seq<char>, c: Seq<char>)
    requires
        text_before(a, b),
        text_before(b, c),
    ensures
        text_before(a, c),
    decreases a.len(),
{
    if a.len() > 0 && a[0] == b[0] && b[0] == c[0] {
        lemma_text_before_trans(a.drop_first(), b.drop_first(), c.drop_first());
    }
}

/// Any two branches can be put in order, and the order is transitive.
pub proof fn lemma_info_le(
    a: (Seq<char>, NodeType, Option<Seq<char>>),
    b: (Seq<char>, NodeType, Option<Seq<char>>),
    c: (Seq<char>, NodeType, Option<Seq<char>>),
)
    ensures
        info_le(a, b) || info_le(b, a),
        info_le(a, b) && info_le(b, c) ==> info_le(a, c),
{
    lemma_text_before_asym(a.0, b.0);
    if info_le(a, b) && info_le(b, c) && dash_count(a.0) == dash_count(c.0) {
        if text_before(c.0, a.0) {
            lemma_text_before_total(a.0, b.0);
            if text_before(a.0, b.0) {
                lemma_text_before_trans(c.0, a.0, b.0);
            }
        }
    }
}

/// Inserting into a sorted list keeps it sorted, adds `x` to what it holds
/// and nothing else.
pub proof fn lemma_insert_in_order(
    s: Seq<(Seq<char>, NodeType, Option<Seq<char>>)>,
    x: (Seq<char>, NodeType, Option<Seq<char>>),
)
    requires
        infos_sorted(s),
    ensures
        infos_sorted(insert_in_order(s, x)),
        insert_in_order(s, x).to_multiset() == s.to_multiset().insert(x),
        forall|i: int|
            0 <= i < insert_in_order(s, x).len() ==> #[trigger] insert_in_order(s, x)[i] == x
                || s.contains(insert_in_order(s, x)[i]),
    decreases s.len(),
{
    broadcast use vstd::seq_lib::group_to_multiset_ensures;

    if s.len() == 0 {
        assert(seq![x] =~= Seq::<(Seq<char>, NodeType, Option<Seq<char>>)>::empty().push(x));
    } else if info_le(s.last(), x) {
        let r = s.push(x);
        assert forall|i: int, j: int| 0 <= i < j < r.len() implies #[trigger] info_le(r[i], r[j]) by {
            if j == r.len() - 1 && i < s.len() - 1 {
                lemma_info_le(r[i], s.last(), x);
                assert(info_le(s[i], s[s.len() - 1]));
            }
        }
        assert forall|i: int| 0 <= i < r.len() implies #[trigger] r[i] == x || s.contains(r[i]) by {
            if i < s.len() {
                assert(r[i] == s[i]);
            }
        }
    } else {
        let p = s.drop_last();
        let l = s.last();
        assert(infos_sorted(p)) by {
            assert forall|i: int, j: int| 0 <= i < j < p.len() implies #[trigger] info_le(
                p[i],
                p[j],
            ) by {
                assert(info_le(s[i], s[j]));
            }
        }
        lemma_insert_in_order(p, x);
        let r0 = insert_in_order(p, x);
        let r = r0.push(l);
        lemma_info_le(x, l, x);
        assert forall|i: int, j: int| 0 <= i < j < r.len() implies #[trigger] info_le(r[i], r[j]) by {
            if j == r.len() - 1 {
                assert(r[i] == r0[i]);
                if r0[i] != x {
                    assert(p.contains(r0[i]));
                    let k = choose|k: int| 0 <= k < p.len() && p[k] == r0[i];
                    assert(info_le(s[k], s[s.len() - 1]));
                }
            } else {
                assert(info_le(r0[i], r0[j]));
            }
        }
        assert forall|i: int| 0 <= i < r.len() implies #[trigger] r[i] == x || s.contains(r[i]) by {
            if i < r0.len() {
                if r0[i] != x {
                    assert(p.contains(r0[i]));
                    let k = choose|k: int| 0 <= k < p.len() && p[k] == r0[i];
                    assert(s[k] == p[k]);
                }
            } else {
                assert(s[s.len() - 1] == l);
            }
        }
        assert(s =~= p.push(l));
        assert(r.to_multiset() =~= s.to_multiset().insert(x));
    }
}

/// The sorted branches are in order and are the branches given, each as
/// many times as it was given.
pub proof fn law_sorted_branches(s: Seq<(Seq<char>, NodeType, Option<Seq<char>>)>)
    ensures
        infos_sorted(sort_infos(s)),
        sort_infos(s).to_multiset() == s.to_multiset(),
    decreases s.len(),
{
    broadcast use vstd::seq_lib::group_to_multiset_ensures;

    if s.len() == 0 {
        assert(s.to_multiset() =~= vstd::multiset::Multiset::empty());
    } else {
        law_sorted_branches(s.drop_last());
        lemma_insert_in_order(sort_infos(s.drop_last()), s.last());
        assert(s =~= s.drop_last().push(s.last()));
    }
}

/// No two classified branches share a name.
pub open spec fn names_distinct(s: Seq<(Seq<char>, NodeType, Option<Seq<char>>)>) -> bool {
    forall|i: int, j: int| 0 <= i < s.len() && 0 <= j < s.len() && i != j ==> s[i].0 != s[j].0
}

/// `insert_in_order` puts `x` at some place `m` and keeps the rest in order.
pub proof fn lemma_insert_shape(
    q: Seq<(Seq<char>, NodeType, Option<Seq<char>>)>,
    x: (Seq<char>, NodeType, Option<Seq<char>>),
) -> (m: int)
    ensures
        0 <= m <= q.len(),
        insert_in_order(q, x) == q.take(m) + seq![x] + q.skip(m),
    decreases q.len(),
{
    if q.len() == 0 {
        assert(insert_in_order(q, x) =~= q.take(0) + seq![x] + q.skip(0));
        0
    } else if info_le(q.last(), x) {
        assert(insert_in_order(q, x) =~= q.take(q.len() as int) + seq![x] + q.skip(q.len() as int));
        q.len() as int
    } else {
        let d = q.drop_last();
        let m = lemma_insert_shape(d, x);
        assert(insert_in_order(q, x) =~= q.take(m) + seq![x] + q.skip(m));
        m
    }
}

/// Sorting keeps the branches given and no others, and keeps names
/// distinct.
pub proof fn lemma_sort_keeps_names(s: Seq<(Seq<char>, NodeType, Option<Seq<char>>)>)
    ensures
        sort_infos(s).len() == s.len(),
        forall|i: int| 0 <= i < sort_infos(s).len() ==> s.contains(#[trigger] sort_infos(s)[i]),
        names_distinct(s) ==> names_distinct(sort_infos(s)),
    decreases s.len(),
{
    if s.len() > 0 {
        let p = s.drop_last();
        let x = s.last();
        lemma_sort_keeps_names(p);
        let q = sort_infos(p);
        let m = lemma_insert_shape(q, x);
        let r = sort_infos(s);
        assert(r == q.take(m) + seq![x] + q.skip(m));
        assert forall|i: int| 0 <= i < r.len() implies (i < m ==> r[i] == q[i]) && (i == m ==> r[i] == x)
            && (i > m ==> r[i] == q[i - 1]) by {}
        assert forall|i: int| 0 <= i < r.len() implies s.contains(#[trigger] r[i]) by {
            if i == m {
                assert(s[s.len() - 1] == x);
            } else {
                let e = if i < m {
                    q[i]
                } else {
                    q[i - 1]
                };
                assert(p.contains(e));
                let k = choose|k: int| 0 <= k < p.len() && p[k] == e;
                assert(s[k] == p[k]);
            }
        }
        if names_distinct(s) {
            assert(names_distinct(p)) by {
                assert forall|i: int, j: int| 0 <= i < p.len() && 0 <= j < p.len() && i != j implies p[i].0
                    != p[j].0 by {
                    assert(p[i] == s[i] && p[j] == s[j]);
                }
            }
            assert forall|e: (Seq<char>, NodeType, Option<Seq<char>>)| #[trigger] q.contains(e) implies e.0
                != x.0 by {
                let i = choose|i: int| 0 <= i < q.len() && q[i] == e;
                assert(p.contains(q[i]));
                let k = choose|k: int| 0 <= k < p.len() && p[k] == e;
                assert(s[k] == e);
                assert(s[s.len() - 1] == x);
            }
            assert forall|i: int, j: int| 0 <= i < r.len() && 0 <= j < r.len() && i != j implies r[i].0
                != r[j].0 by {
                let qi = if i < m {
                    i
                } else {
                    i - 1
                };
                let qj = if j < m {
                    j
                } else {
                    j - 1
                };
                if i == m {
                    assert(q.contains(q[qj]));
                } else if j == m {
                    assert(q.contains(q[qi]));
                } else {
                    assert(r[i] == q[qi] && r[j] == q[qj]);
                }
            }
        }
    }
}

/// How far a branch stands from the top: `master` and `main` first, then
/// `api` and `error`, then every other branch by the length of its name.
pub open spec fn branch_rank(name: Seq<char>) -> nat {
    if name == "master"@ || name == "main"@ {
        0
    } else if name == "api"@ || name == "error"@ {
        1
    } else {
        2 + name.len()
    }
}

/// Whether a classified branch's parent branch stands nearer the top than
/// the branch itself.
pub open spec fn parent_ranks_lower(x: (Seq<char>, NodeType, Option<Seq<char>>)) -> bool {
    match x.2 {
        Some(p) => branch_rank(p) < branch_rank(x.0),
        None => true,
    }
}

/// The first two pieces of a name split at dashes are shorter than the
/// name, and with the dash between them still shorter where there are
/// more pieces.
pub proof fn lemma_split_pieces_shorter(s: Seq<char>)
    ensures
        split(s, '-').len() >= 2 ==> split(s, '-')[0].len() < s.len(),
        split(s, '-').len() >= 3 ==> (split(s, '-')[0] + "-"@ + split(s, '-')[1]).len() < s.len(),
{
    reveal_strlit("-");
    let parts = split(s, '-');
    lemma_join_split(s, '-');
    assert("-"@ =~= seq!['-']);
    if parts.len() >= 2 {
        let head = seq![parts[0]];
        let rest = parts.drop_first();
        assert(parts =~= head + rest);
        lemma_join_append(head, rest, "-"@);
        assert(join(head, "-"@) == parts[0]);
        assert(s.len() == parts[0].len() + 1 + join(rest, "-"@).len());
        if parts.len() >= 3 {
            let two = seq![parts[0], parts[1]];
            let more = parts.skip(2);
            assert(parts =~= two + more);
            lemma_join_append(two, more, "-"@);
            assert(two.drop_last() =~= seq![parts[0]]);
            assert(join(two, "-"@) == parts[0] + "-"@ + parts[1]);
        }
    }
}

/// Every parent branch that classification names stands nearer the top
/// than the branch.
pub proof fn lemma_class_ranks(name: Seq<char>, is_version: bool, under_version: bool)
    ensures
        parent_ranks_lower((name, branch_class(name, is_version, under_version).0, branch_class(name, is_version, under_version).1)),
{
    reveal_strlit("master");
    reveal_strlit("main");
    reveal_strlit("api");
    reveal_strlit("error");
    reveal_strlit("error-");
    lemma_split_pieces_shorter(name);
    if starts_with(name, "error-"@) {
        assert(name.len() >= 6);
        assert(name != "master"@ && name != "main"@ && name != "api"@ && name != "error"@) by {
            assert("master"@.len() == 6);
            if name == "master"@ {
                assert(name[0] == 'm');
                assert(name.take(6)[0] == 'e');
            }
        }
    }
}

} // verus!

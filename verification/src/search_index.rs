//! An index for fuzzy search: every piece of one to ten letters of a node's
//! name, branch and id, in lower case, leads to the ids of the nodes that
//! hold it.
use crate::keyed::{append_to, lemma_first_key, lemma_first_key_at, lemma_upsert_lookup, lookup};
use crate::outside::{lowercase, to_lowercase};
use crate::text::{chars_of, slice, string_of, strings};
use crate::tree::{all_nodes, append_name_id, name_texts, node_views, ApiTree, NodeView, TreeNode};
use vstd::prelude::*;

verus! {

/// Whether every letter of `s` is ASCII.
pub open spec fn is_ascii(s: Seq<char>) -> bool {
    forall|i: int| 0 <= i < s.len() ==> #[trigger] s[i] < '\u{80}'
}

/// The pieces of `t` that start at `i`: one to ten letters long, as far as
/// `t` goes.
pub open spec fn pieces_at(t: Seq<char>, i: int) -> Seq<Seq<char>> {
    let hi = if t.len() < i + 10 {
        t.len() as int
    } else {
        i + 10
    };
    Seq::new((hi - i) as nat, |k: int| t.subrange(i, i + k + 1))
}

/// The pieces of `t` that start before `m`, by start, then by length.
pub open spec fn keys_upto(t: Seq<char>, m: nat) -> Seq<Seq<char>>
    decreases m,
{
    if m == 0 {
        seq![]
    } else {
        keys_upto(t, (m - 1) as nat) + pieces_at(t, m - 1)
    }
}

/// The keys a term is indexed under.
pub open spec fn term_keys(t: Seq<char>) -> Seq<Seq<char>> {
    keys_upto(t, t.len())
}

/// The index once `id` is listed under each key, in order.
pub open spec fn index_keys(
    idx: Seq<(Seq<char>, Seq<Seq<char>>)>,
    keys: Seq<Seq<char>>,
    id: Seq<char>,
) -> Seq<(Seq<char>, Seq<Seq<char>>)>
    decreases keys.len(),
{
    if keys.len() == 0 {
        idx
    } else {
        append_to(index_keys(idx, keys.drop_last(), id), keys.last(), id)
    }
}

/// The index once a node is listed under the pieces of its name, branch
/// and id, each in lower case.
pub open spec fn index_node(idx: Seq<(Seq<char>, Seq<Seq<char>>)>, n: NodeView) -> Seq<
    (Seq<char>, Seq<Seq<char>>),
> {
    let a = index_keys(idx, term_keys(lowercase(n.name)), n.id);
    let b = index_keys(a, term_keys(lowercase(n.branch_name)), n.id);
    index_keys(b, term_keys(lowercase(n.id)), n.id)
}

/// The index of the nodes, taken in order.
pub open spec fn index_nodes(idx: Seq<(Seq<char>, Seq<Seq<char>>)>, ns: Seq<NodeView>) -> Seq<
    (Seq<char>, Seq<Seq<char>>),
>
    decreases ns.len(),
{
    if ns.len() == 0 {
        idx
    } else {
        index_node(index_nodes(idx, ns.drop_last()), ns.last())
    }
}

/// Whether a node's name, branch and id stay ASCII in lower case.
pub open spec fn node_terms_ascii(n: NodeView) -> bool {
    is_ascii(lowercase(n.name)) && is_ascii(lowercase(n.branch_name)) && is_ascii(lowercase(n.id))
}

/// Whether every node's terms stay ASCII in lower case.
pub open spec fn terms_ascii(ns: Seq<NodeView>) -> bool {
    forall|i: int| 0 <= i < ns.len() ==> #[trigger] node_terms_ascii(ns[i])
}

/// The index for fuzzy search.
pub struct SearchIndex {
    index: Vec<(String, Vec<String>)>,
}

impl View for SearchIndex {
    type V = Seq<(Seq<char>, Seq<Seq<char>>)>;

    closed spec fn view(&self) -> Seq<(Seq<char>, Seq<Seq<char>>)> {
        name_texts(self.index@)
    }
}

/// Lists `id` under every piece of `term`.
fn index_term(idx: &mut Vec<(String, Vec<String>)>, term: &Vec<char>, id: &str)
    ensures
        name_texts(final(idx)@) == index_keys(name_texts(old(idx)@), term_keys(term@), id@),
{
    let ghost base = name_texts(idx@);
    let ghost t = term@;
    let n = term.len();
    let mut i: usize = 0;
    while i < n
        invariant
            i <= n,
            n == t.len(),
            t == term@,
            name_texts(idx@) == index_keys(base, keys_upto(t, i as nat), id@),
        decreases n - i,
    {
        let hi: usize = if n - i < 10 {
            n
        } else {
            i + 10
        };
        let ghost ps = pieces_at(t, i as int);
        assert(ps.len() == hi - i);
        let mut k: usize = 0;
        assert(keys_upto(t, i as nat) + ps.take(0) =~= keys_upto(t, i as nat));
        while k < hi - i
            invariant
                i < hi <= n,
                k <= hi - i,
                n == t.len(),
                t == term@,
                ps == pieces_at(t, i as int),
                ps.len() == hi - i,
                name_texts(idx@) == index_keys(base, keys_upto(t, i as nat) + ps.take(k as int), id@),
            decreases hi - i - k,
        {
            let j = i + k + 1;
            let key = string_of(&slice(term, i, j));
            assert(key@ == ps[k as int]);
            let ghost ks = keys_upto(t, i as nat) + ps.take(k as int);
            assert((keys_upto(t, i as nat) + ps.take(k + 1)).drop_last() =~= ks);
            assert((keys_upto(t, i as nat) + ps.take(k + 1)).last() == key@);
            append_name_id(idx, key.as_str(), id.to_string());
            k = k + 1;
        }
        assert(ps.take(hi - i) =~= ps);
        assert(keys_upto(t, (i + 1) as nat) == keys_upto(t, i as nat) + ps);
        i = i + 1;
    }
}

impl SearchIndex {
    /// An empty index.
    pub fn new() -> (r: SearchIndex)
        ensures
            r@ == Seq::<(Seq<char>, Seq<Seq<char>>)>::empty(),
    {
        let r = SearchIndex { index: Vec::new() };
        assert(r@ =~= Seq::<(Seq<char>, Seq<Seq<char>>)>::empty());
        r
    }

    /// The index of the tree's nodes. Pieces are cut letter by letter,
    /// which needs the lower-cased terms to be ASCII.
    pub fn build(tree: &ApiTree) -> (r: SearchIndex)
        requires
            terms_ascii(all_nodes(tree@)),
        ensures
            r@ == index_nodes(seq![], all_nodes(tree@)),
    {
        let nodes = tree.get_all_nodes();
        let ghost ns = node_views(nodes@);
        let mut idx: Vec<(String, Vec<String>)> = Vec::new();
        assert(name_texts(idx@) =~= Seq::<(Seq<char>, Seq<Seq<char>>)>::empty());
        let mut i: usize = 0;
        assert(ns.take(0) =~= Seq::<NodeView>::empty());
        while i < nodes.len()
            invariant
                i <= nodes.len(),
                ns == node_views(nodes@),
                name_texts(idx@) == index_nodes(seq![], ns.take(i as int)),
            decreases nodes.len() - i,
        {
            let node: &TreeNode = nodes[i];
            assert(node@ == ns[i as int]);
            assert(ns.take(i + 1).drop_last() =~= ns.take(i as int));
            let id = node.id.as_str();
            let name_l = to_lowercase(node.name.as_str());
            index_term(&mut idx, &chars_of(name_l.as_str()), id);
            let branch_l = to_lowercase(node.branch_name.as_str());
            index_term(&mut idx, &chars_of(branch_l.as_str()), id);
            let id_l = to_lowercase(id);
            index_term(&mut idx, &chars_of(id_l.as_str()), id);
            i = i + 1;
        }
        assert(ns.take(nodes.len() as int) =~= ns);
        SearchIndex { index: idx }
    }

    /// The index of the tree's nodes, or `None` where some node's name,
    /// branch or id is not ASCII in lower case.
    pub fn build_checked(tree: &ApiTree) -> (r: Option<SearchIndex>)
        ensures
            match r {
                Some(ix) => terms_ascii(all_nodes(tree@)) && ix@ == index_nodes(
                    seq![],
                    all_nodes(tree@),
                ),
                None => !terms_ascii(all_nodes(tree@)),
            },
    {
        let nodes = tree.get_all_nodes();
        let ghost ns = node_views(nodes@);
        let mut i: usize = 0;
        while i < nodes.len()
            invariant
                i <= nodes.len(),
                ns == node_views(nodes@),
                ns == all_nodes(tree@),
                forall|k: int| 0 <= k < i ==> #[trigger] node_terms_ascii(ns[k]),
            decreases nodes.len() - i,
        {
            let node: &TreeNode = nodes[i];
            assert(node@ == ns[i as int]);
            let ok = ascii_text(&to_lowercase(node.name.as_str())) && ascii_text(
                &to_lowercase(node.branch_name.as_str()),
            ) && ascii_text(&to_lowercase(node.id.as_str()));
            if !ok {
                assert(!node_terms_ascii(ns[i as int]));
                return None;
            }
            i = i + 1;
        }
        Some(SearchIndex::build(tree))
    }

    /// The ids listed under the query in lower case.
    pub fn search(&self, query: &str) -> (r: Vec<String>)
        ensures
            strings(r@) == match lookup(self@, lowercase(query@)) {
                Some(ids) => ids,
                None => Seq::<Seq<char>>::empty(),
            },
    {
        let q = to_lowercase(query);
        self.search_key(q.as_str())
    }

    /// The ids listed under `q`, a query already put in lower case.
    pub fn search_key(&self, q: &str) -> (r: Vec<String>)
        ensures
            strings(r@) == match lookup(self@, q@) {
                Some(ids) => ids,
                None => Seq::<Seq<char>>::empty(),
            },
    {
        let ghost s = self@;
        let mut i: usize = 0;
        while i < self.index.len()
            invariant
                i <= self.index.len(),
                s == name_texts(self.index@),
                s == self@,
                forall|j: int| 0 <= j < i ==> s[j].0 != q@,
            decreases self.index.len() - i,
        {
            if crate::text::str_eq(self.index[i].0.as_str(), q) {
                proof {
                    lemma_first_key_at(s, q@, i as int);
                }
                let ids = &self.index[i].1;
                let mut out: Vec<String> = Vec::new();
                let mut k: usize = 0;
                while k < ids.len()
                    invariant
                        k <= ids.len(),
                        strings(out@) == strings(ids@).take(k as int),
                    decreases ids.len() - k,
                {
                    let x = ids[k].clone();
                    let ghost before = out@;
                    out.push(x);
                    assert(strings(out@) =~= strings(before).push(ids@[k as int]@));
                    k = k + 1;
                    assert(strings(out@) =~= strings(ids@).take(k as int));
                }
                assert(strings(ids@).take(k as int) =~= strings(ids@));
                assert(s[i as int].1 == strings(ids@));
                assert(lookup(s, q@) == Some(s[i as int].1));
                return out;
            }
            i = i + 1;
        }
        proof {
            lemma_first_key(s, q@);
        }
        let out: Vec<String> = Vec::new();
        assert(strings(out@) =~= Seq::<Seq<char>>::empty());
        out
    }
}

impl Default for SearchIndex {
    /// An empty index.
    fn default() -> (r: SearchIndex)
        ensures
            r@ == Seq::<(Seq<char>, Seq<Seq<char>>)>::empty(),
    {
        SearchIndex::new()
    }
}

/// Whether every letter of the string is ASCII.
fn ascii_text(s: &String) -> (r: bool)
    ensures
        r == is_ascii(s@),
{
    let cs = chars_of(s.as_str());
    let mut i: usize = 0;
    while i < cs.len()
        invariant
            i <= cs.len(),
            cs@ == s@,
            forall|k: int| 0 <= k < i ==> #[trigger] cs@[k] < '\u{80}',
        decreases cs.len() - i,
    {
        if cs[i] >= '\u{80}' {
            assert(!(cs@[i as int] < '\u{80}'));
            return false;
        }
        i = i + 1;
    }
    true
}

// ---------------------------------------------------------------------------
// Laws
// ---------------------------------------------------------------------------
/// Whether `y` is listed under `q`.
pub open spec fn listed(idx: Seq<(Seq<char>, Seq<Seq<char>>)>, q: Seq<char>, y: Seq<char>) -> bool {
    lookup(idx, q) is Some && lookup(idx, q)->0.contains(y)
}

/// Whether every id listed in `a` under a key is listed in `b` under it.
pub open spec fn lists_keep(a: Seq<(Seq<char>, Seq<Seq<char>>)>, b: Seq<(Seq<char>, Seq<Seq<char>>)>) -> bool {
    forall|q: Seq<char>, y: Seq<char>| #[trigger] listed(a, q, y) ==> listed(b, q, y)
}

/// Appending keeps every listing and lists `x` under `k`.
pub proof fn lemma_append_listed(s: Seq<(Seq<char>, Seq<Seq<char>>)>, k: Seq<char>, x: Seq<char>)
    ensures
        lists_keep(s, append_to(s, k, x)),
        listed(append_to(s, k, x), k, x),
{
    let nl = match lookup(s, k) {
        Some(l) => l.push(x),
        None => seq![x],
    };
    lemma_first_key(s, k);
    assert(append_to(s, k, x) =~= crate::keyed::upsert(s, k, nl));
    assert forall|q: Seq<char>, y: Seq<char>| #[trigger] listed(s, q, y) implies listed(
        append_to(s, k, x),
        q,
        y,
    ) by {
        lemma_upsert_lookup(s, k, nl, q);
        if q == k {
            let l = lookup(s, k)->0;
            let w = choose|w: int| 0 <= w < l.len() && l[w] == y;
            assert(l.push(x)[w] == y);
        }
    }
    lemma_upsert_lookup(s, k, nl, k);
    assert(nl[nl.len() - 1] == x);
}

/// Listing an id under keys keeps every listing and lists it under each.
pub proof fn lemma_index_keys(idx: Seq<(Seq<char>, Seq<Seq<char>>)>, keys: Seq<Seq<char>>, id: Seq<char>)
    ensures
        lists_keep(idx, index_keys(idx, keys, id)),
        forall|m: int| 0 <= m < keys.len() ==> #[trigger] listed(index_keys(idx, keys, id), keys[m], id),
    decreases keys.len(),
{
    if keys.len() > 0 {
        let p = keys.drop_last();
        lemma_index_keys(idx, p, id);
        let before = index_keys(idx, p, id);
        lemma_append_listed(before, keys.last(), id);
        assert forall|m: int| 0 <= m < keys.len() implies #[trigger] listed(
            index_keys(idx, keys, id),
            keys[m],
            id,
        ) by {
            if m < keys.len() - 1 {
                assert(listed(before, p[m], id));
            }
        }
    }
}

/// Whether `key` is a key of one of the node's terms.
pub open spec fn node_key(n: NodeView, key: Seq<char>) -> bool {
    term_keys(lowercase(n.name)).contains(key) || term_keys(lowercase(n.branch_name)).contains(key)
        || term_keys(lowercase(n.id)).contains(key)
}

/// Indexing a node keeps every listing and lists it under its keys.
pub proof fn lemma_index_node(idx: Seq<(Seq<char>, Seq<Seq<char>>)>, n: NodeView, key: Seq<char>)
    ensures
        lists_keep(idx, index_node(idx, n)),
        node_key(n, key) ==> listed(index_node(idx, n), key, n.id),
{
    let ka = term_keys(lowercase(n.name));
    let kb = term_keys(lowercase(n.branch_name));
    let kc = term_keys(lowercase(n.id));
    let a = index_keys(idx, ka, n.id);
    let b = index_keys(a, kb, n.id);
    lemma_index_keys(idx, ka, n.id);
    lemma_index_keys(a, kb, n.id);
    lemma_index_keys(b, kc, n.id);
    if ka.contains(key) {
        let m = choose|m: int| 0 <= m < ka.len() && ka[m] == key;
        assert(listed(a, ka[m], n.id));
    }
    if kb.contains(key) {
        let m = choose|m: int| 0 <= m < kb.len() && kb[m] == key;
        assert(listed(b, kb[m], n.id));
    }
    if kc.contains(key) {
        let m = choose|m: int| 0 <= m < kc.len() && kc[m] == key;
        assert(listed(index_keys(b, kc, n.id), kc[m], n.id));
    }
}

/// Indexing nodes keeps every listing and lists each node under its keys.
pub proof fn lemma_index_nodes(idx: Seq<(Seq<char>, Seq<Seq<char>>)>, ns: Seq<NodeView>, k: int, key: Seq<char>)
    requires
        0 <= k < ns.len(),
        node_key(ns[k], key),
    ensures
        listed(index_nodes(idx, ns), key, ns[k].id),
    decreases ns.len(),
{
    let p = ns.drop_last();
    if k == ns.len() - 1 {
        lemma_index_node(index_nodes(idx, p), ns.last(), key);
    } else {
        lemma_index_nodes(idx, p, k, key);
        lemma_index_node(index_nodes(idx, p), ns.last(), key);
        assert(listed(index_nodes(idx, p), key, ns[k].id));
    }
}

/// A piece of one to ten letters is among a term's keys.
pub proof fn lemma_piece_key(t: Seq<char>, i: int, j: int, m: nat)
    requires
        0 <= i < j <= t.len(),
        j - i <= 10,
        i < m <= t.len(),
    ensures
        keys_upto(t, m).contains(t.subrange(i, j)),
    decreases m,
{
    let prev = keys_upto(t, (m - 1) as nat);
    let ps = pieces_at(t, m - 1);
    if i == m - 1 {
        let w = j - i - 1;
        assert(ps[w] == t.subrange(i, j));
        assert(keys_upto(t, m)[prev.len() + w] == ps[w]);
    } else {
        lemma_piece_key(t, i, j, (m - 1) as nat);
        let w = choose|w: int| 0 <= w < prev.len() && prev[w] == t.subrange(i, j);
        assert(keys_upto(t, m)[w] == prev[w]);
    }
}

/// Every piece of one to ten letters of a node's name, branch or id, in
/// lower case, lists the node's id in the index of the nodes.
pub proof fn law_index_finds_pieces(ns: Seq<NodeView>, k: int, term: Seq<char>, i: int, j: int)
    requires
        0 <= k < ns.len(),
        term == lowercase(ns[k].name) || term == lowercase(ns[k].branch_name) || term == lowercase(
            ns[k].id,
        ),
        0 <= i < j <= term.len(),
        j - i <= 10,
    ensures
        listed(index_nodes(seq![], ns), term.subrange(i, j), ns[k].id),
{
    lemma_piece_key(term, i, j, term.len());
    lemma_index_nodes(seq![], ns, k, term.subrange(i, j));
}

} // verus!

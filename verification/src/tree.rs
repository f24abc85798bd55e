//! The tree of branches: the root, the API and error roots, versions,
//! categories, endpoints and error codes, with indexes to find them by
//! branch, by name and by kind.
use crate::keyed::{
    append_to, first_key, lemma_first_key, lemma_first_key_at, lemma_first_key_none,
    lemma_upsert_keys, lemma_upsert_lookup, lookup, upsert,
};
use crate::error::ArmError;
use crate::outside::{lowercase, to_lowercase};
use crate::branch_order::{
    branch_rank, info_views, law_sorted_branches, lemma_sort_keeps_names, names_distinct,
    parent_ranks_lower, sort_branch_infos, sort_infos, BranchInfo,
};
use crate::text::{
    chars_of, contains, contains_chars, lacks, lemma_strings_push, opt_text, str_eq, strings,
};
use indexmap::IndexMap;
use vstd::prelude::*;

verus! {

// ---------------------------------------------------------------------------
// indexmap
// ---------------------------------------------------------------------------
#[verifier::external_type_specification]
#[verifier::external_body]
#[verifier::reject_recursive_types(K)]
#[verifier::reject_recursive_types(V)]
#[verifier::reject_recursive_types(S)]
pub struct ExIndexMap<K, V, S>(IndexMap<K, V, S>);

/// The pairs an `IndexMap` of nodes holds, in its order.
pub uninterp spec fn node_entries(m: IndexMap<String, TreeNode>) -> Seq<(Seq<char>, NodeView)>;

/// `IndexMap::new`. Claimed: the map holds nothing.
#[verifier::external_body]
fn node_map_new() -> (m: IndexMap<String, TreeNode>)
    ensures
        node_entries(m) == Seq::<(Seq<char>, NodeView)>::empty(),
{
    IndexMap::new()
}

/// `IndexMap::insert`. Claimed, as its documentation says: a key already
/// present keeps its place and takes the new value; a new key goes last.
#[verifier::external_body]
fn node_map_insert(m: &mut IndexMap<String, TreeNode>, key: String, value: TreeNode)
    ensures
        node_entries(*final(m)) == upsert(node_entries(*old(m)), key@, value@),
{
    m.insert(key, value);
}

/// `IndexMap::get`. Claimed: the value stored under the key, if any.
#[verifier::external_body]
fn node_map_get<'a>(m: &'a IndexMap<String, TreeNode>, key: &str) -> (r: Option<&'a TreeNode>)
    ensures
        match r {
            Some(n) => lookup(node_entries(*m), key@) == Some(n@),
            None => lookup(node_entries(*m), key@) is None,
        },
{
    m.get(key)
}

/// `IndexMap::get_mut`. Claimed: the value stored under the key, if any,
/// handed out to be changed in its place (whatever it becomes is stored
/// under that key, in the same place); the call does not unwind.
#[verifier::external_body]
fn node_map_get_mut<'a>(m: &'a mut IndexMap<String, TreeNode>, key: &str) -> (r: Option<
    &'a mut TreeNode,
>)
    ensures
        match r {
            Some(n) => lookup(node_entries(*old(m)), key@) == Some((*n)@) && node_entries(*final(m))
                == upsert(node_entries(*old(m)), key@, (*final(n))@),
            None => lookup(node_entries(*old(m)), key@) is None && node_entries(*final(m))
                == node_entries(*old(m)),
        },
    no_unwind
{
    m.get_mut(key)
}

/// `IndexMap::len`. Claimed: the number of pairs held.
#[verifier::external_body]
fn node_map_len(m: &IndexMap<String, TreeNode>) -> (r: usize)
    ensures
        r == node_entries(*m).len(),
{
    m.len()
}

/// `IndexMap::get_index`. Claimed: the pair at that place in the order.
#[verifier::external_body]
fn node_map_get_index<'a>(m: &'a IndexMap<String, TreeNode>, i: usize) -> (r: Option<
    (&'a String, &'a TreeNode),
>)
    ensures
        match r {
            Some((k, v)) => i < node_entries(*m).len() && k@ == node_entries(*m)[i as int].0 && v@
                == node_entries(*m)[i as int].1,
            None => i >= node_entries(*m).len(),
        },
{
    m.get_index(i)
}

// ---------------------------------------------------------------------------
// Nodes
// ---------------------------------------------------------------------------
/// The kind of a node.
#[derive(Debug, Clone, Copy, PartialEq, Eq, Structural, Hash)]
pub enum NodeType {
    Root,
    ApiRoot,
    ErrorRoot,
    Version,
    Endpoint,
    ErrorCode,
    Category,
}

/// The name a node type is written with.
pub open spec fn node_type_label(t: NodeType) -> Seq<char> {
    match t {
        NodeType::Root => "root"@,
        NodeType::ApiRoot => "api_root"@,
        NodeType::ErrorRoot => "error_root"@,
        NodeType::Version => "version"@,
        NodeType::Endpoint => "endpoint"@,
        NodeType::ErrorCode => "error_code"@,
        NodeType::Category => "category"@,
    }
}

impl NodeType {
    /// The name the type is written with (`root`, `api_root`, ...).
    pub fn as_str(&self) -> (r: &'static str)
        ensures
            r@ == node_type_label(*self),
    {
        match self {
            NodeType::Root => "root",
            NodeType::ApiRoot => "api_root",
            NodeType::ErrorRoot => "error_root",
            NodeType::Version => "version",
            NodeType::Endpoint => "endpoint",
            NodeType::ErrorCode => "error_code",
            NodeType::Category => "category",
        }
    }
}

/// A node of the tree: one branch.
pub struct TreeNode {
    pub id: String,
    pub name: String,
    pub node_type: NodeType,
    pub branch_name: String,
    pub parent: Option<String>,
    pub children: Vec<String>,
    pub metadata: Vec<(String, String)>,
    pub files: Vec<String>,
}

/// What a node holds.
pub struct NodeView {
    pub id: Seq<char>,
    pub name: Seq<char>,
    pub node_type: NodeType,
    pub branch_name: Seq<char>,
    pub parent: Option<Seq<char>>,
    pub children: Seq<Seq<char>>,
    pub metadata: Seq<(Seq<char>, Seq<char>)>,
    pub files: Seq<Seq<char>>,
}

impl View for TreeNode {
    type V = NodeView;

    open spec fn view(&self) -> NodeView {
        NodeView {
            id: self.id@,
            name: self.name@,
            node_type: self.node_type,
            branch_name: self.branch_name@,
            parent: opt_text(self.parent),
            children: strings(self.children@),
            metadata: meta_views(self.metadata@),
            files: strings(self.files@),
        }
    }
}

/// The texts of a node's metadata.
pub open spec fn meta_views(m: Seq<(String, String)>) -> Seq<(Seq<char>, Seq<char>)> {
    m.map_values(|p: (String, String)| (p.0@, p.1@))
}

impl TreeNode {
    /// A node with no parent, children, metadata or files.
    pub fn new(id: String, name: String, node_type: NodeType, branch_name: String) -> (n: TreeNode)
        ensures
            n@ == fresh_node(id@, name@, node_type, branch_name@),
    {
        let ghost v = fresh_node(id@, name@, node_type, branch_name@);
        let n = TreeNode {
            id,
            name,
            node_type,
            branch_name,
            parent: None,
            children: Vec::new(),
            metadata: Vec::new(),
            files: Vec::new(),
        };
        assert(strings(n.children@) =~= Seq::<Seq<char>>::empty());
        assert(strings(n.files@) =~= Seq::<Seq<char>>::empty());
        assert(meta_views(n.metadata@) =~= Seq::<(Seq<char>, Seq<char>)>::empty());
        assert(n@ == v);
        n
    }

    /// Adds a child, unless it is one already.
    pub fn add_child(&mut self, child_id: String)
        ensures
            final(self)@ == with_child(old(self)@, child_id@),
    {
        let ghost cs = strings(self.children@);
        let mut i: usize = 0;
        while i < self.children.len()
            invariant
                i <= self.children.len(),
                cs == strings(self.children@),
                forall|j: int| 0 <= j < i ==> cs[j] != child_id@,
            decreases self.children.len() - i,
        {
            if str_eq(self.children[i].as_str(), child_id.as_str()) {
                assert(cs[i as int] == child_id@);
                assert(self@ == with_child(old(self)@, child_id@));
                return;
            }
            i = i + 1;
        }
        assert(!cs.contains(child_id@));
        let ghost c = child_id@;
        self.children.push(child_id);
        assert(strings(self.children@) =~= cs.push(c));
        assert(self@ == with_child(old(self)@, c));
    }

    /// Sets the parent.
    pub fn set_parent(&mut self, parent_id: String)
        ensures
            final(self)@ == with_parent(old(self)@, parent_id@),
    {
        self.parent = Some(parent_id);
    }

    /// Sets a metadata value.
    pub fn add_metadata(&mut self, key: &str, value: &str)
        ensures
            final(self)@ == with_metadata(old(self)@, key@, value@),
    {
        let mut md: Vec<(String, String)> = Vec::new();
        std::mem::swap(&mut md, &mut self.metadata);
        let ghost ms = meta_views(md@);
        let mut i: usize = 0;
        let mut found = false;
        while i < md.len()
            invariant_except_break
                ms == meta_views(md@),
                !found,
                forall|j: int| 0 <= j < i ==> ms[j].0 != key@,
            invariant
                i <= md.len(),
            ensures
                found ==> meta_views(md@) == upsert(ms, key@, value@),
                !found ==> (i == md.len() && ms == meta_views(md@) && forall|j: int|
                    0 <= j < md.len() ==> ms[j].0 != key@),
            decreases md.len() - i,
        {
            if str_eq(md[i].0.as_str(), key) {
                proof {
                    lemma_first_key_at(ms, key@, i as int);
                }
                md.set(i, (key.to_string(), value.to_string()));
                assert(meta_views(md@) =~= ms.update(i as int, (key@, value@)));
                found = true;
                break;
            }
            i = i + 1;
        }
        if !found {
            proof {
                lemma_first_key_none(ms, key@);
            }
            md.push((key.to_string(), value.to_string()));
            assert(meta_views(md@) =~= ms.push((key@, value@)));
        }
        self.metadata = md;
    }

    /// A copy of the node.
    pub fn duplicate(&self) -> (r: TreeNode)
        ensures
            r@ == self@,
    {
        let mut children: Vec<String> = Vec::new();
        let mut i: usize = 0;
        while i < self.children.len()
            invariant
                i <= self.children.len(),
                children@ == self.children@.take(i as int),
            decreases self.children.len() - i,
        {
            children.push(self.children[i].clone());
            i = i + 1;
            assert(children@ =~= self.children@.take(i as int));
        }
        let mut metadata: Vec<(String, String)> = Vec::new();
        let mut j: usize = 0;
        while j < self.metadata.len()
            invariant
                j <= self.metadata.len(),
                metadata@ == self.metadata@.take(j as int),
            decreases self.metadata.len() - j,
        {
            metadata.push((self.metadata[j].0.clone(), self.metadata[j].1.clone()));
            j = j + 1;
            assert(metadata@ =~= self.metadata@.take(j as int));
        }
        let mut files: Vec<String> = Vec::new();
        let mut k: usize = 0;
        while k < self.files.len()
            invariant
                k <= self.files.len(),
                files@ == self.files@.take(k as int),
            decreases self.files.len() - k,
        {
            files.push(self.files[k].clone());
            k = k + 1;
            assert(files@ =~= self.files@.take(k as int));
        }
        assert(children@ =~= self.children@);
        assert(metadata@ =~= self.metadata@);
        assert(files@ =~= self.files@);
        let r = TreeNode {
            id: self.id.clone(),
            name: self.name.clone(),
            node_type: self.node_type,
            branch_name: self.branch_name.clone(),
            parent: match &self.parent {
                Some(p) => Some(p.clone()),
                None => None,
            },
            children,
            metadata,
            files,
        };
        assert(r@ == self@);
        r
    }
}

/// A node with no parent, children, metadata or files.
pub open spec fn fresh_node(
    id: Seq<char>,
    name: Seq<char>,
    node_type: NodeType,
    branch_name: Seq<char>,
) -> NodeView {
    NodeView {
        id,
        name,
        node_type,
        branch_name,
        parent: None,
        children: seq![],
        metadata: seq![],
        files: seq![],
    }
}

/// The node with the given parent.
pub open spec fn with_parent(n: NodeView, parent: Seq<char>) -> NodeView {
    NodeView { parent: Some(parent), ..n }
}

/// The node with `key` set to `value` in its metadata.
pub open spec fn with_metadata(n: NodeView, key: Seq<char>, value: Seq<char>) -> NodeView {
    NodeView { metadata: upsert(n.metadata, key, value), ..n }
}

/// The node with `child` among its children (added at the end unless it
/// is there already).
pub open spec fn with_child(n: NodeView, child: Seq<char>) -> NodeView {
    NodeView {
        children: if n.children.contains(child) {
            n.children
        } else {
            n.children.push(child)
        },
        ..n
    }
}


// ---------------------------------------------------------------------------
// The tree
// ---------------------------------------------------------------------------
/// What the tree holds: its nodes by id, in the order they were first
/// added, and its three indexes.
pub struct TreeView {
    pub nodes: Seq<(Seq<char>, NodeView)>,
    pub branch_index: Seq<(Seq<char>, Seq<char>)>,
    pub name_index: Seq<(Seq<char>, Seq<Seq<char>>)>,
    pub type_index: Seq<(NodeType, Seq<Seq<char>>)>,
}

/// The tree of branches, with fast lookup by branch, name and kind.
pub struct ApiTree {
    nodes: IndexMap<String, TreeNode>,
    branch_index: Vec<(String, String)>,
    name_index: Vec<(String, Vec<String>)>,
    type_index: Vec<(NodeType, Vec<String>)>,
}

/// The texts of the branch index.
pub open spec fn pair_texts(v: Seq<(String, String)>) -> Seq<(Seq<char>, Seq<char>)> {
    v.map_values(|p: (String, String)| (p.0@, p.1@))
}

/// The texts of the name index.
pub open spec fn name_texts(v: Seq<(String, Vec<String>)>) -> Seq<(Seq<char>, Seq<Seq<char>>)> {
    v.map_values(|p: (String, Vec<String>)| (p.0@, strings(p.1@)))
}

/// The texts of the type index.
pub open spec fn type_texts(v: Seq<(NodeType, Vec<String>)>) -> Seq<(NodeType, Seq<Seq<char>>)> {
    v.map_values(|p: (NodeType, Vec<String>)| (p.0, strings(p.1@)))
}

/// Every branch of the index leads to a node.
pub open spec fn branches_lead_to_nodes(t: TreeView) -> bool {
    forall|i: int|
        0 <= i < t.branch_index.len() ==> #[trigger] first_key(t.nodes, t.branch_index[i].1) is Some
}

impl View for ApiTree {
    type V = TreeView;

    closed spec fn view(&self) -> TreeView {
        TreeView {
            nodes: node_entries(self.nodes),
            branch_index: pair_texts(self.branch_index@),
            name_index: name_texts(self.name_index@),
            type_index: type_texts(self.type_index@),
        }
    }
}

/// The tree once `n` is added: stored under its id (replacing a node with
/// that id in its place), its branch leading to it, and its id listed under
/// its name and under its kind.
pub open spec fn tree_with_node(t: TreeView, n: NodeView) -> TreeView {
    TreeView {
        nodes: upsert(t.nodes, n.id, n),
        branch_index: upsert(t.branch_index, n.branch_name, n.id),
        name_index: append_to(t.name_index, n.name, n.id),
        type_index: append_to(t.type_index, n.node_type, n.id),
    }
}

/// The nodes once `child` has `parent` as its parent, and `parent` has
/// `child` among its children (each where the node exists).
pub open spec fn nodes_with_parent(
    nodes: Seq<(Seq<char>, NodeView)>,
    child: Seq<char>,
    parent: Seq<char>,
) -> Seq<(Seq<char>, NodeView)> {
    let first = match lookup(nodes, child) {
        Some(c) => upsert(nodes, child, with_parent(c, parent)),
        None => nodes,
    };
    match lookup(first, parent) {
        Some(p) => upsert(first, parent, with_child(p, child)),
        None => first,
    }
}

/// A string slice equal to a string.
fn text_of(s: &String) -> (r: String)
    ensures
        r@ == s@,
{
    s.clone()
}

/// Appends `id` to the list of `key` in the type index.
fn append_type_id(v: &mut Vec<(NodeType, Vec<String>)>, key: NodeType, id: String)
    ensures
        final(v)@.map_values(|p: (NodeType, Vec<String>)| (p.0, strings(p.1@))) == append_to(
            old(v)@.map_values(|p: (NodeType, Vec<String>)| (p.0, strings(p.1@))),
            key,
            id@,
        ),
{
    let ghost s = v@.map_values(|p: (NodeType, Vec<String>)| (p.0, strings(p.1@)));
    let mut i: usize = 0;
    while i < v.len()
        invariant
            i <= v.len(),
            s == v@.map_values(|p: (NodeType, Vec<String>)| (p.0, strings(p.1@))),
            v@ == old(v)@,
            forall|j: int| 0 <= j < i ==> s[j].0 != key,
        decreases v.len() - i,
    {
        if v[i].0 == key {
            proof {
                lemma_first_key_at(s, key, i as int);
            }
            let mut ids = v[i].1.clone();
            let ghost old_ids = strings(ids@);
            let ghost idv = id@;
            ids.push(id);
            assert(strings(ids@) =~= old_ids.push(idv));
            v.set(i, (key, ids));
            assert(v@.map_values(|p: (NodeType, Vec<String>)| (p.0, strings(p.1@))) =~= s.update(
                i as int,
                (key, s[i as int].1.push(idv)),
            ));
            return;
        }
        i = i + 1;
    }
    proof {
        lemma_first_key_none(s, key);
    }
    let ghost idv = id@;
    let mut ids: Vec<String> = Vec::new();
    ids.push(id);
    assert(strings(ids@) =~= seq![idv]);
    v.push((key, ids));
    assert(v@.map_values(|p: (NodeType, Vec<String>)| (p.0, strings(p.1@))) =~= s.push((key, seq![idv])));
}


/// Appends `id` to the list of `key` in the name index.
pub(crate) fn append_name_id(v: &mut Vec<(String, Vec<String>)>, key: &str, id: String)
    ensures
        name_texts(final(v)@) == append_to(name_texts(old(v)@), key@, id@),
{
    let ghost s = v@.map_values(|p: (String, Vec<String>)| (p.0@, strings(p.1@)));
    let mut i: usize = 0;
    while i < v.len()
        invariant
            i <= v.len(),
            s == v@.map_values(|p: (String, Vec<String>)| (p.0@, strings(p.1@))),
            v@ == old(v)@,
            forall|j: int| 0 <= j < i ==> s[j].0 != key@,
        decreases v.len() - i,
    {
        if str_eq(v[i].0.as_str(), key) {
            proof {
                lemma_first_key_at(s, key@, i as int);
            }
            let mut ids = v[i].1.clone();
            let ghost old_ids = strings(ids@);
            let ghost idv = id@;
            ids.push(id);
            assert(strings(ids@) =~= old_ids.push(idv));
            v.set(i, (key.to_string(), ids));
            assert(v@.map_values(|p: (String, Vec<String>)| (p.0@, strings(p.1@))) =~= s.update(
                i as int,
                (key@, s[i as int].1.push(idv)),
            ));
            return;
        }
        i = i + 1;
    }
    proof {
        lemma_first_key_none(s, key@);
    }
    let ghost idv = id@;
    let mut ids: Vec<String> = Vec::new();
    ids.push(id);
    assert(strings(ids@) =~= seq![idv]);
    v.push((key.to_string(), ids));
    assert(v@.map_values(|p: (String, Vec<String>)| (p.0@, strings(p.1@))) =~= s.push((key@, seq![idv])));
}


/// Sets `key` to `val` in the branch index.
fn upsert_branch(v: &mut Vec<(String, String)>, key: String, val: String)
    ensures
        pair_texts(final(v)@) == upsert(pair_texts(old(v)@), key@, val@),
{
    let ghost s = pair_texts(v@);
    let mut i: usize = 0;
    while i < v.len()
        invariant
            i <= v.len(),
            s == pair_texts(v@),
            v@ == old(v)@,
            forall|j: int| 0 <= j < i ==> s[j].0 != key@,
        decreases v.len() - i,
    {
        if str_eq(v[i].0.as_str(), key.as_str()) {
            proof {
                lemma_first_key_at(s, key@, i as int);
            }
            let ghost kv = key@;
            let ghost vv = val@;
            v.set(i, (key, val));
            assert(pair_texts(v@) =~= s.update(i as int, (kv, vv)));
            return;
        }
        i = i + 1;
    }
    proof {
        lemma_first_key_none(s, key@);
    }
    let ghost kv = key@;
    let ghost vv = val@;
    v.push((key, val));
    assert(pair_texts(v@) =~= s.push((kv, vv)));
}

/// Every pair of `upsert(s, k, v)` is a pair of `s` or `(k, v)`.
pub proof fn lemma_upsert_pairs<K, V>(s: Seq<(K, V)>, k: K, v: V)
    ensures
        forall|i: int|
            0 <= i < upsert(s, k, v).len() ==> #[trigger] upsert(s, k, v)[i] == (k, v) || exists|j: int|
                0 <= j < s.len() && upsert(s, k, v)[i] == s[j],
{
    let t = upsert(s, k, v);
    lemma_first_key(s, k);
    assert forall|i: int| 0 <= i < t.len() implies #[trigger] t[i] == (k, v) || exists|j: int|
        0 <= j < s.len() && t[i] == s[j] by {
        match first_key(s, k) {
            Some(m) => {
                if i != m {
                    assert(t[i] == s[i]);
                }
            },
            None => {
                if i < s.len() {
                    assert(t[i] == s[i]);
                }
            },
        }
    }
}

impl ApiTree {
    #[verifier::type_invariant]
    closed spec fn inv(self) -> bool {
        branches_lead_to_nodes(self@)
    }

    /// An empty tree.
    pub fn new() -> (t: ApiTree)
        ensures
            t@ == empty_tree(),
    {
        let t = ApiTree {
            nodes: node_map_new(),
            branch_index: Vec::new(),
            name_index: Vec::new(),
            type_index: Vec::new(),
        };
        assert(pair_texts(t.branch_index@) =~= Seq::<(Seq<char>, Seq<char>)>::empty());
        assert(name_texts(t.name_index@) =~= Seq::<(Seq<char>, Seq<Seq<char>>)>::empty());
        assert(type_texts(t.type_index@) =~= Seq::<(NodeType, Seq<Seq<char>>)>::empty());
        t
    }

    /// Adds a node, stored under its id, and indexes it by branch, name and
    /// kind.
    pub fn add_node(&mut self, node: TreeNode)
        ensures
            final(self)@ == tree_with_node(old(self)@, node@),
    {
        proof {
            use_type_invariant(&*self);
        }
        let ghost before = self@;
        let ghost nv = node@;
        let id = text_of(&node.id);
        let name = text_of(&node.name);
        let branch = text_of(&node.branch_name);
        let node_type = node.node_type;
        let mut nodes = node_map_new();
        let mut branch_index: Vec<(String, String)> = Vec::new();
        let mut name_index: Vec<(String, Vec<String>)> = Vec::new();
        let mut type_index: Vec<(NodeType, Vec<String>)> = Vec::new();
        std::mem::swap(&mut branch_index, &mut self.branch_index);
        std::mem::swap(&mut name_index, &mut self.name_index);
        std::mem::swap(&mut type_index, &mut self.type_index);
        std::mem::swap(&mut nodes, &mut self.nodes);
        node_map_insert(&mut nodes, text_of(&id), node);
        upsert_branch(&mut branch_index, branch, text_of(&id));
        append_name_id(&mut name_index, name.as_str(), text_of(&id));
        append_type_id(&mut type_index, node_type, id);
        proof {
            lemma_upsert_keys(before.nodes, nv.id, nv);
            lemma_upsert_pairs(before.branch_index, nv.branch_name, nv.id);
            let t = tree_with_node(before, nv);
            assert forall|i: int| 0 <= i < t.branch_index.len() implies #[trigger] first_key(
                t.nodes,
                t.branch_index[i].1,
            ) is Some by {
                if t.branch_index[i] != (nv.branch_name, nv.id) {
                    let j = choose|j: int|
                        0 <= j < before.branch_index.len() && t.branch_index[i]
                            == before.branch_index[j];
                    assert(first_key(before.nodes, before.branch_index[j].1) is Some);
                }
            }
        }
        self.nodes = nodes;
        self.branch_index = branch_index;
        self.name_index = name_index;
        self.type_index = type_index;
    }

    /// Makes `parent_id` the parent of `child_id`, and `child_id` a child
    /// of `parent_id`, each where the node exists.
    pub fn set_parent(&mut self, child_id: &str, parent_id: &str) -> (r: Result<(), ArmError>)
        ensures
            r is Ok,
            final(self)@ == (TreeView {
                nodes: nodes_with_parent(old(self)@.nodes, child_id@, parent_id@),
                ..old(self)@
            }),
    {
        proof {
            use_type_invariant(&*self);
        }
        let ghost before = self@;
        let mut nodes = node_map_new();
        let mut branch_index: Vec<(String, String)> = Vec::new();
        std::mem::swap(&mut branch_index, &mut self.branch_index);
        std::mem::swap(&mut nodes, &mut self.nodes);
        let ghost n0 = node_entries(nodes);
        let updated_child = match node_map_get(&nodes, child_id) {
            Some(c) => {
                let mut c2 = c.duplicate();
                c2.set_parent(parent_id.to_string());
                Some(c2)
            },
            None => None,
        };
        if let Some(c2) = updated_child {
            node_map_insert(&mut nodes, child_id.to_string(), c2);
        }
        let ghost n1 = node_entries(nodes);
        let updated_parent = match node_map_get(&nodes, parent_id) {
            Some(p) => {
                let mut p2 = p.duplicate();
                p2.add_child(child_id.to_string());
                Some(p2)
            },
            None => None,
        };
        if let Some(p2) = updated_parent {
            node_map_insert(&mut nodes, parent_id.to_string(), p2);
        }
        proof {
            match lookup(n0, child_id@) {
                Some(c) => {
                    lemma_upsert_keys(n0, child_id@, with_parent(c, parent_id@));
                    lemma_upsert_lookup(n0, child_id@, with_parent(c, parent_id@), child_id@);
                },
                None => {},
            }
            match lookup(n1, parent_id@) {
                Some(p) => {
                    lemma_upsert_keys(n1, parent_id@, with_child(p, child_id@));
                },
                None => {},
            }
            assert forall|q: Seq<char>| first_key(n0, q) is Some implies #[trigger] first_key(
                node_entries(nodes),
                q,
            ) is Some by {
                assert(first_key(n1, q) is Some);
            }
            assert forall|i: int| 0 <= i < before.branch_index.len() implies #[trigger] first_key(
                node_entries(nodes),
                before.branch_index[i].1,
            ) is Some by {
                assert(first_key(n0, before.branch_index[i].1) is Some);
            }
        }
        self.nodes = nodes;
        self.branch_index = branch_index;
        Ok(())
    }

    /// The node with the given id.
    pub fn get_node(&self, id: &str) -> (r: Option<&TreeNode>)
        ensures
            match r {
                Some(n) => lookup(self@.nodes, id@) == Some(n@),
                None => lookup(self@.nodes, id@) is None,
            },
    {
        node_map_get(&self.nodes, id)
    }

    /// The node with the given id, to be changed in its place.
    pub fn get_node_mut(&mut self, id: &str) -> (r: Option<&mut TreeNode>)
        ensures
            match r {
                Some(n) => lookup(old(self)@.nodes, id@) == Some((*n)@) && final(self)@ == (TreeView {
                    nodes: upsert(old(self)@.nodes, id@, (*final(n))@),
                    ..old(self)@
                }),
                None => lookup(old(self)@.nodes, id@) is None && final(self)@ == old(self)@,
            },
    {
        proof {
            use_type_invariant(&*self);
            let s = node_entries(self.nodes);
            assert forall|w: NodeView, q: Seq<char>| first_key(s, q) is Some implies #[trigger] first_key(
                upsert(s, id@, w),
                q,
            ) is Some by {
                lemma_upsert_keys(s, id@, w);
            }
        }
        node_map_get_mut(&mut self.nodes, id)
    }

    /// The id of the node of a branch.
    pub fn get_node_id_by_branch(&self, branch_name: &str) -> (r: Option<String>)
        ensures
            opt_text(r) == lookup(self@.branch_index, branch_name@),
    {
        let ghost s = self@.branch_index;
        let mut i: usize = 0;
        while i < self.branch_index.len()
            invariant
                i <= self.branch_index.len(),
                s == pair_texts(self.branch_index@),
                forall|j: int| 0 <= j < i ==> s[j].0 != branch_name@,
            decreases self.branch_index.len() - i,
        {
            if str_eq(self.branch_index[i].0.as_str(), branch_name) {
                proof {
                    lemma_first_key_at(s, branch_name@, i as int);
                }
                return Some(self.branch_index[i].1.clone());
            }
            i = i + 1;
        }
        proof {
            lemma_first_key_none(s, branch_name@);
        }
        None
    }

    /// The node of a branch.
    pub fn get_node_by_branch(&self, branch_name: &str) -> (r: Option<&TreeNode>)
        ensures
            match lookup(self@.branch_index, branch_name@) {
                Some(id) => match r {
                    Some(n) => lookup(self@.nodes, id) == Some(n@),
                    None => lookup(self@.nodes, id) is None,
                },
                None => r is None,
            },
    {
        match self.get_node_id_by_branch(branch_name) {
            Some(id) => self.get_node(id.as_str()),
            None => None,
        }
    }
}


// ---------------------------------------------------------------------------
// Queries
// ---------------------------------------------------------------------------
/// The views of a list of node references.
pub open spec fn node_views(v: Seq<&TreeNode>) -> Seq<NodeView> {
    v.map_values(|n: &TreeNode| n@)
}

pub proof fn lemma_node_views_push(v: Seq<&TreeNode>, n: &TreeNode)
    ensures
        node_views(v.push(n)) == node_views(v).push(n@),
{
    assert(node_views(v.push(n)) =~= node_views(v).push(n@));
}

/// The nodes that the ids name, in order, skipping ids of no node.
pub open spec fn nodes_of(nodes: Seq<(Seq<char>, NodeView)>, ids: Seq<Seq<char>>) -> Seq<NodeView> {
    ids.filter_map(|id: Seq<char>| lookup(nodes, id))
}

/// Whether `text` answers `query`: it contains it, letter case aside, when
/// `fuzzy`; it equals it otherwise.
pub open spec fn text_hit(text: Seq<char>, query: Seq<char>, fuzzy: bool) -> bool {
    if fuzzy {
        contains(lowercase(text), lowercase(query))
    } else {
        text == query
    }
}

/// The ids in order, each kept only the first time it occurs.
pub open spec fn dedup(s: Seq<Seq<char>>) -> Seq<Seq<char>>
    decreases s.len(),
{
    if s.len() == 0 {
        s
    } else {
        let d = dedup(s.drop_last());
        if d.contains(s.last()) {
            d
        } else {
            d.push(s.last())
        }
    }
}

/// The nodes in order, each id kept only the first time it occurs.
pub open spec fn dedup_by_id(s: Seq<NodeView>) -> Seq<NodeView>
    decreases s.len(),
{
    if s.len() == 0 {
        s
    } else {
        let d = dedup_by_id(s.drop_last());
        if ids_of(d).contains(s.last().id) {
            d
        } else {
            d.push(s.last())
        }
    }
}

/// The ids listed under the names that `query` answers, name after name.
pub open spec fn fuzzy_ids(
    index: Seq<(Seq<char>, Seq<Seq<char>>)>,
    query: Seq<char>,
) -> Seq<Seq<char>>
    decreases index.len(),
{
    if index.len() == 0 {
        seq![]
    } else {
        fuzzy_ids(index.drop_last(), query) + if text_hit(index.last().0, query, true) {
            index.last().1
        } else {
            seq![]
        }
    }
}

/// The nodes that `find_by_name` gives.
pub open spec fn found_by_name(t: TreeView, name: Seq<char>, fuzzy: bool) -> Seq<NodeView> {
    if fuzzy {
        nodes_of(t.nodes, fuzzy_ids(t.name_index, name))
    } else {
        match lookup(t.name_index, name) {
            Some(ids) => nodes_of(t.nodes, ids),
            None => seq![],
        }
    }
}

/// All nodes, in order.
pub open spec fn all_nodes(t: TreeView) -> Seq<NodeView> {
    t.nodes.map_values(|e: (Seq<char>, NodeView)| e.1)
}

/// The ids of the branches that `query` answers, in index order.
pub open spec fn branch_hits(
    index: Seq<(Seq<char>, Seq<char>)>,
    query: Seq<char>,
    fuzzy: bool,
) -> Seq<Seq<char>>
    decreases index.len(),
{
    if index.len() == 0 {
        seq![]
    } else {
        branch_hits(index.drop_last(), query, fuzzy) + if text_hit(index.last().0, query, fuzzy) {
            seq![index.last().1]
        } else {
            seq![]
        }
    }
}

/// Whether a node answers a search of the given kind.
pub open spec fn search_hit(n: NodeView, query: Seq<char>, search_type: Seq<char>, fuzzy: bool) -> bool {
    if search_type == "endpoint"@ {
        (n.node_type == NodeType::Endpoint || n.node_type == NodeType::Category) && text_hit(
            n.name,
            query,
            fuzzy,
        )
    } else if search_type == "error"@ {
        n.node_type == NodeType::ErrorCode && text_hit(n.name, query, fuzzy)
    } else {
        text_hit(n.name, query, fuzzy) || text_hit(n.branch_name, query, fuzzy) || text_hit(
            n.id,
            query,
            fuzzy,
        )
    }
}

/// The nodes that answer a search of the given kind, in order.
pub open spec fn node_hits(
    nodes: Seq<NodeView>,
    query: Seq<char>,
    search_type: Seq<char>,
    fuzzy: bool,
) -> Seq<NodeView>
    decreases nodes.len(),
{
    if nodes.len() == 0 {
        seq![]
    } else {
        node_hits(nodes.drop_last(), query, search_type, fuzzy) + if search_hit(
            nodes.last(),
            query,
            search_type,
            fuzzy,
        ) {
            seq![nodes.last()]
        } else {
            seq![]
        }
    }
}

/// The nodes that `search` gives: for `branch`, those of the branches the
/// query answers; otherwise the nodes that answer it; each id once.
pub open spec fn search_result(
    t: TreeView,
    query: Seq<char>,
    search_type: Seq<char>,
    fuzzy: bool,
) -> Seq<NodeView> {
    if search_type == "branch"@ {
        nodes_of(t.nodes, dedup(branch_hits(t.branch_index, query, fuzzy)))
    } else {
        dedup_by_id(node_hits(all_nodes(t), query, search_type, fuzzy))
    }
}

/// The ids of nodes.
pub open spec fn ids_of(s: Seq<NodeView>) -> Seq<Seq<char>> {
    s.map_values(|n: NodeView| n.id)
}

/// Whether a fuzzy query answers a text, given both in lower case: the
/// text contains the query.
pub fn lowered_hit(lowered_text: &str, lowered_query: &str) -> (r: bool)
    ensures
        r == contains(lowered_text@, lowered_query@),
{
    contains_chars(&chars_of(lowered_text), &chars_of(lowered_query))
}

/// Whether `query` answers `text`, as `text_hit` says.
fn text_hit_of(text: &str, query: &str, fuzzy: bool) -> (r: bool)
    ensures
        r == text_hit(text@, query@, fuzzy),
{
    if fuzzy {
        let t = to_lowercase(text);
        let q = to_lowercase(query);
        lowered_hit(t.as_str(), q.as_str())
    } else {
        str_eq(text, query)
    }
}

/// Whether the strings hold `x`.
fn holds(v: &Vec<String>, x: &str) -> (r: bool)
    ensures
        r == strings(v@).contains(x@),
{
    let mut i: usize = 0;
    while i < v.len()
        invariant
            i <= v.len(),
            forall|j: int| 0 <= j < i ==> strings(v@)[j] != x@,
        decreases v.len() - i,
    {
        if str_eq(v[i].as_str(), x) {
            assert(strings(v@)[i as int] == x@);
            return true;
        }
        i = i + 1;
    }
    false
}

impl ApiTree {
    /// Appends the nodes that the ids name.
    fn push_nodes_of<'a>(&'a self, ids: &Vec<String>, out: &mut Vec<&'a TreeNode>)
        ensures
            node_views(final(out)@) == node_views(old(out)@) + nodes_of(self@.nodes, strings(ids@)),
    {
        let ghost sv = strings(ids@);
        let ghost start = node_views(out@);
        let mut i: usize = 0;
        assert(sv.take(0).filter_map(|id: Seq<char>| lookup(self@.nodes, id)) =~= Seq::<
            NodeView,
        >::empty());
        while i < ids.len()
            invariant
                i <= ids.len(),
                sv == strings(ids@),
                node_views(out@) == start + sv.take(i as int).filter_map(
                    |id: Seq<char>| lookup(self@.nodes, id),
                ),
            decreases ids.len() - i,
        {
            proof {
                sv.lemma_filter_map_take_succ(|id: Seq<char>| lookup(self@.nodes, id), i as int);
            }
            assert(sv[i as int] == ids@[i as int]@);
            if let Some(n) = self.get_node(ids[i].as_str()) {
                proof {
                    lemma_node_views_push(out@, n);
                }
                out.push(n);
            }
            i = i + 1;
        }
        assert(sv.take(ids.len() as int) =~= sv);
    }

    /// The nodes with the given name (`fuzzy`: whose name contains it,
    /// letter case aside).
    pub fn find_by_name(&self, name: &str, fuzzy: bool) -> (r: Vec<&TreeNode>)
        ensures
            node_views(r@) == found_by_name(self@, name@, fuzzy),
    {
        let mut results: Vec<&TreeNode> = Vec::new();
        assert(node_views(results@) =~= Seq::<NodeView>::empty());
        if fuzzy {
            let ghost ni = self@.name_index;
            let mut i: usize = 0;
            while i < self.name_index.len()
                invariant
                    i <= self.name_index.len(),
                    ni == name_texts(self.name_index@),
                    ni == self@.name_index,
                    node_views(results@) == nodes_of(self@.nodes, fuzzy_ids(ni.take(i as int), name@)),
                decreases self.name_index.len() - i,
            {
                let ghost t = ni.take(i + 1);
                assert(t.drop_last() =~= ni.take(i as int));
                assert(t.last() == (self.name_index@[i as int].0@, strings(
                    self.name_index@[i as int].1@,
                )));
                let ghost before = fuzzy_ids(ni.take(i as int), name@);
                if text_hit_of(self.name_index[i].0.as_str(), name, true) {
                    self.push_nodes_of(&self.name_index[i].1, &mut results);
                    proof {
                        lemma_filter_map_concat(
                            before,
                            strings(self.name_index@[i as int].1@),
                            |id: Seq<char>| lookup(self@.nodes, id),
                        );
                    }
                } else {
                    assert(fuzzy_ids(t, name@) =~= before);
                }
                i = i + 1;
            }
            assert(ni.take(self.name_index.len() as int) =~= ni);
        } else {
            let ghost ni = self@.name_index;
            let mut i: usize = 0;
            while i < self.name_index.len()
                invariant
                    i <= self.name_index.len(),
                    ni == name_texts(self.name_index@),
                    ni == self@.name_index,
                    results@.len() == 0,
                    !fuzzy,
                    forall|j: int| 0 <= j < i ==> ni[j].0 != name@,
                decreases self.name_index.len() - i,
            {
                if str_eq(self.name_index[i].0.as_str(), name) {
                    proof {
                        lemma_first_key_at(ni, name@, i as int);
                    }
                    assert(node_views(results@) =~= Seq::<NodeView>::empty());
                    assert(ni[i as int].1 == strings(self.name_index@[i as int].1@));
                    self.push_nodes_of(&self.name_index[i].1, &mut results);
                    assert(node_views(results@) =~= nodes_of(self@.nodes, ni[i as int].1));
                    return results;
                }
                i = i + 1;
            }
            proof {
                lemma_first_key_none(ni, name@);
            }
        }
        results
    }

    /// The nodes of the given kind.
    pub fn find_by_type(&self, node_type: NodeType) -> (r: Vec<&TreeNode>)
        ensures
            node_views(r@) == nodes_listed(self@, self@.type_index, node_type),
    {
        let mut results: Vec<&TreeNode> = Vec::new();
        assert(node_views(results@) =~= Seq::<NodeView>::empty());
        let ghost ti = self@.type_index;
        let mut i: usize = 0;
        while i < self.type_index.len()
            invariant
                i <= self.type_index.len(),
                ti == type_texts(self.type_index@),
                ti == self@.type_index,
                results@.len() == 0,
                forall|j: int| 0 <= j < i ==> ti[j].0 != node_type,
            decreases self.type_index.len() - i,
        {
            if self.type_index[i].0 == node_type {
                proof {
                    lemma_first_key_at(ti, node_type, i as int);
                }
                assert(node_views(results@) =~= Seq::<NodeView>::empty());
                assert(ti[i as int].1 == strings(self.type_index@[i as int].1@));
                self.push_nodes_of(&self.type_index[i].1, &mut results);
                assert(node_views(results@) =~= nodes_of(self@.nodes, ti[i as int].1));
                return results;
            }
            i = i + 1;
        }
        proof {
            lemma_first_key_none(ti, node_type);
        }
        results
    }

    /// The children of a node.
    pub fn get_children(&self, node_id: &str) -> (r: Vec<&TreeNode>)
        ensures
            node_views(r@) == match lookup(self@.nodes, node_id@) {
                Some(n) => nodes_of(self@.nodes, n.children),
                None => seq![],
            },
    {
        let mut results: Vec<&TreeNode> = Vec::new();
        assert(node_views(results@) =~= Seq::<NodeView>::empty());
        if let Some(n) = self.get_node(node_id) {
            self.push_nodes_of(&n.children, &mut results);
        }
        results
    }

    /// The parent of a node.
    pub fn get_parent(&self, node_id: &str) -> (r: Option<&TreeNode>)
        ensures
            opt_node(r) == match lookup(self@.nodes, node_id@) {
                Some(n) => match n.parent {
                    Some(p) => lookup(self@.nodes, p),
                    None => None,
                },
                None => None,
            },
    {
        match self.get_node(node_id) {
            Some(n) => match &n.parent {
                Some(p) => self.get_node(p.as_str()),
                None => None,
            },
            None => None,
        }
    }

    /// All nodes, in the order they were first added.
    pub fn get_all_nodes(&self) -> (r: Vec<&TreeNode>)
        ensures
            node_views(r@) == all_nodes(self@),
    {
        let ghost es = self@.nodes;
        let mut results: Vec<&TreeNode> = Vec::new();
        let n = node_map_len(&self.nodes);
        let mut i: usize = 0;
        while i < n
            invariant
                i <= n,
                n == es.len(),
                es == self@.nodes,
                node_views(results@) == es.take(i as int).map_values(
                    |e: (Seq<char>, NodeView)| e.1,
                ),
            decreases n - i,
        {
            if let Some((_, node)) = node_map_get_index(&self.nodes, i) {
                proof {
                    lemma_node_views_push(results@, node);
                }
                results.push(node);
            }
            i = i + 1;
            assert(node_views(results@) =~= es.take(i as int).map_values(
                |e: (Seq<char>, NodeView)| e.1,
            ));
        }
        assert(es.take(n as int) =~= es);
        results
    }
}

/// The view of an optional node.
pub open spec fn opt_node(r: Option<&TreeNode>) -> Option<NodeView> {
    match r {
        Some(n) => Some(n@),
        None => None,
    }
}

/// `filter_map` of a concatenation.
pub proof fn lemma_filter_map_concat<A, B>(a: Seq<A>, b: Seq<A>, f: spec_fn(A) -> Option<B>)
    ensures
        (a + b).filter_map(f) == a.filter_map(f) + b.filter_map(f),
    decreases b.len(),
{
    if b.len() == 0 {
        assert(a + b =~= a);
        assert(b.filter_map(f) =~= Seq::<B>::empty());
        assert(a.filter_map(f) + b.filter_map(f) =~= a.filter_map(f));
    } else {
        lemma_filter_map_concat(a, b.drop_last(), f);
        assert((a + b).drop_last() =~= a + b.drop_last());
        assert((a + b).last() == b.last());
        match f(b.last()) {
            Some(x) => {
                assert(a.filter_map(f) + b.filter_map(f) =~= a.filter_map(f) + b.drop_last().filter_map(f)
                    + seq![x]);
            },
            None => {},
        }
    }
}


/// Whether a node answers a search of the given kind, as `search_hit` says.
fn search_hit_of(n: &TreeNode, query: &str, search_type: &str, fuzzy: bool) -> (r: bool)
    ensures
        r == search_hit(n@, query@, search_type@, fuzzy),
{
    if str_eq(search_type, "endpoint") {
        (n.node_type == NodeType::Endpoint || n.node_type == NodeType::Category) && text_hit_of(
            n.name.as_str(),
            query,
            fuzzy,
        )
    } else if str_eq(search_type, "error") {
        n.node_type == NodeType::ErrorCode && text_hit_of(n.name.as_str(), query, fuzzy)
    } else {
        text_hit_of(n.name.as_str(), query, fuzzy) || text_hit_of(
            n.branch_name.as_str(),
            query,
            fuzzy,
        ) || text_hit_of(n.id.as_str(), query, fuzzy)
    }
}

/// `nodes_of` over one more id.
pub proof fn lemma_nodes_of_push(nodes: Seq<(Seq<char>, NodeView)>, ids: Seq<Seq<char>>, id: Seq<char>)
    ensures
        nodes_of(nodes, ids.push(id)) == nodes_of(nodes, ids) + match lookup(nodes, id) {
            Some(n) => seq![n],
            None => Seq::<NodeView>::empty(),
        },
{
    assert(ids.push(id).drop_last() =~= ids);
    match lookup(nodes, id) {
        Some(n) => {},
        None => {
            assert(nodes_of(nodes, ids) + Seq::<NodeView>::empty() =~= nodes_of(nodes, ids));
        },
    }
}

/// The path up from a node: the node, its parent, the parent's parent ...
/// as far as parents are nodes; `None` where `fuel` steps do not reach the
/// end.
pub open spec fn ancestry(nodes: Seq<(Seq<char>, NodeView)>, id: Seq<char>, fuel: nat) -> Option<
    Seq<NodeView>,
>
    decreases fuel,
{
    match lookup(nodes, id) {
        None => Some(seq![]),
        Some(n) => if fuel == 0 {
            None
        } else {
            match n.parent {
                None => Some(seq![n]),
                Some(p) => match ancestry(nodes, p, (fuel - 1) as nat) {
                    Some(up) => Some(seq![n] + up),
                    None => None,
                },
            }
        },
    }
}

/// More steps give the same path once it is reached.
pub proof fn lemma_ancestry_fuel(nodes: Seq<(Seq<char>, NodeView)>, id: Seq<char>, f: nat, g: nat)
    requires
        f <= g,
        ancestry(nodes, id, f) is Some,
    ensures
        ancestry(nodes, id, g) == ancestry(nodes, id, f),
    decreases f,
{
    match lookup(nodes, id) {
        None => {},
        Some(n) => {
            match n.parent {
                None => {},
                Some(p) => {
                    lemma_ancestry_fuel(nodes, p, (f - 1) as nat, (g - 1) as nat);
                },
            }
        },
    }
}

/// The number of nodes of a kind.
pub open spec fn kind_count(t: TreeView, k: NodeType) -> nat {
    match lookup(t.type_index, k) {
        Some(ids) => ids.len(),
        None => 0,
    }
}

/// The statistics of a tree, in this order: all nodes, error codes,
/// versions, endpoints, categories.
pub open spec fn tree_stats(t: TreeView) -> Seq<(Seq<char>, nat)> {
    seq![
        ("total"@, t.nodes.len()),
        ("error_codes"@, kind_count(t, NodeType::ErrorCode)),
        ("versions"@, kind_count(t, NodeType::Version)),
        ("endpoints"@, kind_count(t, NodeType::Endpoint)),
        ("categories"@, kind_count(t, NodeType::Category)),
    ]
}

/// The texts and numbers of statistics.
pub open spec fn stat_views(v: Seq<(String, usize)>) -> Seq<(Seq<char>, nat)> {
    v.map_values(|p: (String, usize)| (p.0@, p.1 as nat))
}

/// The node with the given files.
pub open spec fn with_files(n: NodeView, files: Seq<Seq<char>>) -> NodeView {
    NodeView { files, ..n }
}

impl ApiTree {
    /// Searches the tree. `branch` looks at branch names, `endpoint` at the
    /// names of endpoints and categories, `error` at those of error codes,
    /// anything else at names, branches and ids. `fuzzy` matches a part,
    /// letter case aside; otherwise the whole text. Each node comes once.
    pub fn search(&self, query: &str, search_type: &str, fuzzy: bool) -> (r: Vec<&TreeNode>)
        ensures
            node_views(r@) == search_result(self@, query@, search_type@, fuzzy),
    {
        let mut results: Vec<&TreeNode> = Vec::new();
        let mut seen: Vec<String> = Vec::new();
        assert(node_views(results@) =~= Seq::<NodeView>::empty());
        assert(strings(seen@) =~= Seq::<Seq<char>>::empty());
        if str_eq(search_type, "branch") {
            let ghost bi = self@.branch_index;
            let mut i: usize = 0;
            assert(bi.take(0) =~= Seq::<(Seq<char>, Seq<char>)>::empty());
            while i < self.branch_index.len()
                invariant
                    i <= self.branch_index.len(),
                    bi == pair_texts(self.branch_index@),
                    bi == self@.branch_index,
                    strings(seen@) == dedup(branch_hits(bi.take(i as int), query@, fuzzy)),
                    node_views(results@) == nodes_of(self@.nodes, strings(seen@)),
                decreases self.branch_index.len() - i,
            {
                let ghost t = bi.take(i + 1);
                assert(t.drop_last() =~= bi.take(i as int));
                assert(t.last() == (self.branch_index@[i as int].0@, self.branch_index@[i as int].1@));
                let ghost h = branch_hits(bi.take(i as int), query@, fuzzy);
                let ghost id = self.branch_index@[i as int].1@;
                if text_hit_of(self.branch_index[i].0.as_str(), query, fuzzy) {
                    assert(branch_hits(t, query@, fuzzy) == h + seq![id]);
                    assert((h + seq![id]).drop_last() =~= h);
                    if !holds(&seen, self.branch_index[i].1.as_str()) {
                        let idc = self.branch_index[i].1.clone();
                        proof {
                            lemma_nodes_of_push(self@.nodes, strings(seen@), id);
                            lemma_strings_push(seen@, idc);
                        }
                        seen.push(idc);
                        match self.get_node(self.branch_index[i].1.as_str()) {
                            Some(n) => {
                                proof {
                                    lemma_node_views_push(results@, n);
                                }
                                results.push(n);
                            },
                            None => {
                                assert(node_views(results@) =~= node_views(results@) + Seq::<
                                    NodeView,
                                >::empty());
                            },
                        }
                    }
                } else {
                    assert(branch_hits(t, query@, fuzzy) =~= h);
                }
                i = i + 1;
            }
            assert(bi.take(self.branch_index.len() as int) =~= bi);
        } else {
            let ghost es = self@.nodes;
            let ghost all = all_nodes(self@);
            let n = node_map_len(&self.nodes);
            let mut i: usize = 0;
            assert(all.take(0) =~= Seq::<NodeView>::empty());
            while i < n
                invariant
                    i <= n,
                    n == es.len(),
                    es == self@.nodes,
                    all == all_nodes(self@),
                    all.len() == es.len(),
                    search_type@ != "branch"@,
                    node_views(results@) == dedup_by_id(
                        node_hits(all.take(i as int), query@, search_type@, fuzzy),
                    ),
                    strings(seen@) == ids_of(node_views(results@)),
                decreases n - i,
            {
                let ghost t = all.take(i + 1);
                assert(t.drop_last() =~= all.take(i as int));
                let ghost h = node_hits(all.take(i as int), query@, search_type@, fuzzy);
                if let Some((_, node)) = node_map_get_index(&self.nodes, i) {
                    assert(t.last() == node@);
                    if search_hit_of(node, query, search_type, fuzzy) {
                        assert(node_hits(t, query@, search_type@, fuzzy) == h + seq![node@]);
                        assert((h + seq![node@]).drop_last() =~= h);
                        if !holds(&seen, node.id.as_str()) {
                            let idc = node.id.clone();
                            proof {
                                lemma_strings_push(seen@, idc);
                                lemma_node_views_push(results@, node);
                            }
                            seen.push(idc);
                            results.push(node);
                            assert(ids_of(node_views(results@)) =~= strings(seen@));
                        }
                    } else {
                        assert(node_hits(t, query@, search_type@, fuzzy) =~= h);
                    }
                }
                i = i + 1;
            }
            assert(all.take(n as int) =~= all);
        }
        results
    }

    /// The path from the top of the tree down to a node: its ancestors as
    /// far as they are nodes, then the node. Empty for an id of no node; in
    /// a tree that stores each node under its own id, it ends at the node
    /// with the id asked for.
    pub fn get_path_to_root(&self, node_id: &str) -> (r: Vec<&TreeNode>)
        requires
            exists|f: nat| #[trigger] ancestry(self@.nodes, node_id@, f) is Some,
        ensures
            forall|f: nat|
                #[trigger] ancestry(self@.nodes, node_id@, f) is Some ==> node_views(r@) == ancestry(
                    self@.nodes,
                    node_id@,
                    f,
                )->0.reverse(),
            r@.len() == 0 <==> lookup(self@.nodes, node_id@) is None,
            ids_keyed(self@.nodes) && lookup(self@.nodes, node_id@) is Some ==> r@.len() > 0
                && r@.last()@.id == node_id@,
    {
        let ghost nodes = self@.nodes;
        let ghost f0 = choose|f: nat| #[trigger] ancestry(nodes, node_id@, f) is Some;
        let ghost full = ancestry(nodes, node_id@, f0)->0;
        let mut path: Vec<&TreeNode> = Vec::new();
        let mut current = self.get_node(node_id);
        let ghost mut cur: Option<Seq<char>> = Some(node_id@);
        let ghost mut fuel: nat = f0;
        assert(node_views(path@) =~= Seq::<NodeView>::empty());
        assert(full =~= node_views(path@) + full);
        loop
            invariant
                nodes == self@.nodes,
                full == node_views(path@) + match cur {
                    Some(c) => ancestry(nodes, c, fuel)->0,
                    None => Seq::<NodeView>::empty(),
                },
                match cur {
                    Some(c) => opt_node(current) == lookup(nodes, c) && ancestry(nodes, c, fuel) is Some,
                    None => current is None,
                },
            ensures
                node_views(path@) == full,
            decreases fuel,
        {
            match current {
                None => {
                    proof {
                        match cur {
                            Some(c) => {
                                assert(ancestry(nodes, c, fuel)->0 =~= Seq::<NodeView>::empty());
                            },
                            None => {},
                        }
                        assert(node_views(path@) =~= full);
                    }
                    break;
                },
                Some(node) => {
                    let ghost c = cur->0;
                    let ghost up = ancestry(nodes, c, fuel)->0;
                    proof {
                        lemma_node_views_push(path@, node);
                    }
                    path.push(node);
                    match &node.parent {
                        Some(p) => {
                            assert(up == seq![node@] + ancestry(nodes, p@, (fuel - 1) as nat)->0);
                            proof {
                                cur = Some(p@);
                                fuel = (fuel - 1) as nat;
                            }
                            current = self.get_node(p.as_str());
                        },
                        None => {
                            assert(up == seq![node@]);
                            proof {
                                cur = None;
                                fuel = (fuel - 1) as nat;
                            }
                            current = None;
                        },
                    }
                    assert(full =~= node_views(path@) + match cur {
                        Some(c) => ancestry(nodes, c, fuel)->0,
                        None => Seq::<NodeView>::empty(),
                    });
                },
            }
        }
        assert(node_views(path@) =~= full);
        let mut rev: Vec<&TreeNode> = Vec::new();
        let mut k: usize = path.len();
        assert(node_views(rev@) =~= full.skip(k as int).reverse());
        while k > 0
            invariant
                k <= path.len(),
                node_views(path@) == full,
                node_views(rev@) == full.skip(k as int).reverse(),
            decreases k,
        {
            k = k - 1;
            proof {
                lemma_node_views_push(rev@, path@[k as int]);
            }
            rev.push(path[k]);
            assert(full.skip(k as int).reverse() =~= full.skip(k + 1).reverse().push(full[k as int]));
        }
        assert(full.skip(0) =~= full);
        proof {
            assert forall|f: nat| #[trigger] ancestry(nodes, node_id@, f) is Some implies node_views(
                rev@,
            ) == ancestry(nodes, node_id@, f)->0.reverse() by {
                if f <= f0 {
                    lemma_ancestry_fuel(nodes, node_id@, f, f0);
                } else {
                    lemma_ancestry_fuel(nodes, node_id@, f0, f);
                }
            }
            assert(node_views(rev@) == full.reverse());
            assert(rev@.len() == full.len());
            match lookup(nodes, node_id@) {
                None => {},
                Some(n) => {
                    assert(full[0] == n);
                    assert(node_views(rev@)[rev@.len() - 1] == full[0]);
                    assert(rev@.last()@ == node_views(rev@)[rev@.len() - 1]);
                    if ids_keyed(nodes) {
                        lemma_lookup_keyed(nodes, node_id@);
                    }
                },
            }
        }
        rev
    }

    /// The number of nodes of a kind.
    fn kind_count_of(&self, k: NodeType) -> (r: usize)
        ensures
            r == kind_count(self@, k),
    {
        let ghost ti = self@.type_index;
        let mut i: usize = 0;
        while i < self.type_index.len()
            invariant
                i <= self.type_index.len(),
                ti == type_texts(self.type_index@),
                ti == self@.type_index,
                forall|j: int| 0 <= j < i ==> ti[j].0 != k,
            decreases self.type_index.len() - i,
        {
            if self.type_index[i].0 == k {
                proof {
                    lemma_first_key_at(ti, k, i as int);
                }
                return self.type_index[i].1.len();
            }
            i = i + 1;
        }
        proof {
            lemma_first_key_none(ti, k);
        }
        0
    }

    /// How many nodes the tree holds, all together and of the kinds that
    /// are counted.
    pub fn get_stats(&self) -> (r: Vec<(String, usize)>)
        ensures
            stat_views(r@) == tree_stats(self@),
    {
        let mut r: Vec<(String, usize)> = Vec::new();
        r.push(("total".to_string(), node_map_len(&self.nodes)));
        r.push(("error_codes".to_string(), self.kind_count_of(NodeType::ErrorCode)));
        r.push(("versions".to_string(), self.kind_count_of(NodeType::Version)));
        r.push(("endpoints".to_string(), self.kind_count_of(NodeType::Endpoint)));
        r.push(("categories".to_string(), self.kind_count_of(NodeType::Category)));
        assert(stat_views(r@) =~= tree_stats(self@));
        r
    }

    /// The branches of the index and the ids of their nodes.
    pub fn branch_pairs(&self) -> (r: Vec<(String, String)>)
        ensures
            pair_texts(r@) == self@.branch_index,
    {
        let mut r: Vec<(String, String)> = Vec::new();
        let mut i: usize = 0;
        while i < self.branch_index.len()
            invariant
                i <= self.branch_index.len(),
                pair_texts(r@) == pair_texts(self.branch_index@).take(i as int),
            decreases self.branch_index.len() - i,
        {
            let b = text_of(&self.branch_index[i].0);
            let id = text_of(&self.branch_index[i].1);
            let ghost before = r@;
            r.push((b, id));
            assert(r@ == before.push((b, id)));
            assert(pair_texts(r@) =~= pair_texts(before).push(
                (self.branch_index@[i as int].0@, self.branch_index@[i as int].1@),
            ));
            i = i + 1;
            assert(pair_texts(r@) =~= pair_texts(self.branch_index@).take(i as int));
        }
        assert(pair_texts(self.branch_index@).take(i as int) =~= pair_texts(self.branch_index@));
        r
    }

    /// Sets the files of a node, where the node exists.
    pub fn set_files(&mut self, node_id: &str, files: Vec<String>)
        ensures
            final(self)@ == (TreeView {
                nodes: match lookup(old(self)@.nodes, node_id@) {
                    Some(n) => upsert(old(self)@.nodes, node_id@, with_files(n, strings(files@))),
                    None => old(self)@.nodes,
                },
                ..old(self)@
            }),
    {
        proof {
            use_type_invariant(&*self);
        }
        let ghost before = self@;
        let mut nodes = node_map_new();
        let mut branch_index: Vec<(String, String)> = Vec::new();
        std::mem::swap(&mut branch_index, &mut self.branch_index);
        std::mem::swap(&mut nodes, &mut self.nodes);
        let ghost n0 = node_entries(nodes);
        let updated = match node_map_get(&nodes, node_id) {
            Some(c) => {
                let mut c2 = c.duplicate();
                c2.files = files;
                Some(c2)
            },
            None => None,
        };
        if let Some(c2) = updated {
            proof {
                lemma_upsert_keys(n0, node_id@, c2@);
            }
            node_map_insert(&mut nodes, node_id.to_string(), c2);
            assert forall|i: int| 0 <= i < before.branch_index.len() implies #[trigger] first_key(
                node_entries(nodes),
                before.branch_index[i].1,
            ) is Some by {
                assert(first_key(n0, before.branch_index[i].1) is Some);
            }
        }
        self.nodes = nodes;
        self.branch_index = branch_index;
    }
}

impl Default for ApiTree {
    /// An empty tree.
    fn default() -> (t: ApiTree)
        ensures
            t@ == empty_tree(),
    {
        ApiTree::new()
    }
}

// ---------------------------------------------------------------------------
// Building the tree from classified branches
// ---------------------------------------------------------------------------
/// The tree with no node.
pub open spec fn empty_tree() -> TreeView {
    TreeView { nodes: seq![], branch_index: seq![], name_index: seq![], type_index: seq![] }
}

/// The id of a branch's node: the name of its kind, a dash, the branch.
pub open spec fn node_id_of(t: NodeType, name: Seq<char>) -> Seq<char> {
    node_type_label(t) + "-"@ + name
}

/// The node of a classified branch.
pub open spec fn info_node(x: (Seq<char>, NodeType, Option<Seq<char>>)) -> NodeView {
    fresh_node(node_id_of(x.1, x.0), x.0, x.1, x.0)
}

/// The tree once the nodes of the branches are added, in order.
pub open spec fn add_all(t: TreeView, infos: Seq<(Seq<char>, NodeType, Option<Seq<char>>)>) -> TreeView
    decreases infos.len(),
{
    if infos.len() == 0 {
        t
    } else {
        tree_with_node(add_all(t, infos.drop_last()), info_node(infos.last()))
    }
}

/// The tree once a branch's node is linked to the node of its parent
/// branch, where that branch has a node.
pub open spec fn link(t: TreeView, x: (Seq<char>, NodeType, Option<Seq<char>>)) -> TreeView {
    match x.2 {
        Some(p) => match lookup(t.branch_index, p) {
            Some(pid) => TreeView { nodes: nodes_with_parent(t.nodes, node_id_of(x.1, x.0), pid), ..t },
            None => t,
        },
        None => t,
    }
}

/// The tree once the branches are linked, in order.
pub open spec fn link_all(t: TreeView, infos: Seq<(Seq<char>, NodeType, Option<Seq<char>>)>) -> TreeView
    decreases infos.len(),
{
    if infos.len() == 0 {
        t
    } else {
        link(link_all(t, infos.drop_last()), infos.last())
    }
}

/// The tree of the branches, taken in the order given: all nodes first,
/// then the links to parents.
pub open spec fn tree_of_infos(infos: Seq<(Seq<char>, NodeType, Option<Seq<char>>)>) -> TreeView {
    link_all(add_all(empty_tree(), infos), infos)
}

/// The id of a branch's node.
fn node_id_text(t: NodeType, name: &str) -> (r: String)
    ensures
        r@ == node_id_of(t, name@),
{
    let mut s = String::new();
    s.append(t.as_str());
    s.append("-");
    s.append(name);
    s
}

impl ApiTree {
    /// The tree of the classified branches: they are put in order (fewer
    /// dashes first, then by name), a node is added for each, then each is
    /// linked to the node of its parent branch.
    pub fn tree_from_infos(infos: Vec<BranchInfo>) -> (t: ApiTree)
        ensures
            t@ == tree_of_infos(sort_infos(info_views(infos@))),
    {
        let sorted = sort_branch_infos(infos);
        let ghost sv = info_views(sorted@);
        let mut tree = ApiTree::new();
        let mut i: usize = 0;
        assert(sv.take(0) =~= Seq::<(Seq<char>, NodeType, Option<Seq<char>>)>::empty());
        while i < sorted.len()
            invariant
                i <= sorted.len(),
                sv == info_views(sorted@),
                tree@ == add_all(empty_tree(), sv.take(i as int)),
            decreases sorted.len() - i,
        {
            let b = &sorted[i];
            assert(b@ == sv[i as int]);
            let id = node_id_text(b.node_type, b.name.as_str());
            let node = TreeNode::new(id, b.name.clone(), b.node_type, b.name.clone());
            tree.add_node(node);
            assert(sv.take(i + 1).drop_last() =~= sv.take(i as int));
            i = i + 1;
        }
        assert(sv.take(sorted.len() as int) =~= sv);
        let ghost base = tree@;
        let mut j: usize = 0;
        assert(sv.take(0) =~= Seq::<(Seq<char>, NodeType, Option<Seq<char>>)>::empty());
        while j < sorted.len()
            invariant
                j <= sorted.len(),
                sv == info_views(sorted@),
                tree@ == link_all(base, sv.take(j as int)),
                tree@.branch_index == base.branch_index,
            decreases sorted.len() - j,
        {
            let b = &sorted[j];
            assert(b@ == sv[j as int]);
            assert(sv.take(j + 1).drop_last() =~= sv.take(j as int));
            if let Some(p) = &b.parent {
                let child_id = node_id_text(b.node_type, b.name.as_str());
                if let Some(pid) = tree.get_node_id_by_branch(p.as_str()) {
                    let _ = tree.set_parent(child_id.as_str(), pid.as_str());
                }
            }
            j = j + 1;
        }
        assert(sv.take(sorted.len() as int) =~= sv);
        tree
    }
}

// ---------------------------------------------------------------------------
// Laws
// ---------------------------------------------------------------------------
/// After a node is added, its id leads to it, its branch leads to its id,
/// and its id is the last one listed under its name and under its kind.
pub proof fn law_tree_read_after_add(t: TreeView, n: NodeView)
    ensures
        lookup(tree_with_node(t, n).nodes, n.id) == Some(n),
        lookup(tree_with_node(t, n).branch_index, n.branch_name) == Some(n.id),
        lookup(tree_with_node(t, n).name_index, n.name) is Some,
        lookup(tree_with_node(t, n).name_index, n.name)->0.last() == n.id,
        lookup(tree_with_node(t, n).type_index, n.node_type) is Some,
        lookup(tree_with_node(t, n).type_index, n.node_type)->0.last() == n.id,
{
    lemma_upsert_lookup(t.nodes, n.id, n, n.id);
    lemma_upsert_lookup(t.branch_index, n.branch_name, n.id, n.branch_name);
    lemma_append_to_lookup(t.name_index, n.name, n.id);
    lemma_append_to_lookup(t.type_index, n.node_type, n.id);
}

/// Adding a node leaves every other id, branch, name and kind as it was.
pub proof fn law_tree_add_keeps_others(t: TreeView, n: NodeView, id: Seq<char>, branch: Seq<char>)
    requires
        id != n.id,
        branch != n.branch_name,
    ensures
        lookup(tree_with_node(t, n).nodes, id) == lookup(t.nodes, id),
        lookup(tree_with_node(t, n).branch_index, branch) == lookup(t.branch_index, branch),
{
    lemma_upsert_lookup(t.nodes, n.id, n, id);
    lemma_upsert_lookup(t.branch_index, n.branch_name, n.id, branch);
}

/// `append_to` puts the value last in the list of its key.
pub proof fn lemma_append_to_lookup<K, X>(s: Seq<(K, Seq<X>)>, k: K, x: X)
    ensures
        lookup(append_to(s, k, x), k) is Some,
        lookup(append_to(s, k, x), k)->0.last() == x,
{
    lemma_first_key(s, k);
    let t = append_to(s, k, x);
    match first_key(s, k) {
        Some(i) => {
            lemma_first_key_at(t, k, i);
        },
        None => {
            assert forall|j: int| 0 <= j < s.len() implies t[j].0 != k by {
                assert(t[j] == s[j]);
            }
            lemma_first_key_at(t, k, s.len() as int);
        },
    }
}

/// Once linked, a child (other than its parent) has the parent as its
/// parent, and the parent lists the child among its children; where both
/// are nodes.
pub proof fn law_parent_link(nodes: Seq<(Seq<char>, NodeView)>, child: Seq<char>, parent: Seq<char>)
    requires
        child != parent,
        lookup(nodes, child) is Some,
        lookup(nodes, parent) is Some,
    ensures
        lookup(nodes_with_parent(nodes, child, parent), child) is Some,
        lookup(nodes_with_parent(nodes, child, parent), child)->0.parent == Some(parent),
        lookup(nodes_with_parent(nodes, child, parent), parent) is Some,
        lookup(nodes_with_parent(nodes, child, parent), parent)->0.children.contains(child),
{
    let c = lookup(nodes, child)->0;
    let first = upsert(nodes, child, with_parent(c, parent));
    lemma_upsert_lookup(nodes, child, with_parent(c, parent), child);
    lemma_upsert_lookup(nodes, child, with_parent(c, parent), parent);
    let p = lookup(first, parent)->0;
    lemma_upsert_lookup(first, parent, with_child(p, child), child);
    lemma_upsert_lookup(first, parent, with_child(p, child), parent);
    if !p.children.contains(child) {
        assert(p.children.push(child)[p.children.len() as int] == child);
    }
}

/// What a sequence holds is what it holds without its last element, and
/// that element.
pub proof fn lemma_contains_last<A>(s: Seq<A>, x: A)
    requires
        s.len() > 0,
    ensures
        s.contains(x) <==> (s.drop_last().contains(x) || x == s.last()),
{
    if s.contains(x) && x != s.last() {
        let k = choose|k: int| 0 <= k < s.len() && s[k] == x;
        assert(s.drop_last()[k] == x);
    }
    if s.drop_last().contains(x) {
        let k = choose|k: int| 0 <= k < s.len() - 1 && s.drop_last()[k] == x;
        assert(s[k] == x);
    }
    if x == s.last() {
        assert(s[s.len() - 1] == x);
    }
}

/// Pushing onto a sequence with no duplicates something it lacks leaves
/// none.
pub proof fn lemma_push_distinct<A>(s: Seq<A>, x: A)
    requires
        s.no_duplicates(),
        !s.contains(x),
    ensures
        s.push(x).no_duplicates(),
{
    let e = s.push(x);
    assert forall|i: int, j: int| 0 <= i < e.len() && 0 <= j < e.len() && i != j implies e[i] != e[j] by {
        if j == s.len() {
            assert(s[i] == e[i]);
        }
        if i == s.len() {
            assert(s[j] == e[j]);
        }
    }
}

/// Keeping each id once leaves no id twice, and drops no id.
pub proof fn lemma_dedup_distinct(s: Seq<Seq<char>>)
    ensures
        dedup(s).no_duplicates(),
        forall|x: Seq<char>| #[trigger] dedup(s).contains(x) <==> s.contains(x),
    decreases s.len(),
{
    if s.len() > 0 {
        lemma_dedup_distinct(s.drop_last());
        let d = dedup(s.drop_last());
        let l = s.last();
        assert forall|x: Seq<char>| #[trigger] dedup(s).contains(x) <==> s.contains(x) by {
            lemma_contains_last(s, x);
            if !d.contains(l) {
                lemma_contains_last(d.push(l), x);
                assert(d.push(l).drop_last() =~= d);
            }
        }
        if !d.contains(l) {
            lemma_push_distinct(d, l);
        }
    }
}

/// Keeping each node's id once leaves no id twice, and drops no id.
pub proof fn lemma_dedup_by_id_distinct(s: Seq<NodeView>)
    ensures
        ids_of(dedup_by_id(s)).no_duplicates(),
        forall|x: Seq<char>| #[trigger] ids_of(dedup_by_id(s)).contains(x) <==> ids_of(s).contains(x),
    decreases s.len(),
{
    if s.len() > 0 {
        lemma_dedup_by_id_distinct(s.drop_last());
        let d = dedup_by_id(s.drop_last());
        assert(ids_of(s.drop_last()) =~= ids_of(s).drop_last());
        let l = s.last().id;
        assert(ids_of(s).last() == l);
        assert(ids_of(d.push(s.last())) =~= ids_of(d).push(l));
        assert forall|x: Seq<char>| #[trigger] ids_of(dedup_by_id(s)).contains(x) <==> ids_of(
            s,
        ).contains(x) by {
            lemma_contains_last(ids_of(s), x);
            if !ids_of(d).contains(l) {
                lemma_contains_last(ids_of(d).push(l), x);
                assert(ids_of(d).push(l).drop_last() =~= ids_of(d));
            }
        }
        if !ids_of(d).contains(l) {
            lemma_push_distinct(ids_of(d), l);
        }
    }
}

/// A search of any kind but `branch` gives each node's id at most once,
/// and a `branch` search looks up each id at most once.
pub proof fn law_search_each_once(t: TreeView, query: Seq<char>, search_type: Seq<char>, fuzzy: bool)
    ensures
        search_type != "branch"@ ==> ids_of(search_result(t, query, search_type, fuzzy)).no_duplicates(),
        search_type == "branch"@ ==> dedup(branch_hits(t.branch_index, query, fuzzy)).no_duplicates(),
{
    lemma_dedup_distinct(branch_hits(t.branch_index, query, fuzzy));
    lemma_dedup_by_id_distinct(node_hits(all_nodes(t), query, search_type, fuzzy));
}

/// The path to a node that exists ends at the node itself.
pub proof fn law_path_ends_at_node(nodes: Seq<(Seq<char>, NodeView)>, id: Seq<char>, f: nat)
    requires
        ancestry(nodes, id, f) is Some,
        lookup(nodes, id) is Some,
    ensures
        ancestry(nodes, id, f)->0.len() > 0,
        ancestry(nodes, id, f)->0.reverse().last() == lookup(nodes, id)->0,
{
}

/// The path up from a node links each node to the next by its parent: every
/// node but the last has a parent, and that parent's id leads to the next
/// node; the last node has no parent, or one that is no node.
pub proof fn law_path_follows_parents(nodes: Seq<(Seq<char>, NodeView)>, id: Seq<char>, f: nat)
    requires
        ancestry(nodes, id, f) is Some,
    ensures
        ({
            let a = ancestry(nodes, id, f)->0;
            &&& forall|i: int|
                0 <= i < a.len() - 1 ==> (#[trigger] a[i]).parent is Some && lookup(
                    nodes,
                    a[i].parent->0,
                ) == Some(a[i + 1])
            &&& a.len() > 0 ==> (a.last().parent is None || lookup(nodes, a.last().parent->0) is None)
        }),
    decreases f,
{
    let a = ancestry(nodes, id, f)->0;
    match lookup(nodes, id) {
        None => {},
        Some(n) => {
            if f > 0 {
                match n.parent {
                    None => {},
                    Some(p) => {
                        law_path_follows_parents(nodes, p, (f - 1) as nat);
                        let up = ancestry(nodes, p, (f - 1) as nat)->0;
                        assert(a == seq![n] + up);
                        assert forall|i: int| 0 <= i < a.len() - 1 implies (#[trigger] a[i]).parent is Some
                            && lookup(nodes, a[i].parent->0) == Some(a[i + 1]) by {
                            if i == 0 {
                                assert(a[1] == up[0]);
                                match lookup(nodes, p) {
                                    None => {},
                                    Some(pn) => {
                                        assert(up[0] == pn);
                                    },
                                }
                            } else {
                                assert(a[i] == up[i - 1]);
                                assert(a[i + 1] == up[i]);
                            }
                        }
                        if up.len() > 0 {
                            assert(a.last() == up.last());
                        } else {
                            assert(a.last() == n);
                        }
                    },
                }
            }
        },
    }
}

/// Adding a child twice is adding it once, and a node's metadata gives
/// back the value last set for a key.
pub proof fn law_node_updates(n: NodeView, child: Seq<char>, key: Seq<char>, value: Seq<char>)
    ensures
        with_child(with_child(n, child), child) == with_child(n, child),
        with_child(n, child).children.contains(child),
        lookup(with_metadata(n, key, value).metadata, key) == Some(value),
{
    lemma_upsert_lookup(n.metadata, key, value, key);
    if !n.children.contains(child) {
        assert(n.children.push(child)[n.children.len() as int] == child);
    }
}

// ---------------------------------------------------------------------------
// The built tree links each branch to its parent branch
// ---------------------------------------------------------------------------
/// The kind a name of a kind stands for.
pub open spec fn label_kind(l: Seq<char>) -> Option<NodeType> {
    if l == "root"@ {
        Some(NodeType::Root)
    } else if l == "api_root"@ {
        Some(NodeType::ApiRoot)
    } else if l == "error_root"@ {
        Some(NodeType::ErrorRoot)
    } else if l == "version"@ {
        Some(NodeType::Version)
    } else if l == "endpoint"@ {
        Some(NodeType::Endpoint)
    } else if l == "error_code"@ {
        Some(NodeType::ErrorCode)
    } else if l == "category"@ {
        Some(NodeType::Category)
    } else {
        None
    }
}

/// Each kind is told by its name.
pub proof fn lemma_label_kind(t: NodeType)
    ensures
        label_kind(node_type_label(t)) == Some(t),
{
    reveal_strlit("root");
    reveal_strlit("api_root");
    reveal_strlit("error_root");
    reveal_strlit("version");
    reveal_strlit("endpoint");
    reveal_strlit("error_code");
    reveal_strlit("category");
    if t == NodeType::Root {
        assert(label_kind(node_type_label(t)) == Some(t));
    } else if t == NodeType::ApiRoot {
        assert("api_root"@[0] != "root"@[0]);
        assert(label_kind(node_type_label(t)) == Some(t));
    } else if t == NodeType::ErrorRoot {
        assert("error_root"@.len() != "api_root"@.len());
        assert(label_kind(node_type_label(t)) == Some(t));
    } else if t == NodeType::Version {
        assert("version"@.len() != "root"@.len());
        assert("version"@.len() != "api_root"@.len());
        assert("version"@.len() != "error_root"@.len());
        assert(label_kind(node_type_label(t)) == Some(t));
    } else if t == NodeType::Endpoint {
        assert("endpoint"@.len() != "root"@.len());
        assert("endpoint"@[0] != "api_root"@[0]);
        assert("endpoint"@.len() != "error_root"@.len());
        assert("endpoint"@.len() != "version"@.len());
        assert(label_kind(node_type_label(t)) == Some(t));
    } else if t == NodeType::ErrorCode {
        assert("error_code"@.len() != "root"@.len());
        assert("error_code"@.len() != "api_root"@.len());
        assert("error_code"@[6] != "error_root"@[6]);
        assert("error_code"@.len() != "version"@.len());
        assert("error_code"@.len() != "endpoint"@.len());
        assert(label_kind(node_type_label(t)) == Some(t));
    } else {
        assert("category"@.len() != "root"@.len());
        assert("category"@[0] != "api_root"@[0]);
        assert("category"@.len() != "error_root"@.len());
        assert("category"@.len() != "version"@.len());
        assert("category"@[0] != "endpoint"@[0]);
        assert("category"@.len() != "error_code"@.len());
        assert(label_kind(node_type_label(t)) == Some(t));
    }
}

/// The names of the kinds hold no dash, so a node's id tells its kind and
/// its branch apart.
pub proof fn lemma_node_id_injective(t1: NodeType, n1: Seq<char>, t2: NodeType, n2: Seq<char>)
    requires
        node_id_of(t1, n1) == node_id_of(t2, n2),
    ensures
        t1 == t2,
        n1 == n2,
{
    reveal_strlit("root");
    reveal_strlit("api_root");
    reveal_strlit("error_root");
    reveal_strlit("version");
    reveal_strlit("endpoint");
    reveal_strlit("error_code");
    reveal_strlit("category");
    reveal_strlit("-");
    let l1 = node_type_label(t1);
    let l2 = node_type_label(t2);
    let id = node_id_of(t1, n1);
    assert(id == l1 + "-"@ + n1);
    assert(id == l2 + "-"@ + n2);
    assert(lacks(l1, '-'));
    assert(lacks(l2, '-'));
    if l1.len() < l2.len() {
        assert(id[l1.len() as int] == '-');
        assert(id[l1.len() as int] == l2[l1.len() as int]);
    }
    if l2.len() < l1.len() {
        assert(id[l2.len() as int] == '-');
        assert(id[l2.len() as int] == l1[l2.len() as int]);
    }
    assert(l1 =~= id.take(l1.len() as int));
    assert(l2 =~= id.take(l2.len() as int));
    assert(n1 =~= id.skip(l1.len() as int + 1));
    assert(n2 =~= id.skip(l2.len() as int + 1));
    lemma_label_kind(t1);
    lemma_label_kind(t2);
}

/// The parent a branch's node is linked to in the tree `t`: the node of its
/// parent branch, where that branch has one.
pub open spec fn expected_parent(t: TreeView, x: (Seq<char>, NodeType, Option<Seq<char>>)) -> Option<
    Seq<char>,
> {
    match x.2 {
        Some(p) => lookup(t.branch_index, p),
        None => None,
    }
}

/// Whether in `t` the branch leads to its node, and that node is linked
/// to the node of the branch's parent branch.
pub open spec fn branch_linked(t: TreeView, x: (Seq<char>, NodeType, Option<Seq<char>>)) -> bool {
    &&& lookup(t.branch_index, x.0) == Some(node_id_of(x.1, x.0))
    &&& lookup(t.nodes, node_id_of(x.1, x.0)) is Some
    &&& lookup(t.nodes, node_id_of(x.1, x.0))->0.parent == expected_parent(t, x)
}

/// After the nodes of branches with distinct names are added, each branch
/// leads to its node, found fresh under its id.
pub proof fn lemma_add_all(s: Seq<(Seq<char>, NodeType, Option<Seq<char>>)>)
    requires
        names_distinct(s),
    ensures
        forall|j: int|
            0 <= j < s.len() ==> #[trigger] lookup(
                add_all(empty_tree(), s).nodes,
                node_id_of(s[j].1, s[j].0),
            ) == Some(info_node(s[j])) && lookup(add_all(empty_tree(), s).branch_index, s[j].0)
                == Some(node_id_of(s[j].1, s[j].0)),
    decreases s.len(),
{
    if s.len() > 0 {
        let p = s.drop_last();
        let x = s.last();
        assert forall|i: int, j: int| 0 <= i < p.len() && 0 <= j < p.len() && i != j implies p[i].0
            != p[j].0 by {
            assert(p[i] == s[i] && p[j] == s[j]);
        }
        lemma_add_all(p);
        let t = add_all(empty_tree(), p);
        let xid = node_id_of(x.1, x.0);
        assert forall|j: int| 0 <= j < s.len() implies #[trigger] lookup(
            add_all(empty_tree(), s).nodes,
            node_id_of(s[j].1, s[j].0),
        ) == Some(info_node(s[j])) && lookup(add_all(empty_tree(), s).branch_index, s[j].0) == Some(
            node_id_of(s[j].1, s[j].0),
        ) by {
            let jid = node_id_of(s[j].1, s[j].0);
            lemma_upsert_lookup(t.nodes, xid, info_node(x), jid);
            lemma_upsert_lookup(t.branch_index, x.0, xid, s[j].0);
            if j < s.len() - 1 {
                assert(p[j] == s[j]);
                assert(s[j].0 != x.0);
                if jid == xid {
                    lemma_node_id_injective(s[j].1, s[j].0, x.1, x.0);
                }
            }
        }
    }
}

/// Linking the branches one after another: each linked branch's node gets
/// the node of its parent branch as parent, and the others keep none.
pub proof fn lemma_link_all(base: TreeView, s: Seq<(Seq<char>, NodeType, Option<Seq<char>>)>, k: int)
    requires
        names_distinct(s),
        0 <= k <= s.len(),
        forall|j: int|
            0 <= j < s.len() ==> #[trigger] lookup(base.nodes, node_id_of(s[j].1, s[j].0)) is Some
                && lookup(base.nodes, node_id_of(s[j].1, s[j].0))->0.parent is None,
    ensures
        link_all(base, s.take(k)).branch_index == base.branch_index,
        forall|j: int|
            0 <= j < s.len() ==> #[trigger] lookup(
                link_all(base, s.take(k)).nodes,
                node_id_of(s[j].1, s[j].0),
            ) is Some && lookup(link_all(base, s.take(k)).nodes, node_id_of(s[j].1, s[j].0))->0.parent
                == if j < k {
                expected_parent(base, s[j])
            } else {
                None
            },
    decreases k,
{
    if k == 0 {
        assert(s.take(0) =~= Seq::<(Seq<char>, NodeType, Option<Seq<char>>)>::empty());
    } else {
        lemma_link_all(base, s, k - 1);
        assert(s.take(k).drop_last() =~= s.take(k - 1));
        let t0 = link_all(base, s.take(k - 1));
        let x = s[k - 1];
        assert(s.take(k).last() == x);
        let xid = node_id_of(x.1, x.0);
        let t1 = link_all(base, s.take(k));
        assert(t1 == link(t0, x));
        assert forall|j: int| 0 <= j < s.len() implies #[trigger] lookup(
            t1.nodes,
            node_id_of(s[j].1, s[j].0),
        ) is Some && lookup(t1.nodes, node_id_of(s[j].1, s[j].0))->0.parent == if j < k {
            expected_parent(base, s[j])
        } else {
            None
        } by {
            let cid = node_id_of(s[j].1, s[j].0);
            if j != k - 1 && cid == xid {
                lemma_node_id_injective(s[j].1, s[j].0, x.1, x.0);
            }
            match x.2 {
                Some(p) => match lookup(t0.branch_index, p) {
                    Some(pid) => {
                        let nodes = t0.nodes;
                        let c = lookup(nodes, xid)->0;
                        let first = upsert(nodes, xid, with_parent(c, pid));
                        lemma_upsert_lookup(nodes, xid, with_parent(c, pid), cid);
                        lemma_upsert_lookup(nodes, xid, with_parent(c, pid), pid);
                        match lookup(first, pid) {
                            Some(pn) => {
                                lemma_upsert_lookup(first, pid, with_child(pn, xid), cid);
                            },
                            None => {},
                        }
                    },
                    None => {},
                },
                None => {},
            }
        }
    }
}

/// A tree built from branches with distinct names leads each branch to its
/// node and links that node to the node of the branch's parent branch
/// (where the parent branch is among them).
pub proof fn law_tree_links_parents(s: Seq<(Seq<char>, NodeType, Option<Seq<char>>)>)
    requires
        names_distinct(s),
    ensures
        forall|j: int| 0 <= j < s.len() ==> #[trigger] branch_linked(tree_of_infos(s), s[j]),
{
    let base = add_all(empty_tree(), s);
    lemma_add_all(s);
    assert forall|j: int| 0 <= j < s.len() implies #[trigger] lookup(
        base.nodes,
        node_id_of(s[j].1, s[j].0),
    ) is Some && lookup(base.nodes, node_id_of(s[j].1, s[j].0))->0.parent is None by {
        assert(lookup(base.nodes, node_id_of(s[j].1, s[j].0)) == Some(info_node(s[j])));
    }
    lemma_link_all(base, s, s.len() as int);
    assert(s.take(s.len() as int) =~= s);
    let t = tree_of_infos(s);
    assert forall|j: int| 0 <= j < s.len() implies #[trigger] branch_linked(t, s[j]) by {
        assert(lookup(base.nodes, node_id_of(s[j].1, s[j].0)) == Some(info_node(s[j])));
        assert(lookup(base.branch_index, s[j].0) == Some(node_id_of(s[j].1, s[j].0)));
        assert(lookup(t.nodes, node_id_of(s[j].1, s[j].0)) is Some);
    }
}

/// The tree that `tree_from_infos` builds from branches with distinct names
/// leads each of them to its node and links that node to the node of its
/// parent branch (where the parent branch is among them).
pub proof fn law_built_tree_links(iv: Seq<(Seq<char>, NodeType, Option<Seq<char>>)>)
    requires
        names_distinct(iv),
    ensures
        forall|j: int| 0 <= j < iv.len() ==> #[trigger] branch_linked(tree_of_infos(sort_infos(iv)), iv[j]),
{
    broadcast use vstd::seq_lib::group_to_multiset_ensures;

    let srt = sort_infos(iv);
    lemma_sort_keeps_names(iv);
    law_sorted_branches(iv);
    law_tree_links_parents(srt);
    assert forall|j: int| 0 <= j < iv.len() implies #[trigger] branch_linked(tree_of_infos(srt), iv[j]) by {
        assert(iv.contains(iv[j]));
        assert(iv.to_multiset().count(iv[j]) > 0);
        assert(srt.to_multiset().count(iv[j]) > 0);
        assert(srt.contains(iv[j]));
        let k = choose|k: int| 0 <= k < srt.len() && srt[k] == iv[j];
        assert(branch_linked(tree_of_infos(srt), srt[k]));
    }
}

/// The nodes and branches of a tree built from branches are theirs only.
pub proof fn lemma_add_all_keys(s: Seq<(Seq<char>, NodeType, Option<Seq<char>>)>)
    ensures
        forall|q: Seq<char>|
            #[trigger] first_key(add_all(empty_tree(), s).nodes, q) is Some ==> exists|j: int|
                0 <= j < s.len() && q == node_id_of(s[j].1, s[j].0),
        forall|q: Seq<char>|
            #[trigger] first_key(add_all(empty_tree(), s).branch_index, q) is Some ==> exists|j: int|
                0 <= j < s.len() && q == s[j].0,
    decreases s.len(),
{
    if s.len() > 0 {
        let p = s.drop_last();
        let x = s.last();
        lemma_add_all_keys(p);
        let t = add_all(empty_tree(), p);
        lemma_upsert_keys(t.nodes, node_id_of(x.1, x.0), info_node(x));
        lemma_upsert_keys(t.branch_index, x.0, node_id_of(x.1, x.0));
        assert forall|q: Seq<char>| #[trigger] first_key(add_all(empty_tree(), s).nodes, q) is Some implies exists|j: int|
            0 <= j < s.len() && q == node_id_of(s[j].1, s[j].0) by {
            if q == node_id_of(x.1, x.0) {
                assert(s[s.len() - 1] == x);
            } else {
                assert(first_key(t.nodes, q) is Some);
                let j = choose|j: int| 0 <= j < p.len() && q == node_id_of(p[j].1, p[j].0);
                assert(s[j] == p[j]);
            }
        }
        assert forall|q: Seq<char>| #[trigger] first_key(add_all(empty_tree(), s).branch_index, q) is Some implies exists|j: int|
            0 <= j < s.len() && q == s[j].0 by {
            if q == x.0 {
                assert(s[s.len() - 1] == x);
            } else {
                assert(first_key(t.branch_index, q) is Some);
                let j = choose|j: int| 0 <= j < p.len() && q == p[j].0;
                assert(s[j] == p[j]);
            }
        }
    }
}

/// Linking keeps the nodes a tree has, and adds none.
pub proof fn lemma_link_all_keys(base: TreeView, s: Seq<(Seq<char>, NodeType, Option<Seq<char>>)>)
    ensures
        forall|q: Seq<char>|
            #[trigger] first_key(link_all(base, s).nodes, q) is Some ==> first_key(base.nodes, q) is Some,
        link_all(base, s).branch_index == base.branch_index,
    decreases s.len(),
{
    if s.len() > 0 {
        lemma_link_all_keys(base, s.drop_last());
        let t0 = link_all(base, s.drop_last());
        let x = s.last();
        let xid = node_id_of(x.1, x.0);
        match x.2 {
            Some(p) => match lookup(t0.branch_index, p) {
                Some(pid) => {
                    let nodes = t0.nodes;
                    match lookup(nodes, xid) {
                        Some(c) => {
                            lemma_upsert_keys(nodes, xid, with_parent(c, pid));
                        },
                        None => {},
                    }
                    let first = match lookup(nodes, xid) {
                        Some(c) => upsert(nodes, xid, with_parent(c, pid)),
                        None => nodes,
                    };
                    match lookup(first, pid) {
                        Some(pn) => {
                            lemma_upsert_keys(first, pid, with_child(pn, xid));
                        },
                        None => {},
                    }
                    assert forall|q: Seq<char>| #[trigger] first_key(link_all(base, s).nodes, q) is Some implies first_key(
                        base.nodes,
                        q,
                    ) is Some by {
                        assert(first_key(first, q) is Some);
                        assert(first_key(nodes, q) is Some);
                    }
                },
                None => {},
            },
            None => {},
        }
    }
}

/// From each node of a tree built from classified branches (distinct names,
/// each parent branch nearer the top) the path up ends.
pub proof fn lemma_path_ends_from(s: Seq<(Seq<char>, NodeType, Option<Seq<char>>)>, j: int)
    requires
        names_distinct(s),
        forall|i: int| 0 <= i < s.len() ==> #[trigger] parent_ranks_lower(s[i]),
        0 <= j < s.len(),
    ensures
        ancestry(tree_of_infos(s).nodes, node_id_of(s[j].1, s[j].0), branch_rank(s[j].0) + 1) is Some,
    decreases branch_rank(s[j].0),
{
    let t = tree_of_infos(s);
    let base = add_all(empty_tree(), s);
    let id = node_id_of(s[j].1, s[j].0);
    law_tree_links_parents(s);
    assert(branch_linked(t, s[j]));
    lemma_link_all_keys(base, s);
    lemma_add_all_keys(s);
    lemma_add_all(s);
    let n = lookup(t.nodes, id)->0;
    assert(parent_ranks_lower(s[j]));
    match n.parent {
        None => {},
        Some(pid) => {
            let p = s[j].2->0;
            assert(lookup(t.branch_index, p) == Some(pid));
            assert(first_key(base.branch_index, p) is Some);
            let k = choose|k: int| 0 <= k < s.len() && p == s[k].0;
            assert(lookup(base.nodes, node_id_of(s[k].1, s[k].0)) == Some(info_node(s[k])));
            assert(lookup(base.branch_index, s[k].0) == Some(node_id_of(s[k].1, s[k].0)));
            assert(pid == node_id_of(s[k].1, s[k].0));
            assert(branch_rank(s[k].0) < branch_rank(s[j].0));
            lemma_path_ends_from(s, k);
            lemma_ancestry_fuel(
                t.nodes,
                pid,
                branch_rank(s[k].0) + 1,
                branch_rank(s[j].0) as nat,
            );
        },
    }
}

/// In a tree built from classified branches with distinct names, the path
/// from any id up to the top ends: `get_path_to_root` can be asked of it.
pub proof fn law_built_paths_end(s: Seq<(Seq<char>, NodeType, Option<Seq<char>>)>, id: Seq<char>)
    requires
        names_distinct(s),
        forall|i: int| 0 <= i < s.len() ==> #[trigger] parent_ranks_lower(s[i]),
    ensures
        exists|f: nat| #[trigger] ancestry(tree_of_infos(s).nodes, id, f) is Some,
{
    let t = tree_of_infos(s);
    let base = add_all(empty_tree(), s);
    lemma_link_all_keys(base, s);
    lemma_add_all_keys(s);
    if lookup(t.nodes, id) is Some {
        assert(first_key(base.nodes, id) is Some);
        let j = choose|j: int| 0 <= j < s.len() && id == node_id_of(s[j].1, s[j].0);
        lemma_path_ends_from(s, j);
        assert(ancestry(t.nodes, id, branch_rank(s[j].0) + 1) is Some);
    } else {
        assert(ancestry(t.nodes, id, 0) is Some);
    }
}

/// In the tree that `tree_from_infos` builds from classified branches with
/// distinct names (each parent branch nearer the top, as `classify_branch`
/// names it), the path from any id up to the top ends.
pub proof fn law_built_tree_paths_end(iv: Seq<(Seq<char>, NodeType, Option<Seq<char>>)>, id: Seq<char>)
    requires
        names_distinct(iv),
        forall|i: int| 0 <= i < iv.len() ==> #[trigger] parent_ranks_lower(iv[i]),
    ensures
        exists|f: nat| #[trigger] ancestry(tree_of_infos(sort_infos(iv)).nodes, id, f) is Some,
{
    let srt = sort_infos(iv);
    lemma_sort_keeps_names(iv);
    assert forall|i: int| 0 <= i < srt.len() implies #[trigger] parent_ranks_lower(srt[i]) by {
        assert(iv.contains(srt[i]));
        let k = choose|k: int| 0 <= k < iv.len() && iv[k] == srt[i];
        assert(parent_ranks_lower(iv[k]));
    }
    law_built_paths_end(srt, id);
}

// ---------------------------------------------------------------------------
// Trees built node by node
// ---------------------------------------------------------------------------
/// The tree that `ApiTree::new` and then `add_node` with each node in turn
/// build.
pub open spec fn tree_of_nodes(ns: Seq<NodeView>) -> TreeView
    decreases ns.len(),
{
    if ns.len() == 0 {
        empty_tree()
    } else {
        tree_with_node(tree_of_nodes(ns.drop_last()), ns.last())
    }
}

/// No two of the nodes share an id.
pub open spec fn distinct_ids(ns: Seq<NodeView>) -> bool {
    forall|i: int, j: int| 0 <= i < j < ns.len() ==> ns[i].id != ns[j].id
}

/// The list an index holds under a key; empty where it holds none.
pub open spec fn listed<K>(index: Seq<(K, Seq<Seq<char>>)>, k: K) -> Seq<Seq<char>> {
    match lookup(index, k) {
        Some(l) => l,
        None => seq![],
    }
}

/// The nodes with the given name, in order.
pub open spec fn named(ns: Seq<NodeView>, name: Seq<char>) -> Seq<NodeView> {
    ns.filter(|n: NodeView| n.name == name)
}

/// The nodes of the given kind, in order.
pub open spec fn of_kind(ns: Seq<NodeView>, k: NodeType) -> Seq<NodeView> {
    ns.filter(|n: NodeView| n.node_type == k)
}

/// The nodes paired with their ids, as a node map holds them.
pub open spec fn id_pairs(ns: Seq<NodeView>) -> Seq<(Seq<char>, NodeView)> {
    ns.map_values(|n: NodeView| (n.id, n))
}

/// `append_to` adds to the list of its key and leaves the others.
proof fn lemma_append_to_listed<K>(s: Seq<(K, Seq<Seq<char>>)>, k: K, x: Seq<char>, q: K)
    ensures
        listed(append_to(s, k, x), q) == if q == k {
            listed(s, k).push(x)
        } else {
            listed(s, q)
        },
{
    lemma_first_key(s, k);
    lemma_first_key(s, q);
    let t = append_to(s, k, x);
    match first_key(s, k) {
        Some(i) => {
            assert forall|j: int| 0 <= j < s.len() && j != i implies t[j] == s[j] by {}
            if q == k {
                lemma_first_key_at(t, k, i);
            } else {
                match first_key(s, q) {
                    Some(m) => {
                        assert(m != i);
                        lemma_first_key_at(t, q, m);
                    },
                    None => {
                        lemma_first_key_none(t, q);
                    },
                }
            }
        },
        None => {
            assert forall|j: int| 0 <= j < s.len() implies t[j] == s[j] by {}
            if q == k {
                lemma_first_key_at(t, k, s.len() as int);
                assert(seq![x] =~= Seq::<Seq<char>>::empty().push(x));
            } else {
                match first_key(s, q) {
                    Some(m) => {
                        lemma_first_key_at(t, q, m);
                    },
                    None => {
                        lemma_first_key_none(t, q);
                    },
                }
            }
        },
    }
}

/// What a tree built node by node holds: its node map pairs each node with
/// its id, in order, and its indexes list, under each name and kind, the
/// ids of the nodes with that name or kind, in order.
proof fn lemma_tree_of_nodes(ns: Seq<NodeView>)
    requires
        distinct_ids(ns),
    ensures
        tree_of_nodes(ns).nodes == id_pairs(ns),
        forall|name: Seq<char>|
            #[trigger] listed(tree_of_nodes(ns).name_index, name) == ids_of(named(ns, name)),
        forall|k: NodeType| #[trigger] listed(tree_of_nodes(ns).type_index, k) == ids_of(of_kind(ns, k)),
    decreases ns.len(),
{
    reveal(Seq::filter);
    if ns.len() == 0 {
        assert(id_pairs(ns) =~= Seq::<(Seq<char>, NodeView)>::empty());
        assert forall|name: Seq<char>| #[trigger]
            listed(tree_of_nodes(ns).name_index, name) == ids_of(named(ns, name)) by {
            assert(ids_of(named(ns, name)) =~= Seq::<Seq<char>>::empty());
        }
        assert forall|k: NodeType| #[trigger]
            listed(tree_of_nodes(ns).type_index, k) == ids_of(of_kind(ns, k)) by {
            assert(ids_of(of_kind(ns, k)) =~= Seq::<Seq<char>>::empty());
        }
    } else {
        let pre = ns.drop_last();
        let n = ns.last();
        assert(distinct_ids(pre));
        lemma_tree_of_nodes(pre);
        let t0 = tree_of_nodes(pre);
        let t = tree_of_nodes(ns);
        assert forall|j: int| 0 <= j < t0.nodes.len() implies t0.nodes[j].0 != n.id by {
            assert(t0.nodes[j] == id_pairs(pre)[j]);
            assert(pre[j] == ns[j]);
        }
        lemma_first_key_none(t0.nodes, n.id);
        assert(t.nodes =~= id_pairs(ns));
        assert forall|name: Seq<char>| #[trigger]
            listed(t.name_index, name) == ids_of(named(ns, name)) by {
            lemma_append_to_listed(t0.name_index, n.name, n.id, name);
            assert(listed(t0.name_index, name) == ids_of(named(pre, name)));
            if n.name == name {
                assert(named(ns, name) == named(pre, name).push(n));
                assert(ids_of(named(pre, name).push(n)) =~= ids_of(named(pre, name)).push(n.id));
            } else {
                assert(named(ns, name) == named(pre, name));
            }
        }
        assert forall|k: NodeType| #[trigger]
            listed(t.type_index, k) == ids_of(of_kind(ns, k)) by {
            lemma_append_to_listed(t0.type_index, n.node_type, n.id, k);
            assert(listed(t0.type_index, k) == ids_of(of_kind(pre, k)));
            if n.node_type == k {
                assert(of_kind(ns, k) == of_kind(pre, k).push(n));
                assert(ids_of(of_kind(pre, k).push(n)) =~= ids_of(of_kind(pre, k)).push(n.id));
            } else {
                assert(of_kind(ns, k) == of_kind(pre, k));
            }
        }
    }
}

/// In the id pairs of nodes with distinct ids, each node's id leads to it.
proof fn lemma_lookup_id_pairs(ns: Seq<NodeView>, k: int)
    requires
        distinct_ids(ns),
        0 <= k < ns.len(),
    ensures
        lookup(id_pairs(ns), ns[k].id) == Some(ns[k]),
{
    let ps = id_pairs(ns);
    assert forall|j: int| 0 <= j < k implies ps[j].0 != ns[k].id by {
        assert(ps[j].0 == ns[j].id);
    }
    lemma_first_key_at(ps, ns[k].id, k);
}

/// The nodes that the ids of the first `k` qualifying nodes name are those
/// nodes.
proof fn lemma_nodes_of_filter(ns: Seq<NodeView>, p: spec_fn(NodeView) -> bool, k: int)
    requires
        distinct_ids(ns),
        0 <= k <= ns.len(),
    ensures
        nodes_of(id_pairs(ns), ids_of(ns.take(k).filter(p))) == ns.take(k).filter(p),
    decreases k,
{
    reveal(Seq::filter);
    if k == 0 {
        assert(ns.take(0).filter(p) =~= Seq::<NodeView>::empty());
        assert(ids_of(ns.take(0).filter(p)) =~= Seq::<Seq<char>>::empty());
    } else {
        lemma_nodes_of_filter(ns, p, k - 1);
        let a = ns.take(k);
        assert(a.drop_last() =~= ns.take(k - 1));
        assert(a.last() == ns[k - 1]);
        let f0 = ns.take(k - 1).filter(p);
        if p(ns[k - 1]) {
            assert(a.filter(p) == f0.push(ns[k - 1]));
            assert(ids_of(f0.push(ns[k - 1])) =~= ids_of(f0).push(ns[k - 1].id));
            lemma_nodes_of_push(id_pairs(ns), ids_of(f0), ns[k - 1].id);
            lemma_lookup_id_pairs(ns, k - 1);
        } else {
            assert(a.filter(p) == f0);
        }
    }
}

/// The search hits among nodes with distinct ids come each once, and their
/// ids are ids of those nodes.
proof fn lemma_hits_once(ns: Seq<NodeView>, query: Seq<char>, search_type: Seq<char>, fuzzy: bool)
    requires
        distinct_ids(ns),
    ensures
        dedup_by_id(node_hits(ns, query, search_type, fuzzy)) == node_hits(ns, query, search_type, fuzzy),
        forall|x: Seq<char>|
            ids_of(node_hits(ns, query, search_type, fuzzy)).contains(x) ==> ids_of(ns).contains(x),
    decreases ns.len(),
{
    if ns.len() > 0 {
        let pre = ns.drop_last();
        let n = ns.last();
        assert(distinct_ids(pre));
        lemma_hits_once(pre, query, search_type, fuzzy);
        let h = node_hits(pre, query, search_type, fuzzy);
        if search_hit(n, query, search_type, fuzzy) {
            let hn = node_hits(ns, query, search_type, fuzzy);
            assert(hn =~= h.push(n));
            assert(hn.drop_last() =~= h);
            assert(!ids_of(h).contains(n.id)) by {
                if ids_of(h).contains(n.id) {
                    assert(ids_of(pre).contains(n.id));
                    let j = choose|j: int| 0 <= j < ids_of(pre).len() && ids_of(pre)[j] == n.id;
                    assert(pre[j] == ns[j]);
                }
            }
            assert(ids_of(hn) =~= ids_of(h).push(n.id));
            assert forall|x: Seq<char>| ids_of(hn).contains(x) implies ids_of(ns).contains(x) by {
                let j = choose|j: int| 0 <= j < ids_of(hn).len() && ids_of(hn)[j] == x;
                if j < h.len() {
                    assert(ids_of(h)[j] == x);
                    assert(ids_of(pre).contains(x));
                    let m = choose|m: int| 0 <= m < ids_of(pre).len() && ids_of(pre)[m] == x;
                    assert(pre[m] == ns[m]);
                    assert(ids_of(ns)[m] == x);
                } else {
                    assert(ids_of(ns)[ns.len() - 1] == x);
                }
            }
        } else {
            assert(node_hits(ns, query, search_type, fuzzy) =~= h);
            assert forall|x: Seq<char>| ids_of(h).contains(x) implies ids_of(ns).contains(x) by {
                assert(ids_of(pre).contains(x));
                let m = choose|m: int| 0 <= m < ids_of(pre).len() && ids_of(pre)[m] == x;
                assert(pre[m] == ns[m]);
                assert(ids_of(ns)[m] == x);
            }
        }
    }
}

/// A tree built by `ApiTree::new` and `add_node` from nodes with distinct
/// ids holds those nodes in the order they were added; finding by name
/// (exactly) gives the nodes of that name, finding by kind the nodes of
/// that kind, each in that order; the statistics count all nodes and the
/// nodes of each kind; and a search of any kind but `branch` gives the
/// nodes that answer it, in that order, each once.
pub proof fn law_built_node_by_node(ns: Seq<NodeView>)
    requires
        distinct_ids(ns),
    ensures
        all_nodes(tree_of_nodes(ns)) == ns,
        tree_of_nodes(ns).nodes.len() == ns.len(),
        forall|name: Seq<char>|
            #[trigger] found_by_name(tree_of_nodes(ns), name, false) == named(ns, name),
        forall|k: NodeType|
            (match lookup(#[trigger] tree_of_nodes(ns).type_index, k) {
                Some(ids) => nodes_of(tree_of_nodes(ns).nodes, ids),
                None => seq![],
            }) == of_kind(ns, k),
        forall|k: NodeType| #[trigger] kind_count(tree_of_nodes(ns), k) == of_kind(ns, k).len(),
        forall|query: Seq<char>, search_type: Seq<char>, fuzzy: bool|
            search_type != "branch"@ ==> #[trigger] search_result(
                tree_of_nodes(ns),
                query,
                search_type,
                fuzzy,
            ) == node_hits(ns, query, search_type, fuzzy),
{
    let t = tree_of_nodes(ns);
    lemma_tree_of_nodes(ns);
    assert(all_nodes(t) =~= ns);
    assert(ns.take(ns.len() as int) =~= ns);
    assert forall|name: Seq<char>| #[trigger] found_by_name(t, name, false) == named(ns, name) by {
        lemma_nodes_of_filter(ns, |n: NodeView| n.name == name, ns.len() as int);
        assert(listed(t.name_index, name) == ids_of(named(ns, name)));
        match lookup(t.name_index, name) {
            Some(ids) => {},
            None => {
                assert(ids_of(named(ns, name)).len() == 0);
                assert(named(ns, name) =~= Seq::<NodeView>::empty());
            },
        }
    }
    assert forall|k: NodeType|
        (match lookup(#[trigger] t.type_index, k) {
            Some(ids) => nodes_of(t.nodes, ids),
            None => seq![],
        }) == of_kind(ns, k) by {
        lemma_nodes_of_filter(ns, |n: NodeView| n.node_type == k, ns.len() as int);
        assert(listed(t.type_index, k) == ids_of(of_kind(ns, k)));
        match lookup(t.type_index, k) {
            Some(ids) => {},
            None => {
                assert(ids_of(of_kind(ns, k)).len() == 0);
                assert(of_kind(ns, k) =~= Seq::<NodeView>::empty());
            },
        }
    }
    assert forall|k: NodeType| #[trigger] kind_count(t, k) == of_kind(ns, k).len() by {
        assert(listed(t.type_index, k) == ids_of(of_kind(ns, k)));
    }
    assert forall|query: Seq<char>, search_type: Seq<char>, fuzzy: bool|
        search_type != "branch"@ implies #[trigger] search_result(t, query, search_type, fuzzy)
        == node_hits(ns, query, search_type, fuzzy) by {
        lemma_hits_once(ns, query, search_type, fuzzy);
    }
}

/// Adding a node with a new id to a tree built node by node puts it last
/// among all nodes, among the nodes of its name and among the nodes of its
/// kind, leaves the nodes of every other name and kind as they were, and
/// its id leads to it and its branch to its id.
pub proof fn law_add_node_appends(ns: Seq<NodeView>, n: NodeView)
    requires
        distinct_ids(ns.push(n)),
    ensures
        tree_with_node(tree_of_nodes(ns), n) == tree_of_nodes(ns.push(n)),
        all_nodes(tree_of_nodes(ns.push(n))) == all_nodes(tree_of_nodes(ns)).push(n),
        forall|name: Seq<char>|
            #[trigger] found_by_name(tree_of_nodes(ns.push(n)), name, false) == if name == n.name {
                found_by_name(tree_of_nodes(ns), name, false).push(n)
            } else {
                found_by_name(tree_of_nodes(ns), name, false)
            },
        forall|k: NodeType|
            #[trigger] of_kind(ns.push(n), k) == if k == n.node_type {
                of_kind(ns, k).push(n)
            } else {
                of_kind(ns, k)
            },
        lookup(tree_of_nodes(ns.push(n)).nodes, n.id) == Some(n),
        lookup(tree_of_nodes(ns.push(n)).branch_index, n.branch_name) == Some(n.id),
{
    reveal(Seq::filter);
    let m = ns.push(n);
    assert(m.drop_last() =~= ns);
    assert(distinct_ids(ns)) by {
        assert forall|i: int, j: int| 0 <= i < j < ns.len() implies ns[i].id != ns[j].id by {
            assert(m[i] == ns[i] && m[j] == ns[j]);
        }
    }
    law_built_node_by_node(ns);
    law_built_node_by_node(m);
    law_tree_read_after_add(tree_of_nodes(ns), n);
    assert forall|name: Seq<char>|
        #[trigger] found_by_name(tree_of_nodes(m), name, false) == if name == n.name {
            found_by_name(tree_of_nodes(ns), name, false).push(n)
        } else {
            found_by_name(tree_of_nodes(ns), name, false)
        } by {
        assert(found_by_name(tree_of_nodes(m), name, false) == named(m, name));
        assert(found_by_name(tree_of_nodes(ns), name, false) == named(ns, name));
    }
    assert forall|k: NodeType| #[trigger] of_kind(m, k) == if k == n.node_type {
        of_kind(ns, k).push(n)
    } else {
        of_kind(ns, k)
    } by {}
}

/// The name index of nodes: each name once, each listing the ids of the
/// nodes with that name, and every node's name among them.
pub open spec fn names_indexed(idx: Seq<(Seq<char>, Seq<Seq<char>>)>, ns: Seq<NodeView>) -> bool {
    &&& forall|i: int, j: int| 0 <= i < j < idx.len() ==> idx[i].0 != idx[j].0
    &&& forall|i: int| 0 <= i < idx.len() ==> #[trigger] idx[i].1 == ids_of(named(ns, idx[i].0))
    &&& forall|k: int| 0 <= k < ns.len() ==> exists|i: int| 0 <= i < idx.len() && idx[i].0 == #[trigger] ns[k].name
}

/// No node has a name that no node has.
proof fn lemma_named_empty(ns: Seq<NodeView>, name: Seq<char>)
    requires
        forall|k: int| 0 <= k < ns.len() ==> #[trigger] ns[k].name != name,
    ensures
        named(ns, name) == Seq::<NodeView>::empty(),
    decreases ns.len(),
{
    reveal(Seq::filter);
    if ns.len() > 0 {
        lemma_named_empty(ns.drop_last(), name);
        assert(ns.last() == ns[ns.len() - 1]);
    }
}

/// A tree built node by node indexes the names of its nodes.
proof fn lemma_tree_of_nodes_names(ns: Seq<NodeView>)
    ensures
        names_indexed(tree_of_nodes(ns).name_index, ns),
    decreases ns.len(),
{
    reveal(Seq::filter);
    if ns.len() > 0 {
        let pre = ns.drop_last();
        let n = ns.last();
        lemma_tree_of_nodes_names(pre);
        let idx = tree_of_nodes(pre).name_index;
        let idx2 = tree_of_nodes(ns).name_index;
        assert(idx2 == append_to(idx, n.name, n.id));
        lemma_first_key(idx, n.name);
        assert forall|key: Seq<char>| key != n.name implies named(ns, key) == named(pre, key) by {}
        assert(named(ns, n.name) == named(pre, n.name).push(n));
        assert(ids_of(named(pre, n.name).push(n)) =~= ids_of(named(pre, n.name)).push(n.id));
        match first_key(idx, n.name) {
            Some(i) => {
                assert(idx2 == idx.update(i, (n.name, idx[i].1.push(n.id))));
                assert forall|a: int| 0 <= a < idx2.len() implies #[trigger] idx2[a].1 == ids_of(
                    named(ns, idx2[a].0),
                ) by {
                    if a != i {
                        assert(idx2[a] == idx[a]);
                        assert(idx[a].0 != n.name);
                    }
                }
                assert forall|k: int| 0 <= k < ns.len() implies exists|a: int|
                    0 <= a < idx2.len() && idx2[a].0 == #[trigger] ns[k].name by {
                    if k == ns.len() - 1 {
                        assert(idx2[i].0 == ns[k].name);
                    } else {
                        assert(ns[k] == pre[k]);
                        let a = choose|a: int| 0 <= a < idx.len() && idx[a].0 == pre[k].name;
                        assert(idx2[a].0 == idx[a].0);
                    }
                }
            },
            None => {
                assert(idx2 == idx.push((n.name, seq![n.id])));
                assert forall|k: int| 0 <= k < pre.len() implies #[trigger] pre[k].name != n.name by {
                    let a = choose|a: int| 0 <= a < idx.len() && idx[a].0 == pre[k].name;
                }
                lemma_named_empty(pre, n.name);
                assert(ids_of(Seq::<NodeView>::empty()).push(n.id) =~= seq![n.id]);
                assert forall|a: int| 0 <= a < idx2.len() implies #[trigger] idx2[a].1 == ids_of(
                    named(ns, idx2[a].0),
                ) by {
                    if a < idx.len() {
                        assert(idx2[a] == idx[a]);
                    }
                }
                assert forall|k: int| 0 <= k < ns.len() implies exists|a: int|
                    0 <= a < idx2.len() && idx2[a].0 == #[trigger] ns[k].name by {
                    if k == ns.len() - 1 {
                        assert(idx2[idx.len() as int].0 == ns[k].name);
                    } else {
                        assert(ns[k] == pre[k]);
                        let a = choose|a: int| 0 <= a < idx.len() && idx[a].0 == pre[k].name;
                        assert(idx2[a].0 == idx[a].0);
                    }
                }
            },
        }
    }
}

/// The ids of the nodes with a name are those of the nodes that have it.
proof fn lemma_named_ids(ns: Seq<NodeView>, name: Seq<char>)
    ensures
        forall|x: Seq<char>|
            #[trigger] ids_of(named(ns, name)).contains(x) <==> exists|k: int|
                0 <= k < ns.len() && ns[k].name == name && ns[k].id == x,
        distinct_ids(ns) ==> ids_of(named(ns, name)).no_duplicates(),
    decreases ns.len(),
{
    reveal(Seq::filter);
    if ns.len() == 0 {
        assert(ids_of(named(ns, name)) =~= Seq::<Seq<char>>::empty());
    } else {
        let pre = ns.drop_last();
        let n = ns.last();
        lemma_named_ids(pre, name);
        let a = ids_of(named(pre, name));
        if n.name == name {
            assert(named(ns, name) == named(pre, name).push(n));
            assert(ids_of(named(ns, name)) =~= a.push(n.id));
        } else {
            assert(named(ns, name) == named(pre, name));
        }
        assert forall|x: Seq<char>| #[trigger] ids_of(named(ns, name)).contains(x) <==> exists|k: int|
            0 <= k < ns.len() && ns[k].name == name && ns[k].id == x by {
            if ids_of(named(ns, name)).contains(x) {
                if a.contains(x) {
                    let k = choose|k: int| 0 <= k < pre.len() && pre[k].name == name && pre[k].id == x;
                    assert(ns[k] == pre[k]);
                } else {
                    let m = choose|m: int| 0 <= m < ids_of(named(ns, name)).len() && ids_of(named(ns, name))[m] == x;
                    if m < a.len() {
                        assert(a[m] == x);
                    }
                    assert(ns[ns.len() - 1] == n);
                }
            }
            if exists|k: int| 0 <= k < ns.len() && ns[k].name == name && ns[k].id == x {
                let k = choose|k: int| 0 <= k < ns.len() && ns[k].name == name && ns[k].id == x;
                if k < pre.len() {
                    assert(pre[k] == ns[k]);
                    assert(pre[k].name == name && pre[k].id == x);
                    assert(a.contains(x));
                    let m = choose|m: int| 0 <= m < a.len() && a[m] == x;
                    if n.name == name {
                        assert(ids_of(named(ns, name))[m] == a.push(n.id)[m]);
                    }
                    assert(ids_of(named(ns, name))[m] == x);
                } else {
                    assert(n.name == name);
                    assert(ids_of(named(ns, name))[a.len() as int] == x);
                }
            }
        }
        if distinct_ids(ns) {
            assert(distinct_ids(pre));
            if n.name == name {
                assert(!a.contains(n.id)) by {
                    if a.contains(n.id) {
                        let k = choose|k: int| 0 <= k < pre.len() && pre[k].name == name && pre[k].id == n.id;
                        assert(pre[k] == ns[k]);
                    }
                }
                assert forall|i: int, j: int|
                    0 <= i < j < a.push(n.id).len() implies a.push(n.id)[i] != a.push(n.id)[j] by {
                    if j == a.len() {
                        assert(a.contains(a[i]));
                    }
                }
            }
        }
    }
}

/// The ids that `fuzzy_ids` gives are those listed under a name the query
/// answers.
proof fn lemma_fuzzy_ids_members(idx: Seq<(Seq<char>, Seq<Seq<char>>)>, query: Seq<char>)
    ensures
        forall|x: Seq<char>|
            #[trigger] fuzzy_ids(idx, query).contains(x) <==> exists|i: int|
                0 <= i < idx.len() && text_hit(idx[i].0, query, true) && idx[i].1.contains(x),
    decreases idx.len(),
{
    if idx.len() > 0 {
        let pre = idx.drop_last();
        lemma_fuzzy_ids_members(pre, query);
        let a = fuzzy_ids(pre, query);
        let last = idx.last();
        let b = if text_hit(last.0, query, true) {
            last.1
        } else {
            seq![]
        };
        assert(fuzzy_ids(idx, query) == a + b);
        assert forall|x: Seq<char>| #[trigger] fuzzy_ids(idx, query).contains(x) <==> exists|i: int|
            0 <= i < idx.len() && text_hit(idx[i].0, query, true) && idx[i].1.contains(x) by {
            if (a + b).contains(x) {
                let m = choose|m: int| 0 <= m < (a + b).len() && (a + b)[m] == x;
                if m < a.len() {
                    assert(a[m] == x);
                    assert(a.contains(x));
                    let i = choose|i: int| 0 <= i < pre.len() && text_hit(pre[i].0, query, true) && pre[i].1.contains(x);
                    assert(idx[i] == pre[i]);
                } else {
                    assert(b[m - a.len()] == x);
                    assert(idx[idx.len() - 1] == last);
                }
            }
            if exists|i: int| 0 <= i < idx.len() && text_hit(idx[i].0, query, true) && idx[i].1.contains(x) {
                let i = choose|i: int| 0 <= i < idx.len() && text_hit(idx[i].0, query, true) && idx[i].1.contains(x);
                if i < pre.len() {
                    assert(pre[i] == idx[i]);
                    assert(text_hit(pre[i].0, query, true) && pre[i].1.contains(x));
                    assert(a.contains(x));
                    let m = choose|m: int| 0 <= m < a.len() && a[m] == x;
                    assert((a + b)[m] == x);
                } else {
                    let m = choose|m: int| 0 <= m < b.len() && b[m] == x;
                    assert((a + b)[a.len() + m] == x);
                }
            }
        }
    }
}

/// Over a name index of nodes with distinct ids, `fuzzy_ids` gives no id
/// twice.
proof fn lemma_fuzzy_ids_once(idx: Seq<(Seq<char>, Seq<Seq<char>>)>, ns: Seq<NodeView>, query: Seq<char>)
    requires
        distinct_ids(ns),
        forall|i: int, j: int| 0 <= i < j < idx.len() ==> idx[i].0 != idx[j].0,
        forall|i: int| 0 <= i < idx.len() ==> #[trigger] idx[i].1 == ids_of(named(ns, idx[i].0)),
    ensures
        fuzzy_ids(idx, query).no_duplicates(),
    decreases idx.len(),
{
    if idx.len() > 0 {
        let pre = idx.drop_last();
        assert forall|i: int| 0 <= i < pre.len() implies #[trigger] pre[i].1 == ids_of(named(ns, pre[i].0)) by {
            assert(pre[i] == idx[i]);
        }
        lemma_fuzzy_ids_once(pre, ns, query);
        lemma_fuzzy_ids_members(pre, query);
        let a = fuzzy_ids(pre, query);
        let last = idx.last();
        if text_hit(last.0, query, true) {
            let b = last.1;
            assert(b == idx[idx.len() - 1].1);
            lemma_named_ids(ns, last.0);
            assert(b.no_duplicates());
            assert(fuzzy_ids(idx, query) == a + b);
            assert forall|i: int, j: int| 0 <= i < j < (a + b).len() implies (a + b)[i] != (a + b)[j] by {
                if i < a.len() && j >= a.len() {
                    let x = a[i];
                    assert(a.contains(x));
                    let p = choose|p: int| 0 <= p < pre.len() && text_hit(pre[p].0, query, true) && pre[p].1.contains(x);
                    assert(pre[p] == idx[p]);
                    lemma_named_ids(ns, pre[p].0);
                    let k1 = choose|k: int| 0 <= k < ns.len() && ns[k].name == pre[p].0 && ns[k].id == x;
                    if (a + b)[j] == x {
                        assert(b[j - a.len()] == x);
                        assert(b.contains(x));
                        let k2 = choose|k: int| 0 <= k < ns.len() && ns[k].name == last.0 && ns[k].id == x;
                        if k1 < k2 {
                            assert(ns[k1].id != ns[k2].id);
                        } else if k2 < k1 {
                            assert(ns[k2].id != ns[k1].id);
                        }
                        assert(idx[p].0 != idx[idx.len() - 1].0);
                    }
                } else if i >= a.len() {
                    assert((a + b)[i] == b[i - a.len()]);
                    assert((a + b)[j] == b[j - a.len()]);
                } else {
                    assert((a + b)[i] == a[i]);
                    assert((a + b)[j] == a[j]);
                }
            }
        } else {
            assert(fuzzy_ids(idx, query) =~= a);
        }
    }
}

/// The nodes that ids of nodes name: one for each id, the node with it.
proof fn lemma_nodes_of_ids(ns: Seq<NodeView>, f: Seq<Seq<char>>)
    requires
        distinct_ids(ns),
        forall|x: Seq<char>| #[trigger] f.contains(x) ==> ids_of(ns).contains(x),
    ensures
        ids_of(nodes_of(id_pairs(ns), f)) == f,
        forall|i: int| 0 <= i < f.len() ==> #[trigger] ns.contains(nodes_of(id_pairs(ns), f)[i]),
    decreases f.len(),
{
    if f.len() == 0 {
        assert(ids_of(nodes_of(id_pairs(ns), f)) =~= f);
    } else {
        let g = f.drop_last();
        assert forall|x: Seq<char>| #[trigger] g.contains(x) implies ids_of(ns).contains(x) by {
            let m = choose|m: int| 0 <= m < g.len() && g[m] == x;
            assert(f[m] == x);
            assert(f.contains(x));
        }
        lemma_nodes_of_ids(ns, g);
        assert(f == g.push(f.last()));
        lemma_nodes_of_push(id_pairs(ns), g, f.last());
        assert(f.contains(f.last()));
        let k = choose|k: int| 0 <= k < ids_of(ns).len() && ids_of(ns)[k] == f.last();
        lemma_lookup_id_pairs(ns, k);
        let r0 = nodes_of(id_pairs(ns), g);
        let r = nodes_of(id_pairs(ns), f);
        assert(r == r0.push(ns[k]));
        assert(ids_of(r) =~= ids_of(r0).push(ns[k].id));
        assert forall|i: int| 0 <= i < f.len() implies #[trigger] ns.contains(r[i]) by {
            if i < g.len() {
                assert(r[i] == r0[i]);
            } else {
                assert(r[i] == ns[k]);
            }
        }
    }
}

/// Finding by name with `fuzzy` in a tree built node by node from nodes
/// with distinct ids gives, each once, exactly the nodes whose name, in
/// lower case, holds the query in lower case.
pub proof fn law_fuzzy_find_by_name(ns: Seq<NodeView>, query: Seq<char>)
    requires
        distinct_ids(ns),
    ensures
        ids_of(found_by_name(tree_of_nodes(ns), query, true)).no_duplicates(),
        forall|n: NodeView|
            #[trigger] found_by_name(tree_of_nodes(ns), query, true).contains(n) <==> ns.contains(n)
                && text_hit(n.name, query, true),
{
    let t = tree_of_nodes(ns);
    lemma_tree_of_nodes(ns);
    lemma_tree_of_nodes_names(ns);
    let idx = t.name_index;
    let f = fuzzy_ids(idx, query);
    lemma_fuzzy_ids_members(idx, query);
    lemma_fuzzy_ids_once(idx, ns, query);
    assert forall|x: Seq<char>| #[trigger] f.contains(x) implies ids_of(ns).contains(x) by {
        let i = choose|i: int| 0 <= i < idx.len() && text_hit(idx[i].0, query, true) && idx[i].1.contains(x);
        lemma_named_ids(ns, idx[i].0);
        let k = choose|k: int| 0 <= k < ns.len() && ns[k].name == idx[i].0 && ns[k].id == x;
        assert(ids_of(ns)[k] == x);
    }
    lemma_nodes_of_ids(ns, f);
    let r = found_by_name(t, query, true);
    assert(r == nodes_of(id_pairs(ns), f));
    assert forall|n: NodeView| #[trigger] r.contains(n) <==> ns.contains(n) && text_hit(n.name, query, true) by {
        if r.contains(n) {
            let i = choose|i: int| 0 <= i < r.len() && r[i] == n;
            assert(ids_of(r)[i] == f[i]);
            assert(f.contains(n.id));
            assert(ns.contains(r[i]));
            let p = choose|p: int| 0 <= p < idx.len() && text_hit(idx[p].0, query, true) && idx[p].1.contains(n.id);
            lemma_named_ids(ns, idx[p].0);
            let k = choose|k: int| 0 <= k < ns.len() && ns[k].name == idx[p].0 && ns[k].id == n.id;
            let k2 = choose|k2: int| 0 <= k2 < ns.len() && ns[k2] == n;
            if k < k2 {
                assert(ns[k].id != ns[k2].id);
            } else if k2 < k {
                assert(ns[k2].id != ns[k].id);
            }
        }
        if ns.contains(n) && text_hit(n.name, query, true) {
            let k = choose|k: int| 0 <= k < ns.len() && ns[k] == n;
            let p = choose|p: int| 0 <= p < idx.len() && idx[p].0 == #[trigger] ns[k].name;
            lemma_named_ids(ns, idx[p].0);
            assert(idx[p].1.contains(n.id));
            assert(f.contains(n.id));
            let i = choose|i: int| 0 <= i < f.len() && f[i] == n.id;
            assert(ids_of(r)[i] == n.id);
            assert(ns.contains(r[i]));
            let k2 = choose|k2: int| 0 <= k2 < ns.len() && ns[k2] == r[i];
            if k < k2 {
                assert(ns[k].id != ns[k2].id);
            } else if k2 < k {
                assert(ns[k2].id != ns[k].id);
            }
            assert(r[i] == n);
        }
    }
}

// ---------------------------------------------------------------------------
// Sound trees: each node under its own id, each indexed id a node
// ---------------------------------------------------------------------------
/// Each node is stored under its own id.
pub open spec fn ids_keyed(nodes: Seq<(Seq<char>, NodeView)>) -> bool {
    forall|i: int| 0 <= i < nodes.len() ==> #[trigger] nodes[i].1.id == nodes[i].0
}

/// Every id that an index lists is the id of a node.
pub open spec fn index_ids_stored<K>(
    index: Seq<(K, Seq<Seq<char>>)>,
    nodes: Seq<(Seq<char>, NodeView)>,
) -> bool {
    forall|i: int, j: int|
        0 <= i < index.len() && 0 <= j < index[i].1.len() ==> #[trigger] lookup(nodes, index[i].1[j]) is Some
}

/// A tree in which every node is stored under its own id, and every id that
/// the name and kind indexes list is the id of a node. `new`, `add_node`,
/// `set_parent` and `set_files` keep a tree sound; so does `get_node_mut`
/// where the node keeps its id.
pub open spec fn tree_sound(t: TreeView) -> bool {
    &&& ids_keyed(t.nodes)
    &&& index_ids_stored(t.name_index, t.nodes)
    &&& index_ids_stored(t.type_index, t.nodes)
}

/// Storing a node under its own id keeps each node under its own id.
proof fn lemma_upsert_keyed(nodes: Seq<(Seq<char>, NodeView)>, k: Seq<char>, v: NodeView)
    requires
        ids_keyed(nodes),
        v.id == k,
    ensures
        ids_keyed(upsert(nodes, k, v)),
{
    lemma_first_key(nodes, k);
    let t = upsert(nodes, k, v);
    match first_key(nodes, k) {
        Some(m) => {
            assert forall|i: int| 0 <= i < t.len() implies #[trigger] t[i].1.id == t[i].0 by {
                if i != m {
                    assert(t[i] == nodes[i]);
                }
            }
        },
        None => {
            assert forall|i: int| 0 <= i < t.len() implies #[trigger] t[i].1.id == t[i].0 by {
                if i < nodes.len() {
                    assert(t[i] == nodes[i]);
                }
            }
        },
    }
}

/// An index whose ids are nodes keeps them so once any node is stored.
proof fn lemma_index_after_upsert<K>(
    index: Seq<(K, Seq<Seq<char>>)>,
    nodes: Seq<(Seq<char>, NodeView)>,
    k: Seq<char>,
    v: NodeView,
)
    requires
        index_ids_stored(index, nodes),
    ensures
        index_ids_stored(index, upsert(nodes, k, v)),
{
    assert forall|i: int, j: int| 0 <= i < index.len() && 0 <= j < index[i].1.len() implies #[trigger] lookup(
        upsert(nodes, k, v),
        index[i].1[j],
    ) is Some by {
        lemma_upsert_lookup(nodes, k, v, index[i].1[j]);
    }
}

/// Appending the id of a stored node keeps every listed id a node.
proof fn lemma_index_after_append<K>(
    index: Seq<(K, Seq<Seq<char>>)>,
    nodes: Seq<(Seq<char>, NodeView)>,
    k: K,
    x: Seq<char>,
)
    requires
        index_ids_stored(index, nodes),
        lookup(nodes, x) is Some,
    ensures
        index_ids_stored(append_to(index, k, x), nodes),
{
    lemma_first_key(index, k);
    let t = append_to(index, k, x);
    assert forall|i: int, j: int| 0 <= i < t.len() && 0 <= j < t[i].1.len() implies #[trigger] lookup(
        nodes,
        t[i].1[j],
    ) is Some by {
        match first_key(index, k) {
            Some(m) => {
                if i == m {
                    if j < index[m].1.len() {
                        assert(t[i].1[j] == index[m].1[j]);
                    } else {
                        assert(t[i].1[j] == x);
                    }
                } else {
                    assert(t[i] == index[i]);
                }
            },
            None => {
                if i < index.len() {
                    assert(t[i] == index[i]);
                } else {
                    assert(t[i].1 == seq![x]);
                }
            },
        }
    }
}

/// The operations of a tree keep it sound: the empty tree is sound, and
/// adding a node, linking a child to a parent, setting a node's files, or
/// changing a node in its place without changing its id, each keeps a
/// sound tree sound.
pub proof fn law_tree_stays_sound(
    t: TreeView,
    n: NodeView,
    child: Seq<char>,
    parent: Seq<char>,
    id: Seq<char>,
    files: Seq<Seq<char>>,
    w: NodeView,
)
    ensures
        tree_sound(empty_tree()),
        tree_sound(t) ==> tree_sound(tree_with_node(t, n)),
        tree_sound(t) ==> tree_sound(
            TreeView { nodes: nodes_with_parent(t.nodes, child, parent), ..t },
        ),
        tree_sound(t) ==> tree_sound(
            TreeView {
                nodes: match lookup(t.nodes, id) {
                    Some(m) => upsert(t.nodes, id, with_files(m, files)),
                    None => t.nodes,
                },
                ..t
            },
        ),
        tree_sound(t) && lookup(t.nodes, id) is Some && w.id == id ==> tree_sound(
            TreeView { nodes: upsert(t.nodes, id, w), ..t },
        ),
{
    if tree_sound(t) {
        let nodes2 = upsert(t.nodes, n.id, n);
        lemma_upsert_keyed(t.nodes, n.id, n);
        lemma_index_after_upsert(t.name_index, t.nodes, n.id, n);
        lemma_index_after_upsert(t.type_index, t.nodes, n.id, n);
        lemma_upsert_lookup(t.nodes, n.id, n, n.id);
        lemma_index_after_append(t.name_index, nodes2, n.name, n.id);
        lemma_index_after_append(t.type_index, nodes2, n.node_type, n.id);
        // Linking a child to its parent.
        let first = match lookup(t.nodes, child) {
            Some(c) => upsert(t.nodes, child, with_parent(c, parent)),
            None => t.nodes,
        };
        match lookup(t.nodes, child) {
            Some(c) => {
                lemma_lookup_keyed(t.nodes, child);
                lemma_upsert_keyed(t.nodes, child, with_parent(c, parent));
                lemma_index_after_upsert(t.name_index, t.nodes, child, with_parent(c, parent));
                lemma_index_after_upsert(t.type_index, t.nodes, child, with_parent(c, parent));
            },
            None => {},
        }
        match lookup(first, parent) {
            Some(p) => {
                lemma_lookup_keyed(first, parent);
                lemma_upsert_keyed(first, parent, with_child(p, child));
                lemma_index_after_upsert(t.name_index, first, parent, with_child(p, child));
                lemma_index_after_upsert(t.type_index, first, parent, with_child(p, child));
            },
            None => {},
        }
        // Setting a node's files.
        match lookup(t.nodes, id) {
            Some(m) => {
                lemma_lookup_keyed(t.nodes, id);
                lemma_upsert_keyed(t.nodes, id, with_files(m, files));
                lemma_index_after_upsert(t.name_index, t.nodes, id, with_files(m, files));
                lemma_index_after_upsert(t.type_index, t.nodes, id, with_files(m, files));
            },
            None => {},
        }
        // Changing a node in its place.
        if lookup(t.nodes, id) is Some && w.id == id {
            lemma_upsert_keyed(t.nodes, id, w);
            lemma_index_after_upsert(t.name_index, t.nodes, id, w);
            lemma_index_after_upsert(t.type_index, t.nodes, id, w);
        }
    }
}

/// In a map that stores each node under its own id, the node found under
/// an id has that id.
pub proof fn lemma_lookup_keyed(nodes: Seq<(Seq<char>, NodeView)>, id: Seq<char>)
    requires
        ids_keyed(nodes),
    ensures
        lookup(nodes, id) is Some ==> lookup(nodes, id)->0.id == id,
{
    lemma_first_key(nodes, id);
    match first_key(nodes, id) {
        Some(i) => {
            assert(nodes[i].1.id == nodes[i].0);
        },
        None => {},
    }
}

/// The ids an index lists under a key are nodes, where all its ids are.
proof fn lemma_listed_stored<K>(index: Seq<(K, Seq<Seq<char>>)>, nodes: Seq<(Seq<char>, NodeView)>, k: K)
    requires
        index_ids_stored(index, nodes),
    ensures
        forall|j: int| 0 <= j < listed(index, k).len() ==> #[trigger] lookup(nodes, listed(index, k)[j]) is Some,
{
    lemma_first_key(index, k);
}

/// The nodes that ids name are the same in two maps that agree on them.
proof fn lemma_nodes_of_same(
    a: Seq<(Seq<char>, NodeView)>,
    b: Seq<(Seq<char>, NodeView)>,
    ids: Seq<Seq<char>>,
)
    requires
        forall|j: int| 0 <= j < ids.len() ==> lookup(a, #[trigger] ids[j]) == lookup(b, ids[j]),
    ensures
        nodes_of(a, ids) == nodes_of(b, ids),
    decreases ids.len(),
{
    if ids.len() > 0 {
        let g = ids.drop_last();
        assert forall|j: int| 0 <= j < g.len() implies lookup(a, #[trigger] g[j]) == lookup(b, g[j]) by {
            assert(g[j] == ids[j]);
        }
        lemma_nodes_of_same(a, b, g);
        assert(ids == g.push(ids.last()));
        lemma_nodes_of_push(a, g, ids.last());
        lemma_nodes_of_push(b, g, ids.last());
        assert(ids.last() == ids[ids.len() - 1]);
    }
}

/// What an index gives for a key, as the nodes it names.
pub open spec fn nodes_listed<K>(t: TreeView, index: Seq<(K, Seq<Seq<char>>)>, k: K) -> Seq<NodeView> {
    match lookup(index, k) {
        Some(ids) => nodes_of(t.nodes, ids),
        None => seq![],
    }
}

/// `nodes_listed` names the nodes of the listed ids.
proof fn lemma_nodes_listed<K>(t: TreeView, index: Seq<(K, Seq<Seq<char>>)>, k: K)
    ensures
        nodes_listed(t, index, k) == nodes_of(t.nodes, listed(index, k)),
{
    match lookup(index, k) {
        Some(ids) => {},
        None => {
            assert(nodes_of(t.nodes, Seq::<Seq<char>>::empty()) =~= Seq::<NodeView>::empty());
        },
    }
}

/// Adding a node with a new id to any sound tree puts it last among all
/// nodes, among the nodes of its name (found exactly) and among the nodes
/// of its kind, leaves the nodes of every other name and kind as they
/// were, and its id leads to it and its branch to its id.
pub proof fn law_add_node_appends_any(t: TreeView, n: NodeView)
    requires
        tree_sound(t),
        lookup(t.nodes, n.id) is None,
    ensures
        all_nodes(tree_with_node(t, n)) == all_nodes(t).push(n),
        forall|name: Seq<char>|
            #[trigger] found_by_name(tree_with_node(t, n), name, false) == if name == n.name {
                found_by_name(t, name, false).push(n)
            } else {
                found_by_name(t, name, false)
            },
        forall|k: NodeType|
            #[trigger] nodes_listed(tree_with_node(t, n), tree_with_node(t, n).type_index, k) == if k
                == n.node_type {
                nodes_listed(t, t.type_index, k).push(n)
            } else {
                nodes_listed(t, t.type_index, k)
            },
        lookup(tree_with_node(t, n).nodes, n.id) == Some(n),
        lookup(tree_with_node(t, n).branch_index, n.branch_name) == Some(n.id),
{
    let t2 = tree_with_node(t, n);
    lemma_first_key(t.nodes, n.id);
    assert(t2.nodes == t.nodes.push((n.id, n)));
    assert(all_nodes(t2) =~= all_nodes(t).push(n));
    law_tree_read_after_add(t, n);
    assert forall|name: Seq<char>| #[trigger] found_by_name(t2, name, false) == if name == n.name {
        found_by_name(t, name, false).push(n)
    } else {
        found_by_name(t, name, false)
    } by {
        let l = listed(t.name_index, name);
        lemma_append_to_listed(t.name_index, n.name, n.id, name);
        lemma_listed_stored(t.name_index, t.nodes, name);
        assert forall|j: int| 0 <= j < l.len() implies lookup(t2.nodes, #[trigger] l[j]) == lookup(
            t.nodes,
            l[j],
        ) by {
            lemma_upsert_lookup(t.nodes, n.id, n, l[j]);
        }
        lemma_nodes_of_same(t2.nodes, t.nodes, l);
        lemma_nodes_listed(t, t.name_index, name);
        lemma_nodes_listed(t2, t2.name_index, name);
        assert(found_by_name(t, name, false) == nodes_listed(t, t.name_index, name));
        assert(found_by_name(t2, name, false) == nodes_listed(t2, t2.name_index, name));
        if name == n.name {
            lemma_nodes_of_push(t2.nodes, l, n.id);
        }
    }
    assert forall|k: NodeType| #[trigger] nodes_listed(t2, t2.type_index, k) == if k == n.node_type {
        nodes_listed(t, t.type_index, k).push(n)
    } else {
        nodes_listed(t, t.type_index, k)
    } by {
        let l = listed(t.type_index, k);
        lemma_append_to_listed(t.type_index, n.node_type, n.id, k);
        lemma_listed_stored(t.type_index, t.nodes, k);
        assert forall|j: int| 0 <= j < l.len() implies lookup(t2.nodes, #[trigger] l[j]) == lookup(
            t.nodes,
            l[j],
        ) by {
            lemma_upsert_lookup(t.nodes, n.id, n, l[j]);
        }
        lemma_nodes_of_same(t2.nodes, t.nodes, l);
        lemma_nodes_listed(t, t.type_index, k);
        lemma_nodes_listed(t2, t2.type_index, k);
        if k == n.node_type {
            lemma_nodes_of_push(t2.nodes, l, n.id);
        }
    }
}

/// Every node that `node_hits` gives answers the search.
proof fn lemma_node_hits_answer(ns: Seq<NodeView>, query: Seq<char>, search_type: Seq<char>, fuzzy: bool)
    ensures
        forall|i: int|
            0 <= i < node_hits(ns, query, search_type, fuzzy).len() ==> search_hit(
                #[trigger] node_hits(ns, query, search_type, fuzzy)[i],
                query,
                search_type,
                fuzzy,
            ),
    decreases ns.len(),
{
    if ns.len() > 0 {
        lemma_node_hits_answer(ns.drop_last(), query, search_type, fuzzy);
        let h = node_hits(ns.drop_last(), query, search_type, fuzzy);
        let r = node_hits(ns, query, search_type, fuzzy);
        assert forall|i: int| 0 <= i < r.len() implies search_hit(#[trigger] r[i], query, search_type, fuzzy) by {
            if i < h.len() {
                assert(r[i] == h[i]);
            }
        }
    }
}

/// Keeping each id once keeps only nodes that were there.
proof fn lemma_dedup_by_id_within(s: Seq<NodeView>)
    ensures
        forall|i: int|
            0 <= i < dedup_by_id(s).len() ==> exists|j: int| 0 <= j < s.len() && s[j] == #[trigger] dedup_by_id(s)[i],
    decreases s.len(),
{
    if s.len() > 0 {
        lemma_dedup_by_id_within(s.drop_last());
        let d = dedup_by_id(s.drop_last());
        let r = dedup_by_id(s);
        assert forall|i: int| 0 <= i < r.len() implies exists|j: int| 0 <= j < s.len() && s[j] == #[trigger] r[i] by {
            if i < d.len() {
                assert(r[i] == d[i]);
                let j = choose|j: int| 0 <= j < s.drop_last().len() && s.drop_last()[j] == d[i];
                assert(s[j] == s.drop_last()[j]);
            } else {
                assert(r[i] == s.last());
                assert(s[s.len() - 1] == s.last());
            }
        }
    }
}

/// A search for error codes gives only error codes, and a search for
/// endpoints gives only endpoints and categories: every node a search of
/// kind `error` returns is an `ErrorCode`, and every node a search of kind
/// `endpoint` returns is an `Endpoint` or a `Category`; each of them has a
/// name that answers the query.
pub proof fn law_search_kinds(t: TreeView, query: Seq<char>, fuzzy: bool)
    ensures
        forall|i: int|
            0 <= i < search_result(t, query, "error"@, fuzzy).len() ==> (#[trigger] search_result(
                t,
                query,
                "error"@,
                fuzzy,
            )[i]).node_type == NodeType::ErrorCode && text_hit(
                search_result(t, query, "error"@, fuzzy)[i].name,
                query,
                fuzzy,
            ),
        forall|i: int|
            0 <= i < search_result(t, query, "endpoint"@, fuzzy).len() ==> ((#[trigger] search_result(
                t,
                query,
                "endpoint"@,
                fuzzy,
            )[i]).node_type == NodeType::Endpoint || search_result(
                t,
                query,
                "endpoint"@,
                fuzzy,
            )[i].node_type == NodeType::Category) && text_hit(
                search_result(t, query, "endpoint"@, fuzzy)[i].name,
                query,
                fuzzy,
            ),
{
    reveal_strlit("error");
    reveal_strlit("endpoint");
    reveal_strlit("branch");
    assert("error"@ != "branch"@) by {
        assert("error"@[0] != "branch"@[0]);
    }
    assert("endpoint"@ != "branch"@) by {
        assert("endpoint"@[0] != "branch"@[0]);
    }
    assert("error"@ != "endpoint"@) by {
        assert("error"@.len() != "endpoint"@.len());
    }
    let ns = all_nodes(t);
    lemma_node_hits_answer(ns, query, "error"@, fuzzy);
    lemma_node_hits_answer(ns, query, "endpoint"@, fuzzy);
    lemma_dedup_by_id_within(node_hits(ns, query, "error"@, fuzzy));
    lemma_dedup_by_id_within(node_hits(ns, query, "endpoint"@, fuzzy));
    let re = search_result(t, query, "error"@, fuzzy);
    let he = node_hits(ns, query, "error"@, fuzzy);
    assert(re == dedup_by_id(he));
    assert forall|i: int| 0 <= i < re.len() implies (#[trigger] re[i]).node_type == NodeType::ErrorCode
        && text_hit(re[i].name, query, fuzzy) by {
        let j = choose|j: int| 0 <= j < he.len() && he[j] == re[i];
        assert(search_hit(he[j], query, "error"@, fuzzy));
    }
    let rp = search_result(t, query, "endpoint"@, fuzzy);
    let hp = node_hits(ns, query, "endpoint"@, fuzzy);
    assert(rp == dedup_by_id(hp));
    assert forall|i: int| 0 <= i < rp.len() implies ((#[trigger] rp[i]).node_type == NodeType::Endpoint
        || rp[i].node_type == NodeType::Category) && text_hit(rp[i].name, query, fuzzy) by {
        let j = choose|j: int| 0 <= j < hp.len() && hp[j] == rp[i];
        assert(search_hit(hp[j], query, "endpoint"@, fuzzy));
    }
}

} // verus!

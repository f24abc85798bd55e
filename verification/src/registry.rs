//! The records that the registry keeps: the list of known repositories and
//! the mapping from API paths to the branches that hold them.
use crate::keyed::{insert_pair, lemma_pair_views_push, key_position, keys_distinct, lemma_pairs_map_at, pair_views, pairs_map};
use crate::text::{opt_text, str_eq};
use vstd::prelude::*;

verus! {

// ---------------------------------------------------------------------------
// Known repositories
// ---------------------------------------------------------------------------
/// A repository known by name.
pub struct RepoEntry {
    pub name: String,
    pub path: String,
}

/// The repositories recorded so far, in the order they were recorded.
pub struct RepoList {
    pub repos: Vec<RepoEntry>,
}

impl View for RepoEntry {
    type V = (Seq<char>, Seq<char>);

    open spec fn view(&self) -> (Seq<char>, Seq<char>) {
        (self.name@, self.path@)
    }
}

/// The name and path of each recorded repository.
pub open spec fn repo_views(v: Seq<RepoEntry>) -> Seq<(Seq<char>, Seq<char>)> {
    v.map_values(|e: RepoEntry| e@)
}

/// The first position of a repository named `name`.
pub open spec fn first_named(s: Seq<(Seq<char>, Seq<char>)>, name: Seq<char>) -> Option<int>
    decreases s.len(),
{
    if s.len() == 0 {
        None
    } else {
        match first_named(s.drop_last(), name) {
            Some(i) => Some(i),
            None => if s.last().0 == name {
                Some(s.len() - 1)
            } else {
                None
            },
        }
    }
}

/// The path recorded for `name`: that of the first entry with that name.
pub open spec fn repo_path(s: Seq<(Seq<char>, Seq<char>)>, name: Seq<char>) -> Option<Seq<char>> {
    match first_named(s, name) {
        Some(i) => Some(s[i].1),
        None => None,
    }
}

/// The list after recording `name` at `path`: the first entry with that
/// name takes the new path, or a new entry is added at the end.
pub open spec fn repos_after_add(
    s: Seq<(Seq<char>, Seq<char>)>,
    name: Seq<char>,
    path: Seq<char>,
) -> Seq<(Seq<char>, Seq<char>)> {
    match first_named(s, name) {
        Some(i) => s.update(i, (name, path)),
        None => s.push((name, path)),
    }
}

pub proof fn lemma_first_named(s: Seq<(Seq<char>, Seq<char>)>, name: Seq<char>)
    ensures
        match first_named(s, name) {
            Some(i) => 0 <= i < s.len() && s[i].0 == name && forall|j: int|
                0 <= j < i ==> s[j].0 != name,
            None => forall|j: int| 0 <= j < s.len() ==> s[j].0 != name,
        },
    decreases s.len(),
{
    if s.len() > 0 {
        lemma_first_named(s.drop_last(), name);
        assert(forall|j: int| 0 <= j < s.len() - 1 ==> s.drop_last()[j] == s[j]);
    }
}

pub proof fn lemma_first_named_at(s: Seq<(Seq<char>, Seq<char>)>, name: Seq<char>, i: int)
    requires
        0 <= i < s.len(),
        s[i].0 == name,
        forall|j: int| 0 <= j < i ==> s[j].0 != name,
    ensures
        first_named(s, name) == Some(i),
{
    lemma_first_named(s, name);
    match first_named(s, name) {
        Some(k) => {
            if k < i {
                assert(s[k].0 != name);
            }
            if k > i {
                assert(s[i].0 != name);
            }
        },
        None => {
            assert(s[i].0 != name);
        },
    }
}

/// The position of the first repository with the given name.
fn repo_position(repos: &RepoList, name: &str) -> (r: Option<usize>)
    ensures
        match r {
            Some(i) => i < repos.repos.len() && first_named(repo_views(repos.repos@), name@) == Some(
                i as int,
            ),
            None => first_named(repo_views(repos.repos@), name@) is None,
        },
{
    let ghost s = repo_views(repos.repos@);
    let mut i: usize = 0;
    while i < repos.repos.len()
        invariant
            i <= repos.repos.len(),
            s == repo_views(repos.repos@),
            forall|j: int| 0 <= j < i ==> s[j].0 != name@,
        decreases repos.repos.len() - i,
    {
        if str_eq(repos.repos[i].name.as_str(), name) {
            proof {
                lemma_first_named_at(s, name@, i as int);
            }
            return Some(i);
        }
        i = i + 1;
    }
    proof {
        lemma_first_named(s, name@);
        if first_named(s, name@) is Some {
            let k = first_named(s, name@)->0;
            assert(s[k].0 != name@);
        }
    }
    None
}

/// Records `name` at `path`: the first entry with that name takes the new
/// path, or a new entry is added at the end.
pub fn add_repo(repos: &mut RepoList, name: &str, path: &str)
    ensures
        repo_views(final(repos).repos@) == repos_after_add(repo_views(old(repos).repos@), name@, path@),
{
    let ghost s = repo_views(repos.repos@);
    let entry = RepoEntry { name: name.to_string(), path: path.to_string() };
    match repo_position(repos, name) {
        Some(i) => {
            repos.repos.set(i, entry);
            assert(repo_views(repos.repos@) =~= s.update(i as int, (name@, path@)));
        },
        None => {
            repos.repos.push(entry);
            assert(repo_views(repos.repos@) =~= s.push((name@, path@)));
        },
    }
}

/// The path recorded for `name`, if any.
pub fn find_repo_path(repos: &RepoList, name: &str) -> (r: Option<String>)
    ensures
        match r {
            Some(p) => repo_path(repo_views(repos.repos@), name@) == Some(p@),
            None => repo_path(repo_views(repos.repos@), name@) is None,
        },
{
    match repo_position(repos, name) {
        Some(i) => Some(repos.repos[i].path.clone()),
        None => None,
    }
}

/// After `name` is recorded at `path`, looking it up gives `path`.
pub proof fn law_repo_read_after_write(
    s: Seq<(Seq<char>, Seq<char>)>,
    name: Seq<char>,
    path: Seq<char>,
)
    ensures
        repo_path(repos_after_add(s, name, path), name) == Some(path),
{
    lemma_first_named(s, name);
    let t = repos_after_add(s, name, path);
    match first_named(s, name) {
        Some(i) => {
            lemma_first_named_at(t, name, i);
        },
        None => {
            lemma_first_named_at(t, name, s.len() as int);
        },
    }
}

/// Recording `name` leaves the path recorded for every other name as it
/// was.
pub proof fn law_repo_others_unchanged(
    s: Seq<(Seq<char>, Seq<char>)>,
    name: Seq<char>,
    path: Seq<char>,
    other: Seq<char>,
)
    requires
        other != name,
    ensures
        repo_path(repos_after_add(s, name, path), other) == repo_path(s, other),
{
    lemma_first_named(s, name);
    lemma_first_named(s, other);
    let t = repos_after_add(s, name, path);
    lemma_first_named(t, other);
    match first_named(s, other) {
        Some(k) => {
            assert(t[k].0 == other);
            lemma_first_named_at(t, other, k);
        },
        None => {
            match first_named(t, other) {
                Some(k) => {
                    assert(k < s.len() ==> s[k].0 == other);
                },
                None => {},
            }
        },
    }
}

/// Recording a repository never gives one name two entries: if names were
/// unique before, they are after.
pub proof fn law_repo_names_stay_unique(
    s: Seq<(Seq<char>, Seq<char>)>,
    name: Seq<char>,
    path: Seq<char>,
)
    requires
        forall|i: int, j: int| 0 <= i < j < s.len() ==> s[i].0 != s[j].0,
    ensures
        ({
            let t = repos_after_add(s, name, path);
            forall|i: int, j: int| 0 <= i < j < t.len() ==> t[i].0 != t[j].0
        }),
{
    lemma_first_named(s, name);
    let t = repos_after_add(s, name, path);
    assert forall|i: int, j: int| 0 <= i < j < t.len() implies t[i].0 != t[j].0 by {
        if j == s.len() {
            assert(t[i].0 == s[i].0);
        } else {
            match first_named(s, name) {
                Some(k) => {
                    if i == k {
                        assert(s[j].0 != s[k].0);
                    } else if j == k {
                        assert(s[i].0 != s[k].0);
                    }
                },
                None => {},
            }
        }
    }
}

// ---------------------------------------------------------------------------
// The path mapping
// ---------------------------------------------------------------------------
/// Where an API path lives: its branch, its kind and its parent.
pub struct MappingEntry {
    pub path: String,
    pub branch: String,
    pub entry_type: String,
    pub parent: Option<String>,
    pub created: String,
}

/// What a mapping entry holds.
pub struct EntryView {
    pub path: Seq<char>,
    pub branch: Seq<char>,
    pub entry_type: Seq<char>,
    pub parent: Option<Seq<char>>,
    pub created: Seq<char>,
}

impl View for MappingEntry {
    type V = EntryView;

    open spec fn view(&self) -> EntryView {
        EntryView {
            path: self.path@,
            branch: self.branch@,
            entry_type: self.entry_type@,
            parent: opt_text(self.parent),
            created: self.created@,
        }
    }
}

impl MappingEntry {
    /// A copy of the entry.
    pub fn duplicate(&self) -> (r: MappingEntry)
        ensures
            r@ == self@,
    {
        MappingEntry {
            path: self.path.clone(),
            branch: self.branch.clone(),
            entry_type: self.entry_type.clone(),
            parent: match &self.parent {
                Some(p) => Some(p.clone()),
                None => None,
            },
            created: self.created.clone(),
        }
    }
}

/// What a mapping holds: the entries by path, the paths by branch, and
/// whether it changed since it was last saved.
pub struct MappingView {
    pub entries: Seq<(Seq<char>, EntryView)>,
    pub branches: Seq<(Seq<char>, Seq<char>)>,
    pub is_dirty: bool,
}

impl MappingView {
    /// The entry of each path.
    pub open spec fn entry_map(self) -> Map<Seq<char>, EntryView> {
        pairs_map(self.entries)
    }

    /// The path of each branch.
    pub open spec fn branch_map(self) -> Map<Seq<char>, Seq<char>> {
        pairs_map(self.branches)
    }

    /// No path and no branch is listed twice.
    pub open spec fn wf(self) -> bool {
        keys_distinct(self.entries) && keys_distinct(self.branches)
    }
}

/// The entry that `add` records.
pub open spec fn new_entry(
    path: Seq<char>,
    branch: Seq<char>,
    entry_type: Seq<char>,
    parent: Option<Seq<char>>,
    created: Seq<char>,
) -> EntryView {
    EntryView { path, branch, entry_type, parent, created }
}

/// The paths of the API and the branches that hold them.
pub struct PathMapping {
    entries: Vec<(String, MappingEntry)>,
    branches: Vec<(String, String)>,
    is_dirty: bool,
}

impl View for PathMapping {
    type V = MappingView;

    closed spec fn view(&self) -> MappingView {
        MappingView {
            entries: pair_views(self.entries@),
            branches: pair_views(self.branches@),
            is_dirty: self.is_dirty,
        }
    }
}

impl PathMapping {
    #[verifier::type_invariant]
    closed spec fn inv(self) -> bool {
        keys_distinct(pair_views(self.entries@)) && keys_distinct(pair_views(self.branches@))
    }

    /// No path and no branch is listed twice.
    pub fn well_formed(&self) -> (r: bool)
        ensures
            r,
            self@.wf(),
    {
        proof {
            use_type_invariant(self);
        }
        true
    }

    /// An empty mapping.
    pub fn new() -> (m: PathMapping)
        ensures
            m@.entries == Seq::<(Seq<char>, EntryView)>::empty(),
            m@.branches == Seq::<(Seq<char>, Seq<char>)>::empty(),
            !m@.is_dirty,
    {
        let m = PathMapping { entries: Vec::new(), branches: Vec::new(), is_dirty: false };
        assert(pair_views(m.entries@) =~= Seq::<(Seq<char>, EntryView)>::empty());
        assert(pair_views(m.branches@) =~= Seq::<(Seq<char>, Seq<char>)>::empty());
        m
    }

    /// Records `path` with the given entry, and `branch` as holding `path`;
    /// the mapping is then changed since it was last saved.
    pub fn add_with_created(
        &mut self,
        path: &str,
        branch: &str,
        entry_type: &str,
        parent: Option<&str>,
        created: &str,
    )
        ensures
            final(self)@.wf(),
            final(self)@.entry_map() == old(self)@.entry_map().insert(
                path@,
                new_entry(
                    path@,
                    branch@,
                    entry_type@,
                    match parent {
                        Some(p) => Some(p@),
                        None => None,
                    },
                    created@,
                ),
            ),
            final(self)@.branch_map() == old(self)@.branch_map().insert(branch@, path@),
            final(self)@.is_dirty,
    {
        proof {
            use_type_invariant(&*self);
        }
        let entry = MappingEntry {
            path: path.to_string(),
            branch: branch.to_string(),
            entry_type: entry_type.to_string(),
            parent: match parent {
                Some(p) => Some(p.to_string()),
                None => None,
            },
            created: created.to_string(),
        };
        let mut entries: Vec<(String, MappingEntry)> = Vec::new();
        let mut branches: Vec<(String, String)> = Vec::new();
        std::mem::swap(&mut entries, &mut self.entries);
        std::mem::swap(&mut branches, &mut self.branches);
        insert_pair(&mut entries, path.to_string(), entry);
        insert_pair(&mut branches, branch.to_string(), path.to_string());
        self.entries = entries;
        self.branches = branches;
        self.is_dirty = true;
    }

    /// The entry recorded for `path`.
    pub fn get_by_path(&self, path: &str) -> (r: Option<&MappingEntry>)
        ensures
            match r {
                Some(e) => self@.entry_map().contains_key(path@) && self@.entry_map()[path@]
                    == e@,
                None => !self@.entry_map().contains_key(path@),
            },
    {
        proof {
            use_type_invariant(self);
        }
        match key_position(&self.entries, path) {
            Some(i) => {
                proof {
                    lemma_pairs_map_at(pair_views(self.entries@), i as int);
                }
                Some(&self.entries[i].1)
            },
            None => None,
        }
    }

    /// Whether the mapping changed since it was last saved.
    pub fn is_dirty(&self) -> (r: bool)
        ensures
            r == self@.is_dirty,
    {
        self.is_dirty
    }

    /// Marks the mapping as saved.
    pub fn mark_saved(&mut self)
        ensures
            final(self)@.entries == old(self)@.entries,
            final(self)@.branches == old(self)@.branches,
            !final(self)@.is_dirty,
    {
        proof {
            use_type_invariant(&*self);
        }
        self.is_dirty = false;
    }

    /// The entries, each with its path, in the order they were first added.
    pub fn entries(&self) -> (r: &Vec<(String, MappingEntry)>)
        ensures
            pair_views(r@) == self@.entries,
    {
        &self.entries
    }

    /// The branches, each with the path it holds.
    pub fn branches(&self) -> (r: &Vec<(String, String)>)
        ensures
            pair_views(r@) == self@.branches,
    {
        &self.branches
    }

    /// A mapping from stored pairs; where a path or a branch occurs twice,
    /// the later pair is the one kept, as a map being filled would keep it.
    pub fn from_pairs(entries: Vec<(String, MappingEntry)>, branches: Vec<(String, String)>) -> (m:
        PathMapping)
        ensures
            m@.entry_map() == pairs_fold(pair_views(entries@)),
            m@.branch_map() == pairs_fold(pair_views(branches@)),
            !m@.is_dirty,
    {
        let mut m = PathMapping::new();
        let mut es: Vec<(String, MappingEntry)> = Vec::new();
        let mut i: usize = 0;
        assert(pair_views(entries@).take(0) =~= Seq::<(Seq<char>, EntryView)>::empty());
        assert(pairs_map(pair_views(es@)) =~= Map::<Seq<char>, EntryView>::empty());
        while i < entries.len()
            invariant
                i <= entries.len(),
                keys_distinct(pair_views(es@)),
                pairs_map(pair_views(es@)) == pairs_fold(pair_views(entries@).take(i as int)),
            decreases entries.len() - i,
        {
            let ghost t = pair_views(entries@).take(i + 1);
            assert(t.drop_last() =~= pair_views(entries@).take(i as int));
            insert_pair(&mut es, entries[i].0.clone(), entries[i].1.duplicate());
            i = i + 1;
        }
        let mut bs: Vec<(String, String)> = Vec::new();
        let mut j: usize = 0;
        assert(pairs_map(pair_views(bs@)) =~= Map::<Seq<char>, Seq<char>>::empty());
        while j < branches.len()
            invariant
                j <= branches.len(),
                keys_distinct(pair_views(bs@)),
                pairs_map(pair_views(bs@)) == pairs_fold(pair_views(branches@).take(j as int)),
            decreases branches.len() - j,
        {
            let ghost t = pair_views(branches@).take(j + 1);
            assert(t.drop_last() =~= pair_views(branches@).take(j as int));
            insert_pair(&mut bs, branches[j].0.clone(), branches[j].1.clone());
            j = j + 1;
        }
        assert(pair_views(entries@).take(entries.len() as int) =~= pair_views(entries@));
        assert(pair_views(branches@).take(branches.len() as int) =~= pair_views(branches@));
        m.entries = es;
        m.branches = bs;
        m
    }
}

/// The map that inserting the pairs one after another builds.
pub open spec fn pairs_fold<V>(s: Seq<(Seq<char>, V)>) -> Map<Seq<char>, V>
    decreases s.len(),
{
    if s.len() == 0 {
        Map::empty()
    } else {
        pairs_fold(s.drop_last()).insert(s.last().0, s.last().1)
    }
}

impl PathMapping {
    /// A copy of the mapping.
    pub fn duplicate(&self) -> (r: PathMapping)
        ensures
            r@ == self@,
    {
        proof {
            use_type_invariant(self);
        }
        let mut es: Vec<(String, MappingEntry)> = Vec::new();
        let mut i: usize = 0;
        while i < self.entries.len()
            invariant
                i <= self.entries.len(),
                pair_views(es@) == pair_views(self.entries@).take(i as int),
            decreases self.entries.len() - i,
        {
            let pair = (self.entries[i].0.clone(), self.entries[i].1.duplicate());
            assert((pair.0@, pair.1@) == pair_views(self.entries@)[i as int]);
            proof {
                lemma_pair_views_push(es@, pair);
            }
            es.push(pair);
            i = i + 1;
            assert(pair_views(es@) =~= pair_views(self.entries@).take(i as int));
        }
        let mut bs: Vec<(String, String)> = Vec::new();
        let mut j: usize = 0;
        while j < self.branches.len()
            invariant
                j <= self.branches.len(),
                pair_views(bs@) == pair_views(self.branches@).take(j as int),
            decreases self.branches.len() - j,
        {
            let pair = (self.branches[j].0.clone(), self.branches[j].1.clone());
            assert((pair.0@, pair.1@) == pair_views(self.branches@)[j as int]);
            proof {
                lemma_pair_views_push(bs@, pair);
            }
            bs.push(pair);
            j = j + 1;
            assert(pair_views(bs@) =~= pair_views(self.branches@).take(j as int));
        }
        assert(pair_views(self.entries@).take(i as int) =~= pair_views(self.entries@));
        assert(pair_views(self.branches@).take(j as int) =~= pair_views(self.branches@));
        PathMapping { entries: es, branches: bs, is_dirty: self.is_dirty }
    }
}

/// After an entry is added for `path`, looking `path` up gives that entry,
/// every other path gives what it gave before, and the branch added leads
/// back to `path`.
pub proof fn law_mapping_read_after_add(
    before: MappingView,
    after: MappingView,
    path: Seq<char>,
    branch: Seq<char>,
    entry_type: Seq<char>,
    parent: Option<Seq<char>>,
    created: Seq<char>,
)
    requires
        after.entry_map() == before.entry_map().insert(
            path,
            new_entry(path, branch, entry_type, parent, created),
        ),
        after.branch_map() == before.branch_map().insert(branch, path),
    ensures
        after.entry_map().contains_key(path),
        after.entry_map()[path] == new_entry(path, branch, entry_type, parent, created),
        forall|q: Seq<char>|
            q != path ==> (#[trigger] after.entry_map().contains_key(q)
                == before.entry_map().contains_key(q) && after.entry_map()[q]
                == before.entry_map()[q]),
        after.branch_map()[branch] == path,
        after.entry_map()[after.branch_map()[branch]].branch == branch,
{
}

/// The remembered copy of the mapping of one repository.
pub struct MappingCache {
    slot: Option<(String, PathMapping)>,
}

/// What the cache holds: the repository path and the mapping's view.
pub open spec fn cached_view(slot: Option<(String, PathMapping)>) -> Option<(Seq<char>, MappingView)> {
    match slot {
        Some((p, m)) => Some((p@, m@)),
        None => None,
    }
}

impl MappingCache {
    /// The view of what the cache holds.
    pub closed spec fn held(self) -> Option<(Seq<char>, MappingView)> {
        cached_view(self.slot)
    }

    /// An empty cache.
    pub fn new() -> (c: MappingCache)
        ensures
            c.held() is None,
    {
        MappingCache { slot: None }
    }

    /// Remembers `mapping` as read for the repository at `repo_path`.
    pub fn store(&mut self, repo_path: &str, mapping: &PathMapping)
        ensures
            final(self).held() == Some((repo_path@, mapping@)),
    {
        self.slot = Some((repo_path.to_string(), mapping.duplicate()));
    }

    /// Remembers `mapping` as just saved: a copy that is no longer changed.
    pub fn store_saved(&mut self, repo_path: &str, mapping: &PathMapping)
        ensures
            final(self).held() == Some(
                (
                    repo_path@,
                    MappingView {
                        entries: mapping@.entries,
                        branches: mapping@.branches,
                        is_dirty: false,
                    },
                ),
            ),
    {
        let mut copy = mapping.duplicate();
        copy.mark_saved();
        self.slot = Some((repo_path.to_string(), copy));
    }
}

/// Whether the cache can answer for the repository at `repo_path`: it
/// holds that repository's mapping, unchanged since it was saved.
pub open spec fn cache_answers(held: Option<(Seq<char>, MappingView)>, repo_path: Seq<char>) -> bool {
    match held {
        Some((p, m)) => p == repo_path && !m.is_dirty,
        None => false,
    }
}

/// The mapping of the repository at `repo_path`, as far as the cache can
/// give it; `None` means that it must be read from the repository.
pub fn load_mapping(cache: &MappingCache, repo_path: &str) -> (r: Option<PathMapping>)
    ensures
        match r {
            Some(m) => cache_answers(cache.held(), repo_path@) && cache.held().unwrap().1 == m@,
            None => !cache_answers(cache.held(), repo_path@),
        },
{
    match &cache.slot {
        Some((p, m)) => {
            if str_eq(p.as_str(), repo_path) && !m.is_dirty() {
                Some(m.duplicate())
            } else {
                None
            }
        },
        None => None,
    }
}

impl Default for PathMapping {
    /// An empty mapping.
    fn default() -> (m: PathMapping)
        ensures
            m@.entries == Seq::<(Seq<char>, EntryView)>::empty(),
            m@.branches == Seq::<(Seq<char>, Seq<char>)>::empty(),
            !m@.is_dirty,
    {
        PathMapping::new()
    }
}

/// A mapping just saved for a repository is what the cache answers for
/// that repository, and for no other.
pub proof fn law_saved_mapping_answered(repo_path: Seq<char>, other: Seq<char>, m: MappingView)
    ensures
        cache_answers(
            Some((repo_path, MappingView { entries: m.entries, branches: m.branches, is_dirty: false })),
            repo_path,
        ),
        other != repo_path ==> !cache_answers(
            Some((repo_path, MappingView { entries: m.entries, branches: m.branches, is_dirty: false })),
            other,
        ),
        !cache_answers(None, repo_path),
{
}

/// `after` is `before` with `path` recorded on `branch` as `add` records it.
pub open spec fn mapping_added(
    before: MappingView,
    after: MappingView,
    path: Seq<char>,
    branch: Seq<char>,
    entry_type: Seq<char>,
    parent: Option<Seq<char>>,
    created: Seq<char>,
) -> bool {
    &&& after.wf()
    &&& after.entry_map() == before.entry_map().insert(
        path,
        new_entry(path, branch, entry_type, parent, created),
    )
    &&& after.branch_map() == before.branch_map().insert(branch, path)
    &&& after.is_dirty
}

} // verus!

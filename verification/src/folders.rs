//! The Folders view: directory nodes with their indexed audio files, the
//! lookup that matches files to track rows, and the flat listing.

use vstd::prelude::*;
use crate::fmt::{repeat_join, repeat_joined, views};
use crate::order::{as_ints, is_permutation, lex_le, sort_order, sorted_by, stable};
use crate::path::{file_name, file_name_spec};
use crate::text::{chars_of, extend_chars, string_from_chars, vec_eq};
use crate::watcher::{is_audio_path, is_audio_path_spec};

verus! {

/// A single music file (track) attached to a folder node.
#[derive(Debug, Clone, PartialEq, Eq)]
pub struct FolderFile {
    pub path: String,
    pub title: Option<String>,
    pub track_id: Option<i64>,
}

/// A directory node in the Folders view.
#[derive(Debug, PartialEq, Eq)]
pub struct FolderNode {
    /// Watched-root id; `None` for deeper nodes.
    pub folder_id: Option<i64>,
    /// Display name (last segment of `path`); `None` for root nodes.
    pub name: Option<String>,
    /// Absolute path on disk.
    pub path: String,
    /// Indexed music files directly inside this directory.
    pub files: Vec<FolderFile>,
    /// Direct subdirectories, sorted by path.
    pub children: Vec<FolderNode>,
}

/// Top-level result returned to the front-end.
#[derive(Debug, PartialEq, Eq)]
pub struct FolderView {
    /// Every directory across all roots (roots included), sorted by path.
    pub flat: Vec<FolderNode>,
    /// One entry per watched root, in the order the roots were given.
    pub root_children: Vec<FolderNode>,
}

/// What a file entry holds.
pub struct FileModel {
    pub path: Seq<char>,
    pub title: Option<Seq<char>>,
    pub track_id: Option<i64>,
}

/// What a directory node holds, children included.
pub struct NodeModel {
    pub folder_id: Option<i64>,
    pub name: Option<Seq<char>>,
    pub path: Seq<char>,
    pub files: Seq<FileModel>,
    pub children: Seq<NodeModel>,
}

impl View for FolderFile {
    type V = FileModel;

    open spec fn view(&self) -> FileModel {
        FileModel {
            path: self.path@,
            title: crate::edit::opt_text(self.title),
            track_id: self.track_id,
        }
    }
}

pub open spec fn file_models(s: Seq<FolderFile>) -> Seq<FileModel> {
    s.map_values(|f: FolderFile| f@)
}

/// The model of a node and everything under it.
pub open spec fn node_model(n: FolderNode) -> NodeModel
    decreases n, 1nat,
{
    NodeModel {
        folder_id: n.folder_id,
        name: crate::edit::opt_text(n.name),
        path: n.path@,
        files: file_models(n.files@),
        children: child_models(n.children@, n),
    }
}

/// The models of the nodes of `s` (children of `parent`).
pub open spec fn child_models(s: Seq<FolderNode>, parent: FolderNode) -> Seq<NodeModel>
    decreases parent, 0nat, s.len(),
    when s.len() == 0 || (forall|i: int| 0 <= i < s.len() ==> decreases_to!(parent => #[trigger] s[i]))
{
    if s.len() == 0 {
        Seq::empty()
    } else {
        child_models(s.drop_last(), parent).push(node_model(s.last()))
    }
}

impl View for FolderNode {
    type V = NodeModel;

    open spec fn view(&self) -> NodeModel {
        node_model(*self)
    }
}

pub open spec fn node_models(s: Seq<FolderNode>) -> Seq<NodeModel> {
    s.map_values(|n: FolderNode| n@)
}

proof fn lemma_children_decrease(n: FolderNode)
    ensures
        forall|i: int| 0 <= i < n.children@.len() ==> decreases_to!(n => #[trigger] n.children@[i]),
{
    assert forall|i: int| 0 <= i < n.children@.len() implies decreases_to!(n => #[trigger] n.children@[i]) by {
        assert(decreases_to!(n => n.children));
        assert(decreases_to!(n.children => n.children@));
        assert(decreases_to!(n.children@ => n.children@[i]));
    }
}

proof fn lemma_prefix_decrease(n: FolderNode, k: int)
    requires
        0 <= k <= n.children@.len(),
    ensures
        forall|i: int| 0 <= i < n.children@.take(k).len() ==> decreases_to!(n => #[trigger] n.children@.take(k)[i]),
{
    lemma_children_decrease(n);
    assert forall|i: int| 0 <= i < n.children@.take(k).len() implies decreases_to!(n => #[trigger] n.children@.take(k)[i]) by {
        assert(n.children@.take(k)[i] == n.children@[i]);
    }
}

/// The children's models are the models of the children.
proof fn lemma_child_models(n: FolderNode, k: int)
    requires
        0 <= k <= n.children@.len(),
    ensures
        child_models(n.children@.take(k), n) == node_models(n.children@.take(k)),
    decreases k,
{
    lemma_prefix_decrease(n, k);
    if k > 0 {
        lemma_prefix_decrease(n, k - 1);
        assert(n.children@.take(k).drop_last() =~= n.children@.take(k - 1));
        lemma_child_models(n, k - 1);
        assert(node_models(n.children@.take(k)) =~= node_models(n.children@.take(k - 1)).push(
            n.children@[k - 1]@,
        ));
    } else {
        assert(node_models(n.children@.take(0)) =~= Seq::<NodeModel>::empty());
    }
}

proof fn lemma_node_children(n: FolderNode)
    ensures
        n@.children == node_models(n.children@),
{
    lemma_child_models(n, n.children@.len() as int);
    assert(n.children@.take(n.children@.len() as int) =~= n.children@);
}

fn copy_text(o: &Option<String>) -> (r: Option<String>)
    ensures
        r == *o,
{
    match o {
        Some(s) => Some(s.clone()),
        None => None,
    }
}

fn copy_file(f: &FolderFile) -> (r: FolderFile)
    ensures
        r == *f,
{
    FolderFile { path: f.path.clone(), title: copy_text(&f.title), track_id: f.track_id }
}

/// A copy of a node and everything under it.
pub fn copy_node(n: &FolderNode) -> (r: FolderNode)
    ensures
        r@ == n@,
    decreases n,
{
    let mut files: Vec<FolderFile> = Vec::new();
    let mut i: usize = 0;
    while i < n.files.len()
        invariant
            i <= n.files.len(),
            files@ == n.files@.take(i as int),
        decreases n.files.len() - i,
    {
        files.push(copy_file(&n.files[i]));
        proof {
            assert(n.files@.take(i + 1) =~= n.files@.take(i as int).push(n.files@[i as int]));
        }
        i += 1;
    }
    let mut children: Vec<FolderNode> = Vec::new();
    let mut j: usize = 0;
    while j < n.children.len()
        invariant
            j <= n.children.len(),
            node_models(children@) == node_models(n.children@.take(j as int)),
        decreases n.children.len() - j,
    {
        proof {
            lemma_children_decrease(*n);
        }
        let c = copy_node(&n.children[j]);
        let ghost before = children@;
        children.push(c);
        proof {
            assert(n.children@.take(j + 1) =~= n.children@.take(j as int).push(
                n.children@[j as int],
            ));
            assert(node_models(children@) =~= node_models(before).push(c@));
            assert(node_models(n.children@.take(j + 1)) =~= node_models(n.children@.take(j as int)).push(
                n.children@[j as int]@,
            ));
        }
        j += 1;
    }
    proof {
        assert(files@ =~= n.files@);
        assert(n.children@.take(n.children.len() as int) =~= n.children@);
    }
    let r = FolderNode {
        folder_id: n.folder_id,
        name: copy_text(&n.name),
        path: n.path.clone(),
        files,
        children,
    };
    proof {
        lemma_node_children(r);
        lemma_node_children(*n);
    }
    r
}

// ---------------------------------------------------------------------------
// The tree's nodes in order, and its file count.
// ---------------------------------------------------------------------------

/// `m` followed by every node under it, depth first, children in order.
pub open spec fn preorder(m: NodeModel) -> Seq<NodeModel>
    decreases m, 1nat,
{
    seq![m] + preorder_all(m.children, m)
}

/// The depth-first listings of the nodes of `s` (children of `parent`),
/// one after the other.
pub open spec fn preorder_all(s: Seq<NodeModel>, parent: NodeModel) -> Seq<NodeModel>
    decreases parent, 0nat, s.len(),
    when s.len() == 0 || (forall|i: int| 0 <= i < s.len() ==> decreases_to!(parent => #[trigger] s[i]))
{
    if s.len() == 0 {
        Seq::empty()
    } else {
        preorder_all(s.drop_last(), parent) + preorder(s.last())
    }
}

/// Files directly in `m` and in every directory under it.
pub open spec fn file_count(m: NodeModel) -> nat
    decreases m, 1nat,
{
    m.files.len() + file_count_all(m.children, m)
}

pub open spec fn file_count_all(s: Seq<NodeModel>, parent: NodeModel) -> nat
    decreases parent, 0nat, s.len(),
    when s.len() == 0 || (forall|i: int| 0 <= i < s.len() ==> decreases_to!(parent => #[trigger] s[i]))
{
    if s.len() == 0 {
        0
    } else {
        file_count_all(s.drop_last(), parent) + file_count(s.last())
    }
}

proof fn lemma_model_prefix_decrease(m: NodeModel, k: int)
    requires
        0 <= k <= m.children.len(),
    ensures
        forall|i: int| 0 <= i < m.children.take(k).len() ==> decreases_to!(m => #[trigger] m.children.take(k)[i]),
{
    assert forall|i: int| 0 <= i < m.children.take(k).len() implies decreases_to!(m => #[trigger] m.children.take(k)[i]) by {
        assert(m.children.take(k)[i] == m.children[i]);
        assert(decreases_to!(m => m.children));
        assert(decreases_to!(m.children => m.children[i]));
    }
}

/// Appends `node` and every node under it, depth first, to `out`.
pub fn flatten(node: &FolderNode, out: &mut Vec<FolderNode>)
    ensures
        node_models(final(out)@) == node_models(old(out)@) + preorder(node@),
    decreases node,
{
    let ghost start = node_models(old(out)@);
    let ghost m = node@;
    proof {
        lemma_node_children(*node);
    }
    let c = copy_node(node);
    out.push(c);
    proof {
        assert(node_models(out@) =~= start + seq![m]);
        lemma_model_prefix_decrease(m, 0);
        assert(m.children.take(0).len() == 0);
    }
    let mut i: usize = 0;
    while i < node.children.len()
        invariant
            i <= node.children.len(),
            m == node@,
            m.children == node_models(node.children@),
            node_models(out@) == start + seq![m] + preorder_all(m.children.take(i as int), m),
        decreases node.children.len() - i,
    {
        proof {
            lemma_children_decrease(*node);
            lemma_model_prefix_decrease(m, i + 1);
            lemma_model_prefix_decrease(m, i as int);
            assert(m.children.take(i + 1).drop_last() =~= m.children.take(i as int));
            assert(m.children.take(i + 1).last() == node.children@[i as int]@);
        }
        flatten(&node.children[i], out);
        proof {
            assert(node_models(out@) =~= start + seq![m] + preorder_all(m.children.take(i + 1), m));
        }
        i += 1;
    }
    proof {
        assert(m.children.take(node.children.len() as int) =~= m.children);
        assert(node_models(out@) =~= start + preorder(m));
    }
}

proof fn lemma_count_prefix_bounded(m: NodeModel, k: int)
    requires
        0 <= k <= m.children.len(),
    ensures
        file_count_all(m.children.take(k), m) <= file_count_all(m.children, m),
    decreases m.children.len() - k,
{
    lemma_model_prefix_decrease(m, k);
    if k < m.children.len() {
        lemma_model_prefix_decrease(m, k + 1);
        assert(m.children.take(k + 1).drop_last() =~= m.children.take(k));
        lemma_count_prefix_bounded(m, k + 1);
    } else {
        assert(m.children.take(k) =~= m.children);
    }
}

/// Number of files in `node` and every directory under it.
pub fn count_files(node: &FolderNode) -> (r: i64)
    requires
        file_count(node@) <= i64::MAX,
    ensures
        r == file_count(node@),
    decreases node,
{
    let ghost m = node@;
    proof {
        lemma_node_children(*node);
        lemma_model_prefix_decrease(m, 0);
        assert(m.files.len() == node.files@.len());
    }
    let mut n: i64 = node.files.len() as i64;
    let mut i: usize = 0;
    while i < node.children.len()
        invariant
            i <= node.children.len(),
            m == node@,
            m.children == node_models(node.children@),
            file_count(m) <= i64::MAX,
            n == m.files.len() + file_count_all(m.children.take(i as int), m),
        decreases node.children.len() - i,
    {
        proof {
            lemma_children_decrease(*node);
            lemma_model_prefix_decrease(m, i + 1);
            lemma_model_prefix_decrease(m, i as int);
            assert(m.children.take(i + 1).drop_last() =~= m.children.take(i as int));
            assert(m.children.take(i + 1).last() == node.children@[i as int]@);
            lemma_count_prefix_bounded(m, i + 1);
        }
        let c = count_files(&node.children[i]);
        n = n + c;
        i += 1;
    }
    proof {
        assert(m.children.take(node.children.len() as int) =~= m.children);
    }
    n
}

// ---------------------------------------------------------------------------
// Directory contents.
// ---------------------------------------------------------------------------

/// The display name of a directory node: none for a watched root (the
/// renderer shows the full path), else the directory's file name.
pub fn node_name(dir: &str, is_root: bool) -> (r: Option<String>)
    ensures
        is_root ==> r is None,
        !is_root ==> match file_name_spec(dir@) {
            Some(n) => r matches Some(s) && s@ == n,
            None => r is None,
        },
{
    if is_root {
        None
    } else {
        match file_name(&chars_of(dir)) {
            Some(n) => Some(string_from_chars(n)),
            None => None,
        }
    }
}

pub open spec fn audio_entry() -> spec_fn((String, bool)) -> bool {
    |e: (String, bool)| e.1 && is_audio_path_spec(e.0@)
}

/// `r` lists the keys `from` in sorted order (a sorting permutation
/// exists).
pub open spec fn sorted_listing(r: Seq<Seq<char>>, from: Seq<Seq<char>>) -> bool {
    &&& r.len() == from.len()
    &&& exists|order: Seq<int>|
        is_permutation(order, from.len()) && (forall|i: int|
            0 <= i < r.len() ==> #[trigger] r[i] == from[order[i]])
    &&& forall|i: int, j: int| 0 <= i < j < r.len() ==> lex_le(#[trigger] r[i], #[trigger] r[j])
}

pub open spec fn string_views(v: Seq<String>) -> Seq<Seq<char>> {
    v.map_values(|s: String| s@)
}

/// The strings of `v` in sorted order.
pub fn sort_strings(v: &Vec<String>) -> (r: Vec<String>)
    ensures
        sorted_listing(string_views(r@), string_views(v@)),
{
    let mut keys: Vec<Vec<char>> = Vec::new();
    let mut i: usize = 0;
    while i < v.len()
        invariant
            i <= v.len(),
            views(keys@) =~= string_views(v@.take(i as int)),
        decreases v.len() - i,
    {
        let ghost before = keys@;
        keys.push(chars_of(v[i].as_str()));
        proof {
            assert(v@.take(i + 1) =~= v@.take(i as int).push(v@[i as int]));
            assert(views(keys@) =~= views(before).push(v@[i as int]@));
            assert(views(keys@) =~= string_views(v@.take(i + 1)));
        }
        i += 1;
    }
    proof {
        assert(v@.take(v.len() as int) =~= v@);
    }
    let order = sort_order(&keys);
    let ghost ord = as_ints(order@);
    let mut r: Vec<String> = Vec::new();
    let mut k: usize = 0;
    while k < order.len()
        invariant
            k <= order.len(),
            ord == as_ints(order@),
            views(keys@) == string_views(v@),
            is_permutation(ord, v@.len()),
            sorted_by(views(keys@), ord),
            r@.len() == k,
            forall|t: int| 0 <= t < k ==> (#[trigger] r@[t])@ == v@[ord[t]]@,
        decreases order.len() - k,
    {
        proof {
            assert(0 <= ord[k as int] < v@.len());
        }
        r.push(v[order[k]].clone());
        k += 1;
    }
    proof {
        let rv = string_views(r@);
        let from = string_views(v@);
        assert forall|t: int| 0 <= t < rv.len() implies #[trigger] rv[t] == from[ord[t]] by {}
        assert forall|a: int, b: int| 0 <= a < b < rv.len() implies lex_le(
            #[trigger] rv[a],
            #[trigger] rv[b],
        ) by {
            assert(lex_le(views(keys@)[ord[a]], views(keys@)[ord[b]]));
        }
    }
    r
}

/// The audio files among a directory's entries (each a path and whether it
/// is a regular file), sorted by path.
pub fn audio_files(entries: &Vec<(String, bool)>) -> (r: Vec<String>)
    ensures
        sorted_listing(
            string_views(r@),
            entries@.filter(audio_entry()).map_values(|e: (String, bool)| e.0@),
        ),
{
    let mut kept: Vec<String> = Vec::new();
    let mut i: usize = 0;
    while i < entries.len()
        invariant
            i <= entries.len(),
            string_views(kept@) =~= entries@.take(i as int).filter(audio_entry()).map_values(
                |e: (String, bool)| e.0@,
            ),
        decreases entries.len() - i,
    {
        proof {
            reveal_with_fuel(Seq::<(String, bool)>::filter, 1);
            assert(entries@.take(i + 1).drop_last() =~= entries@.take(i as int));
            assert(entries@.take(i + 1).last() == entries@[i as int]);
        }
        let (p, is_file) = (&entries[i].0, entries[i].1);
        let ghost before = kept@;
        let ghost prev = entries@.take(i as int).filter(audio_entry());
        let ghost x = entries@[i as int];
        proof {
            assert(audio_entry()(x) == (x.1 && is_audio_path_spec(x.0@)));
        }
        if is_file && is_audio_path(p.as_str()) {
            kept.push(p.clone());
            proof {
                assert(entries@.take(i + 1).filter(audio_entry()) == prev.push(x));
                assert(string_views(kept@) =~= string_views(before).push(x.0@));
                assert(prev.push(x).map_values(|e: (String, bool)| e.0@) =~= prev.map_values(
                    |e: (String, bool)| e.0@,
                ).push(x.0@));
            }
        } else {
            proof {
                assert(entries@.take(i + 1).filter(audio_entry()) == prev);
            }
        }
        i += 1;
    }
    proof {
        assert(entries@.take(entries.len() as int) =~= entries@);
    }
    sort_strings(&kept)
}

/// The statement that looks up the track rows of `n` paths at once.
pub open spec fn files_query_sql(n: nat) -> Seq<char> {
    "SELECT path, id, title FROM track WHERE path IN ("@ + repeat_join("?"@, ","@, n) + ")"@
}

/// The statement that looks up the track rows of `n` paths at once.
pub fn files_query(n: usize) -> (r: String)
    ensures
        r@ == files_query_sql(n as nat),
{
    let mut sql = chars_of("SELECT path, id, title FROM track WHERE path IN (");
    let marks = repeat_joined(&chars_of("?"), &chars_of(","), n);
    extend_chars(&mut sql, &marks);
    extend_chars(&mut sql, &chars_of(")"));
    string_from_chars(sql)
}

// ---------------------------------------------------------------------------
// Matching files to track rows.
// ---------------------------------------------------------------------------

/// A track row found for a path: its id and title.
pub type TrackHit = (i64, Option<String>);

/// Track rows by path; one entry per path.
pub struct FileIndex {
    entries: Vec<(String, i64, Option<String>)>,
}

pub open spec fn entry_key(e: (String, i64, Option<String>)) -> Seq<char> {
    e.0@
}

pub open spec fn hit_of(e: (String, i64, Option<String>)) -> (i64, Option<Seq<char>>) {
    (e.1, crate::edit::opt_text(e.2))
}

/// The map held by a list of entries, later entries winning.
pub open spec fn map_of(s: Seq<(String, i64, Option<String>)>) -> Map<Seq<char>, (i64, Option<Seq<char>>)>
    decreases s.len(),
{
    if s.len() == 0 {
        Map::empty()
    } else {
        map_of(s.drop_last()).insert(entry_key(s.last()), hit_of(s.last()))
    }
}

pub open spec fn keys_of(s: Seq<(String, i64, Option<String>)>) -> Seq<Seq<char>> {
    s.map_values(|e: (String, i64, Option<String>)| e.0@)
}

proof fn lemma_map_of_keys(s: Seq<(String, i64, Option<String>)>)
    ensures
        forall|k: Seq<char>| #[trigger] map_of(s).contains_key(k) <==> keys_of(s).contains(k),
        map_of(s).dom() =~= keys_of(s).to_set(),
    decreases s.len(),
{
    if s.len() > 0 {
        lemma_map_of_keys(s.drop_last());
        assert(keys_of(s) =~= keys_of(s.drop_last()).push(entry_key(s.last())));
        assert forall|k: Seq<char>| #[trigger] map_of(s).contains_key(k) <==> keys_of(s).contains(k) by {
            if keys_of(s.drop_last()).contains(k) {
                let i = choose|i: int| 0 <= i < keys_of(s.drop_last()).len() && keys_of(s.drop_last())[i] == k;
                assert(keys_of(s)[i] == k);
            }
            if keys_of(s).contains(k) && k != entry_key(s.last()) {
                let i = choose|i: int| 0 <= i < keys_of(s).len() && keys_of(s)[i] == k;
                assert(i < s.len() - 1);
                assert(keys_of(s.drop_last())[i] == k);
            }
            if k == entry_key(s.last()) {
                assert(keys_of(s)[s.len() - 1] == k);
            }
        }
    }
    assert forall|k: Seq<char>| map_of(s).dom().contains(k) <==> keys_of(s).to_set().contains(k) by {
    }
}

/// Replacing the entry with key `k` (keys being distinct) updates the map
/// at `k`.
proof fn lemma_map_of_update(s: Seq<(String, i64, Option<String>)>, i: int, e: (String, i64, Option<String>))
    requires
        0 <= i < s.len(),
        entry_key(s[i]) == entry_key(e),
        keys_of(s).no_duplicates(),
    ensures
        map_of(s.update(i, e)) == map_of(s).insert(entry_key(e), hit_of(e)),
    decreases s.len(),
{
    let t = s.update(i, e);
    if i == s.len() - 1 {
        assert(t.drop_last() =~= s.drop_last());
        assert(map_of(s.drop_last()).insert(entry_key(e), hit_of(s.last())).insert(entry_key(e), hit_of(e))
            =~= map_of(s.drop_last()).insert(entry_key(e), hit_of(e)));
    } else {
        assert(t.drop_last() =~= s.drop_last().update(i, e));
        assert(keys_of(s.drop_last()) =~= keys_of(s).drop_last());
        assert(keys_of(s.drop_last()).no_duplicates());
        lemma_map_of_update(s.drop_last(), i, e);
        assert(keys_of(s)[i] != keys_of(s)[s.len() - 1]);
        assert(map_of(t) =~= map_of(s).insert(entry_key(e), hit_of(e)));
    }
}

impl View for FileIndex {
    type V = Map<Seq<char>, (i64, Option<Seq<char>>)>;

    closed spec fn view(&self) -> Self::V {
        map_of(self.entries@)
    }
}

impl FileIndex {
    /// One entry per path.
    pub closed spec fn wf(&self) -> bool {
        keys_of(self.entries@).no_duplicates()
    }

    /// An empty index.
    pub fn new() -> (r: Self)
        ensures
            r.wf(),
            r@ == Map::<Seq<char>, (i64, Option<Seq<char>>)>::empty(),
    {
        FileIndex { entries: Vec::new() }
    }

    fn position(&self, path: &Vec<char>) -> (r: Option<usize>)
        ensures
            match r {
                Some(i) => i < self.entries@.len() && entry_key(self.entries@[i as int]) == path@,
                None => !keys_of(self.entries@).contains(path@),
            },
    {
        let mut i: usize = 0;
        while i < self.entries.len()
            invariant
                i <= self.entries.len(),
                forall|k: int| 0 <= k < i ==> keys_of(self.entries@)[k] != path@,
            decreases self.entries.len() - i,
        {
            let key = chars_of(self.entries[i].0.as_str());
            if vec_eq(&key, path) {
                return Some(i);
            }
            i += 1;
        }
        None
    }

    /// Whether a row was recorded for `path`.
    pub fn contains(&self, path: &str) -> (r: bool)
        requires
            self.wf(),
        ensures
            r == self@.contains_key(path@),
    {
        proof {
            lemma_map_of_keys(self.entries@);
        }
        let r = self.position(&chars_of(path));
        proof {
            if let Some(i) = r {
                assert(keys_of(self.entries@)[i as int] == path@);
            }
        }
        r.is_some()
    }

    /// Records the row of `path`, replacing any earlier one.
    pub fn insert(&mut self, path: String, id: i64, title: Option<String>)
        requires
            old(self).wf(),
        ensures
            final(self).wf(),
            final(self)@ == old(self)@.insert(path@, (id, crate::edit::opt_text(title))),
    {
        let key = chars_of(path.as_str());
        let e = (path, id, title);
        match self.position(&key) {
            Some(i) => {
                proof {
                    lemma_map_of_update(self.entries@, i as int, e);
                }
                self.entries.set(i, e);
                proof {
                    assert(keys_of(self.entries@) =~= keys_of(old(self).entries@));
                }
            },
            None => {
                self.entries.push(e);
                proof {
                    assert(self.entries@.drop_last() =~= old(self).entries@);
                    assert(keys_of(self.entries@) =~= keys_of(old(self).entries@).push(key@));
                }
            },
        }
    }

    /// Number of paths with a row.
    pub fn len(&self) -> (r: usize)
        requires
            self.wf(),
        ensures
            r == self@.dom().len(),
    {
        proof {
            lemma_map_of_keys(self.entries@);
            keys_of(self.entries@).unique_seq_to_set();
        }
        self.entries.len()
    }

    /// The row recorded for `path`, if any.
    pub fn get(&self, path: &str) -> (r: Option<TrackHit>)
        requires
            self.wf(),
        ensures
            match r {
                Some(h) => self@.contains_key(path@) && self@[path@] == (h.0, crate::edit::opt_text(
                    h.1,
                )),
                None => !self@.contains_key(path@),
            },
    {
        proof {
            lemma_map_of_keys(self.entries@);
        }
        match self.position(&chars_of(path)) {
            Some(i) => {
                proof {
                    lemma_map_of_last_wins(self.entries@, i as int);
                    assert(keys_of(self.entries@)[i as int] == path@);
                }
                Some((self.entries[i].1, copy_text(&self.entries[i].2)))
            },
            None => None,
        }
    }
}

proof fn lemma_map_of_last_wins(s: Seq<(String, i64, Option<String>)>, i: int)
    requires
        0 <= i < s.len(),
        keys_of(s).no_duplicates(),
    ensures
        map_of(s)[entry_key(s[i])] == hit_of(s[i]),
    decreases s.len(),
{
    if i < s.len() - 1 {
        assert(keys_of(s.drop_last()) =~= keys_of(s).drop_last());
        lemma_map_of_last_wins(s.drop_last(), i);
        assert(keys_of(s)[i] != keys_of(s)[s.len() - 1]);
    }
}

/// The index of the rows found by the path lookup: one entry per path, a
/// later row for a path replacing an earlier one.
pub fn index_rows(rows: Vec<(String, i64, Option<String>)>) -> (r: FileIndex)
    ensures
        r.wf(),
        r@ == map_of(rows@),
{
    let mut idx = FileIndex::new();
    let mut i: usize = 0;
    let mut rows = rows;
    let ghost all = rows@;
    proof {
        assert(all.len() == rows.len());
    }
    while rows.len() > 0
        invariant
            idx.wf(),
            all.len() <= usize::MAX,
            i + rows@.len() == all.len(),
            rows@ == all.skip(i as int),
            idx@ == map_of(all.take(i as int)),
        decreases rows@.len(),
    {
        let (p, id, t) = rows.remove(0);
        proof {
            assert(all.take(i + 1).drop_last() =~= all.take(i as int));
            assert(all.take(i + 1).last() == all[i as int]);
        }
        idx.insert(p, id, t);
        proof {
            assert(rows@ =~= all.skip(i + 1));
        }
        i += 1;
    }
    proof {
        assert(all.take(i as int) =~= all);
    }
    idx
}

/// Whether the direct lookup left some of `n_paths` listed paths without a
/// row, so that the prefix scan is worth running.
pub fn needs_fallback(index: &FileIndex, n_paths: usize) -> (r: bool)
    requires
        index.wf(),
    ensures
        r == (index@.dom().len() < n_paths),
{
    index.len() < n_paths
}

pub open spec fn starts_with(s: Seq<char>, prefix: Seq<char>) -> bool {
    prefix.len() <= s.len() && s.take(prefix.len() as int) == prefix
}

/// Whether `s` starts with `prefix`.
pub fn starts_with_chars(s: &Vec<char>, prefix: &Vec<char>) -> (r: bool)
    ensures
        r == starts_with(s@, prefix@),
{
    if prefix.len() > s.len() {
        return false;
    }
    let mut i: usize = 0;
    while i < prefix.len()
        invariant
            i <= prefix.len() <= s.len(),
            forall|k: int| 0 <= k < i ==> s@[k] == prefix@[k],
        decreases prefix.len() - i,
    {
        if s[i] != prefix[i] {
            proof {
                assert(s@.take(prefix.len() as int)[i as int] != prefix@[i as int]);
            }
            return false;
        }
        i += 1;
    }
    proof {
        assert(s@.take(prefix.len() as int) =~= prefix@);
    }
    true
}

fn listed(paths: &Vec<String>, p: &Vec<char>) -> (r: bool)
    ensures
        r == string_views(paths@).contains(p@),
{
    let mut i: usize = 0;
    while i < paths.len()
        invariant
            i <= paths.len(),
            forall|k: int| 0 <= k < i ==> string_views(paths@)[k] != p@,
        decreases paths.len() - i,
    {
        if vec_eq(&chars_of(paths[i].as_str()), p) {
            proof {
                assert(string_views(paths@)[i as int] == p@);
            }
            return true;
        }
        i += 1;
    }
    false
}

/// A row of the prefix scan is taken when its path lies under `dir`, is one
/// of the listed paths, and has no row yet.
pub open spec fn fallback_takes(
    m: Map<Seq<char>, (i64, Option<Seq<char>>)>,
    row: (String, i64, Option<String>),
    dir: Seq<char>,
    paths: Seq<String>,
) -> bool {
    &&& starts_with(row.0@, dir)
    &&& string_views(paths).contains(row.0@)
    &&& !m.contains_key(row.0@)
}

/// The index after the rows of the prefix scan, in order.
pub open spec fn with_fallback(
    m: Map<Seq<char>, (i64, Option<Seq<char>>)>,
    rows: Seq<(String, i64, Option<String>)>,
    dir: Seq<char>,
    paths: Seq<String>,
) -> Map<Seq<char>, (i64, Option<Seq<char>>)>
    decreases rows.len(),
{
    if rows.len() == 0 {
        m
    } else {
        let prev = with_fallback(m, rows.drop_last(), dir, paths);
        if fallback_takes(prev, rows.last(), dir, paths) {
            prev.insert(rows.last().0@, hit_of(rows.last()))
        } else {
            prev
        }
    }
}

/// Adds the rows of the prefix scan under `dir`: a row is taken only for a
/// listed path that has no row yet, so direct matches are never replaced.
pub fn add_fallback_rows(
    index: &mut FileIndex,
    rows: Vec<(String, i64, Option<String>)>,
    dir: &str,
    paths: &Vec<String>,
)
    requires
        old(index).wf(),
    ensures
        final(index).wf(),
        final(index)@ == with_fallback(old(index)@, rows@, dir@, paths@),
{
    let d = chars_of(dir);
    let mut rows = rows;
    let ghost all = rows@;
    let mut i: usize = 0;
    proof {
        assert(all.len() == rows.len());
    }
    while rows.len() > 0
        invariant
            index.wf(),
            d@ == dir@,
            all.len() <= usize::MAX,
            i + rows@.len() == all.len(),
            rows@ == all.skip(i as int),
            index@ == with_fallback(old(index)@, all.take(i as int), dir@, paths@),
        decreases rows@.len(),
    {
        let (p, id, t) = rows.remove(0);
        proof {
            assert(all.take(i + 1).drop_last() =~= all.take(i as int));
            assert(all.take(i + 1).last() == all[i as int]);
        }
        let key = chars_of(p.as_str());
        if starts_with_chars(&key, &d) && listed(paths, &key) && !index.contains(p.as_str()) {
            index.insert(p, id, t);
        }
        proof {
            assert(rows@ =~= all.skip(i + 1));
        }
        i += 1;
    }
    proof {
        assert(all.take(i as int) =~= all);
    }
}

/// The file entry of `path` given the track row found for it, if any.
pub open spec fn file_entry_is(f: FolderFile, path: Seq<char>, m: Map<Seq<char>, (i64, Option<Seq<char>>)>) -> bool {
    &&& f.path@ == path
    &&& if m.contains_key(path) {
        f.track_id == Some(m[path].0) && crate::edit::opt_text(f.title) == m[path].1
    } else {
        f.track_id is None && f.title is None
    }
}

/// The file entries of `paths`, in order, each with the id and title of
/// its track row when one was found.
pub fn files_for(paths: &Vec<String>, index: &FileIndex) -> (r: Vec<FolderFile>)
    requires
        index.wf(),
    ensures
        r@.len() == paths@.len(),
        forall|i: int| 0 <= i < r@.len() ==> file_entry_is(#[trigger] r@[i], paths@[i]@, index@),
{
    let mut r: Vec<FolderFile> = Vec::new();
    let mut i: usize = 0;
    while i < paths.len()
        invariant
            i <= paths.len(),
            index.wf(),
            r@.len() == i,
            forall|k: int| 0 <= k < i ==> file_entry_is(#[trigger] r@[k], paths@[k]@, index@),
        decreases paths.len() - i,
    {
        let p = &paths[i];
        let f = match index.get(p.as_str()) {
            Some((id, title)) => FolderFile { path: p.clone(), title, track_id: Some(id) },
            None => FolderFile { path: p.clone(), title: None, track_id: None },
        };
        r.push(f);
        i += 1;
    }
    r
}

// ---------------------------------------------------------------------------
// The view.
// ---------------------------------------------------------------------------

pub open spec fn preorder_roots(roots: Seq<NodeModel>) -> Seq<NodeModel>
    decreases roots.len(),
{
    if roots.len() == 0 {
        Seq::empty()
    } else {
        preorder_roots(roots.drop_last()) + preorder(roots.last())
    }
}

pub open spec fn node_paths(v: Seq<NodeModel>) -> Seq<Seq<char>> {
    v.map_values(|n: NodeModel| n.path)
}

/// The Folders view of the given root nodes: the roots in order, and every
/// node of every tree sorted by path (nodes with equal paths keep their
/// order).
pub fn folder_view(roots: Vec<FolderNode>) -> (r: FolderView)
    ensures
        r.root_children@ == roots@,
        ({
            let all = preorder_roots(node_models(roots@));
            let flat = node_models(r.flat@);
            &&& flat.len() == all.len()
            &&& exists|order: Seq<int>|
                is_permutation(order, all.len()) && stable(node_paths(all), order) && (forall|i: int|
                    0 <= i < flat.len() ==> #[trigger] flat[i] == all[order[i]])
            &&& forall|i: int, j: int|
                0 <= i < j < flat.len() ==> lex_le(
                    (#[trigger] flat[i]).path,
                    (#[trigger] flat[j]).path,
                )
        }),
{
    let mut all: Vec<FolderNode> = Vec::new();
    let mut i: usize = 0;
    proof {
        assert(node_models(all@) =~= preorder_roots(node_models(roots@.take(0))));
    }
    while i < roots.len()
        invariant
            i <= roots.len(),
            node_models(all@) == preorder_roots(node_models(roots@.take(i as int))),
        decreases roots.len() - i,
    {
        proof {
            assert(node_models(roots@.take(i + 1)).drop_last() =~= node_models(roots@.take(i as int)));
            assert(node_models(roots@.take(i + 1)).last() == roots@[i as int]@);
        }
        flatten(&roots[i], &mut all);
        i += 1;
    }
    proof {
        assert(roots@.take(roots.len() as int) =~= roots@);
    }
    let ghost allm = node_models(all@);
    let mut keys: Vec<Vec<char>> = Vec::new();
    let mut k: usize = 0;
    while k < all.len()
        invariant
            k <= all.len(),
            views(keys@) =~= node_paths(node_models(all@.take(k as int))),
        decreases all.len() - k,
    {
        let ghost before = keys@;
        keys.push(chars_of(all[k].path.as_str()));
        proof {
            assert(views(keys@) =~= views(before).push(all@[k as int].path@));
            assert(node_models(all@.take(k + 1)) =~= node_models(all@.take(k as int)).push(all@[k as int]@));
            assert(views(keys@) =~= node_paths(node_models(all@.take(k + 1))));
        }
        k += 1;
    }
    proof {
        assert(all@.take(all.len() as int) =~= all@);
    }
    let order = sort_order(&keys);
    let ghost ord = as_ints(order@);
    let mut flat: Vec<FolderNode> = Vec::new();
    let mut t: usize = 0;
    while t < order.len()
        invariant
            t <= order.len(),
            ord == as_ints(order@),
            views(keys@) == node_paths(node_models(all@)),
            is_permutation(ord, all@.len()),
            flat@.len() == t,
            forall|q: int| 0 <= q < t ==> (#[trigger] flat@[q])@ == all@[ord[q]]@,
        decreases order.len() - t,
    {
        proof {
            assert(0 <= ord[t as int] < all@.len());
        }
        flat.push(copy_node(&all[order[t]]));
        t += 1;
    }
    proof {
        assert(all@.take(all.len() as int) =~= all@);
        let fm = node_models(flat@);
        assert forall|q: int| 0 <= q < fm.len() implies #[trigger] fm[q] == allm[ord[q]] by {}
        assert forall|a: int, b: int| 0 <= a < b < fm.len() implies lex_le(
            (#[trigger] fm[a]).path,
            (#[trigger] fm[b]).path,
        ) by {
            assert(lex_le(views(keys@)[ord[a]], views(keys@)[ord[b]]));
        }
    }
    FolderView { flat, root_children: roots }
}

} // verus!

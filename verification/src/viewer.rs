//! The labels the model viewer shows for files and element kinds.
use vstd::prelude::*;
use crate::model::{ModelFile, ModelKind};
use crate::order::{lex_lt, str_lt};
use crate::text::{cat, chars_of, owned, split_char, split_char_exec, starts_with, str_eq, str_starts_with, string_of, strip_prefix_or_self_str};

verus! {

pub open spec fn kind_label_spec(kind: ModelKind) -> Seq<char> {
    match kind {
        ModelKind::UseCase => "use case"@,
        ModelKind::Sequence => "sequence"@,
        ModelKind::Domain => "domain"@,
        ModelKind::Mockup => "mockup"@,
        ModelKind::State => "state machine"@,
        ModelKind::Other => "other"@,
        ModelKind::Constraint => "constraint"@,
    }
}

/// The name of an element kind as the viewer shows it.
pub fn kind_label(kind: ModelKind) -> (r: &'static str)
    ensures
        r@ == kind_label_spec(kind),
{
    match kind {
        ModelKind::UseCase => "use case",
        ModelKind::Sequence => "sequence",
        ModelKind::Domain => "domain",
        ModelKind::Mockup => "mockup",
        ModelKind::State => "state machine",
        ModelKind::Other => "other",
        ModelKind::Constraint => "constraint",
    }
}

/// A file's path as the viewer's tree shows it: below `.mdd/models/`, or
/// under `constraints/` or `deploy/`, or as it is.
pub open spec fn short_path_spec(path: Seq<char>) -> Seq<char> {
    if starts_with(path, ".mdd/models/"@) {
        path.skip(12)
    } else if starts_with(path, ".mdd/constraints/"@) {
        "constraints/"@ + path.skip(17)
    } else if starts_with(path, ".mdd/deploy/"@) {
        "deploy/"@ + path.skip(12)
    } else {
        path
    }
}

pub fn short_path(path: &str) -> (r: String)
    ensures
        r@ == short_path_spec(path@),
{
    proof {
        reveal_strlit(".mdd/models/");
        reveal_strlit(".mdd/constraints/");
        reveal_strlit(".mdd/deploy/");
    }
    if str_starts_with(path, ".mdd/models/") {
        strip_prefix_or_self_str(path, ".mdd/models/")
    } else if str_starts_with(path, ".mdd/constraints/") {
        let rest = strip_prefix_or_self_str(path, ".mdd/constraints/");
        cat("constraints/", rest.as_str())
    } else if str_starts_with(path, ".mdd/deploy/") {
        let rest = strip_prefix_or_self_str(path, ".mdd/deploy/");
        cat("deploy/", rest.as_str())
    } else {
        owned(path)
    }
}


// ---------------------------------------------------------------------------
// The directory tree of the left rail

/// A file in the viewer's directory tree: its name, its path and its kind.
pub struct FileLeaf {
    pub label: String,
    pub path: String,
    pub kind: String,
}

pub type LeafV = (Seq<char>, Seq<char>, Seq<char>);

impl View for FileLeaf {
    type V = LeafV;

    open spec fn view(&self) -> LeafV {
        (self.label@, self.path@, self.kind@)
    }
}

/// A directory of the viewer's tree: its subdirectories by name (in name
/// order) and its files (in the order given).
pub struct TreeNode {
    pub dirs: Vec<(String, TreeNode)>,
    pub files: Vec<FileLeaf>,
}

/// A directory tree as a value.
pub struct TreeV {
    pub dirs: Seq<(Seq<char>, TreeV)>,
    pub files: Seq<LeafV>,
}

pub open spec fn node_view(t: TreeNode) -> TreeV
    decreases t,
{
    TreeV { dirs: dirs_view(t.dirs@), files: t.files@.map_values(|l: FileLeaf| l@) }
}

pub open spec fn dirs_view(ds: Seq<(String, TreeNode)>) -> Seq<(Seq<char>, TreeV)>
    decreases ds,
{
    if ds.len() == 0 {
        seq![]
    } else {
        dirs_view(ds.drop_last()).push((ds.last().0@, node_view(ds.last().1)))
    }
}


proof fn lemma_dirs_view(ds: Seq<(String, TreeNode)>)
    ensures
        dirs_view(ds).len() == ds.len(),
        forall|j: int| 0 <= j < ds.len() ==> #[trigger] dirs_view(ds)[j] == (ds[j].0@, node_view(ds[j].1)),
    decreases ds.len(),
{
    if ds.len() > 0 {
        lemma_dirs_view(ds.drop_last());
        assert forall|j: int| 0 <= j < ds.len() implies #[trigger] dirs_view(ds)[j] == (ds[j].0@, node_view(ds[j].1)) by {
            if j < ds.len() - 1 {
                assert(ds.drop_last()[j] == ds[j]);
            }
        }
    }
}

/// Two directory lists that view alike element by element view alike.
proof fn lemma_dirs_view_ext(a: Seq<(String, TreeNode)>, b: Seq<(Seq<char>, TreeV)>)
    requires
        a.len() == b.len(),
        forall|j: int| 0 <= j < a.len() ==> (#[trigger] a[j]).0@ == b[j].0 && node_view(a[j].1) == b[j].1,
    ensures
        dirs_view(a) == b,
{
    lemma_dirs_view(a);
    assert(dirs_view(a) =~= b);
}

pub open spec fn empty_tree() -> TreeV {
    TreeV { dirs: seq![], files: seq![] }
}

/// The index of the subdirectory named `name`, searching from `i`.
pub open spec fn dir_index(ds: Seq<(Seq<char>, TreeV)>, name: Seq<char>, i: int) -> Option<int>
    decreases ds.len() - i,
{
    if i < 0 || i >= ds.len() {
        None
    } else if ds[i].0 == name {
        Some(i)
    } else {
        dir_index(ds, name, i + 1)
    }
}

/// Where a new subdirectory named `name` goes: before the first one whose
/// name sorts after it (searching from `i`).
pub open spec fn dir_pos(ds: Seq<(Seq<char>, TreeV)>, name: Seq<char>, i: int) -> int
    decreases ds.len() - i,
{
    if i < 0 || i >= ds.len() {
        ds.len() as int
    } else if lex_lt(name, ds[i].0) {
        i
    } else {
        dir_pos(ds, name, i + 1)
    }
}

/// The tree with a leaf added under the directory path `comps` (each
/// missing directory created in name order).
pub open spec fn tree_insert(t: TreeV, comps: Seq<Seq<char>>, leaf: LeafV) -> TreeV
    decreases comps.len(),
{
    if comps.len() == 0 {
        TreeV { dirs: t.dirs, files: t.files.push(leaf) }
    } else {
        match dir_index(t.dirs, comps[0], 0) {
            Some(i) => TreeV {
                dirs: t.dirs.update(i, (comps[0], tree_insert(t.dirs[i].1, comps.drop_first(), leaf))),
                files: t.files,
            },
            None => TreeV {
                dirs: t.dirs.insert(
                    dir_pos(t.dirs, comps[0], 0),
                    (comps[0], tree_insert(empty_tree(), comps.drop_first(), leaf)),
                ),
                files: t.files,
            },
        }
    }
}

proof fn lemma_dir_index_range(ds: Seq<(Seq<char>, TreeV)>, name: Seq<char>, i: int)
    requires
        0 <= i,
    ensures
        dir_index(ds, name, i) matches Some(j) ==> i <= j < ds.len() && ds[j].0 == name,
    decreases ds.len() - i,
{
    if 0 <= i < ds.len() && ds[i].0 != name {
        lemma_dir_index_range(ds, name, i + 1);
    }
}

proof fn lemma_dir_pos_range(ds: Seq<(Seq<char>, TreeV)>, name: Seq<char>, i: int)
    requires
        0 <= i,
    ensures
        i <= dir_pos(ds, name, i) <= ds.len() || (i > ds.len() && dir_pos(ds, name, i) == ds.len()),
    decreases ds.len() - i,
{
    if 0 <= i < ds.len() && !lex_lt(name, ds[i].0) {
        lemma_dir_pos_range(ds, name, i + 1);
    }
}

fn find_dir(ds: &Vec<(String, TreeNode)>, name: &str) -> (r: Option<usize>)
    ensures
        match r {
            Some(i) => dir_index(dirs_view(ds@), name@, 0) == Some(i as int) && i < ds@.len(),
            None => dir_index(dirs_view(ds@), name@, 0) is None,
        },
{
    proof {
        lemma_dirs_view(ds@);
    }
    let ghost dv = dirs_view(ds@);
    let mut i: usize = 0;
    while i < ds.len()
        invariant
            i <= ds.len(),
            dv == dirs_view(ds@),
            dv.len() == ds@.len(),
            forall|j: int| 0 <= j < ds@.len() ==> #[trigger] dv[j] == (ds@[j].0@, node_view(ds@[j].1)),
            dir_index(dv, name@, 0) == dir_index(dv, name@, i as int),
        decreases ds.len() - i,
    {
        assert(dv[i as int].0 == ds@[i as int].0@);
        if str_eq(ds[i].0.as_str(), name) {
            return Some(i);
        }
        i = i + 1;
    }
    None
}

fn dir_insert_pos(ds: &Vec<(String, TreeNode)>, name: &str) -> (r: usize)
    ensures
        r as int == dir_pos(dirs_view(ds@), name@, 0),
        r <= ds@.len(),
{
    proof {
        lemma_dirs_view(ds@);
    }
    let ghost dv = dirs_view(ds@);
    let mut i: usize = 0;
    while i < ds.len()
        invariant
            i <= ds.len(),
            dv == dirs_view(ds@),
            dv.len() == ds@.len(),
            forall|j: int| 0 <= j < ds@.len() ==> #[trigger] dv[j] == (ds@[j].0@, node_view(ds@[j].1)),
            dir_pos(dv, name@, 0) == dir_pos(dv, name@, i as int),
        decreases ds.len() - i,
    {
        assert(dv[i as int].0 == ds@[i as int].0@);
        if str_lt(name, ds[i].0.as_str()) {
            return i;
        }
        i = i + 1;
    }
    i
}

/// Add a leaf under the directories `comps[k..]`.
fn insert_leaf(node: &mut TreeNode, comps: &Vec<Vec<char>>, k: usize, leaf: FileLeaf)
    requires
        k <= comps@.len(),
    ensures
        node_view(*final(node)) == tree_insert(node_view(*old(node)), crate::text::vviews(comps@).skip(k as int), leaf@),
    decreases comps@.len() - k,
{
    let ghost rest = crate::text::vviews(comps@).skip(k as int);
    let ghost t0 = node_view(*node);
    if k == comps.len() {
        assert(rest.len() == 0);
        let ghost f0 = node.files@;
        let ghost lv = leaf@;
        node.files.push(leaf);
        assert(node.files@.map_values(|l: FileLeaf| l@) =~= f0.map_values(|l: FileLeaf| l@).push(lv));
        return;
    }
    assert(rest[0] == comps@[k as int]@);
    assert(crate::text::vviews(comps@).skip(k + 1) =~= rest.drop_first());
    let name = string_of(comps[k].as_slice());
    proof {
        lemma_dirs_view(node.dirs@);
    }
    match find_dir(&node.dirs, name.as_str()) {
        Some(i) => {
            let ghost d0 = node.dirs@;
            let ghost lv = leaf@;
            proof {
                lemma_dir_index_range(dirs_view(d0), name@, 0);
                assert(dirs_view(d0)[i as int] == (d0[i as int].0@, node_view(d0[i as int].1)));
            }
            let (n, mut child) = node.dirs.remove(i);
            let ghost c0 = node_view(child);
            assert(c0 == t0.dirs[i as int].1);
            assert(n@ == rest[0]);
            insert_leaf(&mut child, comps, k + 1, leaf);
            let ghost nc = node_view(child);
            let ghost nn = n@;
            node.dirs.insert(i, (n, child));
            proof {
                let target = t0.dirs.update(i as int, (rest[0], tree_insert(t0.dirs[i as int].1, rest.drop_first(), lv)));
                assert(node.dirs@.len() == d0.len());
                assert forall|j: int| 0 <= j < node.dirs@.len() implies (#[trigger] node.dirs@[j]).0@ == target[j].0
                    && node_view(node.dirs@[j].1) == target[j].1 by {
                    if j == i {
                        assert(node.dirs@[j].0@ == nn);
                        assert(node_view(node.dirs@[j].1) == nc);
                    } else if j < i {
                        assert(node.dirs@[j] == d0[j]);
                        assert(t0.dirs[j] == (d0[j].0@, node_view(d0[j].1)));
                    } else {
                        assert(node.dirs@[j] == d0[j]);
                        assert(t0.dirs[j] == (d0[j].0@, node_view(d0[j].1)));
                    }
                }
                lemma_dirs_view_ext(node.dirs@, target);
            }
        },
        None => {
            let pos = dir_insert_pos(&node.dirs, name.as_str());
            let mut child = TreeNode { dirs: Vec::new(), files: Vec::new() };
            proof {
                assert(dirs_view(child.dirs@) =~= Seq::<(Seq<char>, TreeV)>::empty());
                assert(child.files@.map_values(|l: FileLeaf| l@) =~= Seq::<LeafV>::empty());
                assert(node_view(child) == empty_tree());
            }
            insert_leaf(&mut child, comps, k + 1, leaf);
            let ghost d0 = node.dirs@;
            node.dirs.insert(pos, (name, child));
            proof {
                lemma_dirs_view(d0);
                lemma_dirs_view_ext(
                    node.dirs@,
                    t0.dirs.insert(pos as int, (rest[0], tree_insert(empty_tree(), rest.drop_first(), leaf@))),
                );
            }
        },
    }
}

/// The directory components and the name of a path under the tree.
pub open spec fn components(rel: Seq<char>) -> Seq<Seq<char>> {
    split_char(rel, '/')
}

/// The leaf of a file: its name, its path, and its kind (`kind` when
/// given, else the label of the file's kind).
pub open spec fn leaf_of(f: ModelFile, kind: Option<Seq<char>>) -> LeafV {
    (
        components(short_path_spec(f.path@)).last(),
        f.path@,
        match kind {
            Some(k) => k,
            None => kind_label_spec(f.kind),
        },
    )
}

/// The tree of the files, in order: each file under the directories of its
/// shortened path.
pub open spec fn build_spec(files: Seq<ModelFile>, kind: Option<Seq<char>>) -> TreeV
    decreases files.len(),
{
    if files.len() == 0 {
        empty_tree()
    } else {
        let f = files.last();
        tree_insert(
            build_spec(files.drop_last(), kind),
            components(short_path_spec(f.path@)).drop_last(),
            leaf_of(f, kind),
        )
    }
}

proof fn lemma_split_nonempty(s: Seq<char>, c: char)
    ensures
        split_char(s, c).len() >= 1,
    decreases s.len(),
{
    match crate::text::find_char_from(s, c, 0) {
        Some(i) => if 0 <= i < s.len() {
            lemma_split_nonempty(s.skip(i + 1), c);
        },
        None => {},
    }
}

/// Directory names strictly increasing.
pub open spec fn names_sorted(ds: Seq<(Seq<char>, TreeV)>) -> bool {
    forall|i: int, j: int| 0 <= i < j < ds.len() ==> lex_lt(#[trigger] ds[i].0, #[trigger] ds[j].0)
}

/// Every directory of the tree lists its subdirectories in strict name
/// order.
pub open spec fn tree_wf(t: TreeV) -> bool
    decreases t,
{
    names_sorted(t.dirs) && dirs_wf(t.dirs)
}

pub open spec fn dirs_wf(ds: Seq<(Seq<char>, TreeV)>) -> bool
    decreases ds,
{
    if ds.len() == 0 {
        true
    } else {
        dirs_wf(ds.drop_last()) && tree_wf(ds.last().1)
    }
}

proof fn lemma_dirs_wf(ds: Seq<(Seq<char>, TreeV)>)
    ensures
        dirs_wf(ds) <==> forall|j: int| 0 <= j < ds.len() ==> tree_wf(#[trigger] ds[j].1),
    decreases ds.len(),
{
    if ds.len() > 0 {
        lemma_dirs_wf(ds.drop_last());
        if forall|j: int| 0 <= j < ds.len() ==> tree_wf(#[trigger] ds[j].1) {
            assert forall|j: int| 0 <= j < ds.drop_last().len() implies tree_wf(#[trigger] ds.drop_last()[j].1) by {
                assert(ds.drop_last()[j] == ds[j]);
                assert(tree_wf(ds[j].1));
            }
            assert(tree_wf(ds[ds.len() - 1].1));
        }
        if dirs_wf(ds) {
            assert forall|j: int| 0 <= j < ds.len() implies tree_wf(#[trigger] ds[j].1) by {
                if j < ds.len() - 1 {
                    assert(ds.drop_last()[j] == ds[j]);
                    assert(tree_wf(ds.drop_last()[j].1));
                }
            }
        }
    }
}

proof fn lemma_dir_pos_facts(ds: Seq<(Seq<char>, TreeV)>, name: Seq<char>, i: int)
    requires
        0 <= i <= ds.len(),
        forall|j: int| 0 <= j < i ==> !lex_lt(name, #[trigger] ds[j].0),
    ensures
        0 <= dir_pos(ds, name, i) <= ds.len(),
        forall|j: int| 0 <= j < dir_pos(ds, name, i) ==> !lex_lt(name, #[trigger] ds[j].0),
        dir_pos(ds, name, i) < ds.len() ==> lex_lt(name, ds[dir_pos(ds, name, i)].0),
    decreases ds.len() - i,
{
    if i < ds.len() && !lex_lt(name, ds[i].0) {
        lemma_dir_pos_facts(ds, name, i + 1);
    }
}

proof fn lemma_dir_index_none(ds: Seq<(Seq<char>, TreeV)>, name: Seq<char>, i: int)
    requires
        0 <= i,
        dir_index(ds, name, i) is None,
    ensures
        forall|j: int| i <= j < ds.len() ==> #[trigger] ds[j].0 != name,
    decreases ds.len() - i,
{
    if i < ds.len() {
        lemma_dir_index_none(ds, name, i + 1);
    }
}

proof fn lemma_insert_wf(t: TreeV, comps: Seq<Seq<char>>, leaf: LeafV)
    requires
        tree_wf(t),
    ensures
        tree_wf(tree_insert(t, comps, leaf)),
    decreases comps.len(),
{
    lemma_dirs_wf(t.dirs);
    if comps.len() > 0 {
        let name = comps[0];
        match dir_index(t.dirs, name, 0) {
            Some(i) => {
                lemma_dir_index_range(t.dirs, name, 0);
                lemma_insert_wf(t.dirs[i].1, comps.drop_first(), leaf);
                let nd = t.dirs.update(i, (name, tree_insert(t.dirs[i].1, comps.drop_first(), leaf)));
                assert forall|a: int, b: int| 0 <= a < b < nd.len() implies lex_lt(#[trigger] nd[a].0, #[trigger] nd[b].0) by {
                    assert(nd[a].0 == t.dirs[a].0);
                    assert(nd[b].0 == t.dirs[b].0);
                }
                assert forall|j: int| 0 <= j < nd.len() implies tree_wf(#[trigger] nd[j].1) by {
                    if j != i {
                        assert(nd[j] == t.dirs[j]);
                    }
                }
                lemma_dirs_wf(nd);
            },
            None => {
                let e = empty_tree();
                assert(tree_wf(e)) by {
                    assert(dirs_wf(e.dirs));
                }
                lemma_insert_wf(e, comps.drop_first(), leaf);
                lemma_dir_pos_facts(t.dirs, name, 0);
                lemma_dir_index_none(t.dirs, name, 0);
                let p = dir_pos(t.dirs, name, 0);
                let x = (name, tree_insert(e, comps.drop_first(), leaf));
                let nd = t.dirs.insert(p, x);
                assert forall|a: int, b: int| 0 <= a < b < nd.len() implies lex_lt(#[trigger] nd[a].0, #[trigger] nd[b].0) by {
                    if b < p {
                        assert(nd[a] == t.dirs[a] && nd[b] == t.dirs[b]);
                    } else if b == p {
                        assert(nd[a] == t.dirs[a]);
                        crate::order::lemma_lex_total(name, t.dirs[a].0);
                    } else if a == p {
                        assert(nd[b] == t.dirs[b - 1]);
                        if b - 1 > p {
                            crate::order::lemma_lex_trans(name, t.dirs[p].0, t.dirs[b - 1].0);
                        }
                    } else if a < p {
                        assert(nd[a] == t.dirs[a] && nd[b] == t.dirs[b - 1]);
                    } else {
                        assert(nd[a] == t.dirs[a - 1] && nd[b] == t.dirs[b - 1]);
                    }
                }
                assert forall|j: int| 0 <= j < nd.len() implies tree_wf(#[trigger] nd[j].1) by {
                    if j < p {
                        assert(nd[j] == t.dirs[j]);
                    } else if j > p {
                        assert(nd[j] == t.dirs[j - 1]);
                    }
                }
                lemma_dirs_wf(nd);
            },
        }
    }
}

/// Every directory of the viewer's tree lists its subdirectories once
/// each, in name order, whatever the files.
pub proof fn lemma_tree_dirs_sorted(files: Seq<ModelFile>, kind: Option<Seq<char>>)
    ensures
        tree_wf(build_spec(files, kind)),
    decreases files.len(),
{
    if files.len() == 0 {
        assert(dirs_wf(empty_tree().dirs));
    } else {
        lemma_tree_dirs_sorted(files.drop_last(), kind);
        let f = files.last();
        lemma_insert_wf(build_spec(files.drop_last(), kind), components(short_path_spec(f.path@)).drop_last(), leaf_of(f, kind));
    }
}

impl TreeNode {
    /// The viewer's directory tree of the files: each file goes under the
    /// directories of its shortened path (`short_path`), labelled by its
    /// name, with `kind` as its kind when given, else its kind's label.
    pub fn build(files: &Vec<ModelFile>, kind: Option<&str>) -> (r: TreeNode)
        ensures
            node_view(r) == build_spec(
                files@,
                match kind {
                    Some(k) => Some(k@),
                    None => None,
                },
            ),
    {
        let ghost kv = match kind {
            Some(k) => Some(k@),
            None => None,
        };
        let mut root = TreeNode { dirs: Vec::new(), files: Vec::new() };
        assert(dirs_view(root.dirs@) =~= Seq::<(Seq<char>, TreeV)>::empty());
        assert(root.files@.map_values(|l: FileLeaf| l@) =~= Seq::<LeafV>::empty());
        let mut i: usize = 0;
        assert(files@.take(0) =~= Seq::<ModelFile>::empty());
        while i < files.len()
            invariant
                i <= files.len(),
                kv == match kind {
                    Some(k) => Some(k@),
                    None => None::<Seq<char>>,
                },
                node_view(root) == build_spec(files@.take(i as int), kv),
            decreases files.len() - i,
        {
            let f = &files[i];
            let rel = short_path(f.path.as_str());
            let mut comps = split_char_exec(chars_of(rel.as_str()).as_slice(), '/');
            proof {
                lemma_split_nonempty(rel@, '/');
            }
            let ghost cv = crate::text::vviews(comps@);
            let last = comps.pop().unwrap();
            assert(crate::text::vviews(comps@) =~= cv.drop_last());
            assert(last@ == cv.last());
            let label = string_of(last.as_slice());
            let k = match kind {
                Some(k) => owned(k),
                None => owned(kind_label(f.kind)),
            };
            let leaf = FileLeaf { label, path: f.path.clone(), kind: k };
            assert(leaf@ == leaf_of(files@[i as int], kv));
            insert_leaf(&mut root, &comps, 0, leaf);
            proof {
                assert(crate::text::vviews(comps@).skip(0) =~= crate::text::vviews(comps@));
                assert(files@.take(i + 1).drop_last() =~= files@.take(i as int));
                assert(files@.take(i + 1).last() == files@[i as int]);
            }
            i = i + 1;
        }
        assert(files@.take(files.len() as int) =~= files@);
        root
    }
}

} // verus!

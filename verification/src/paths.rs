//! Where rendered diagrams go, and which files each render tree holds.
use vstd::prelude::*;
use crate::markers::{kind_for_path, kind_for_path_spec, model_extension};
use crate::model::{ModelKind, RenderTree};
use crate::project::{Project, join_path, path_join};
use crate::text::{ends_with, owned, starts_with, str_ends_with, str_eq, str_starts_with, strip_prefix_or_self, strip_prefix_or_self_str, strs};

verus! {

/// Index of the last occurrence of `c` in `s`.
pub open spec fn last_index_of(s: Seq<char>, c: char) -> Option<int>
    decreases s.len(),
{
    if s.len() == 0 {
        None
    } else if s.last() == c {
        Some(s.len() - 1)
    } else {
        last_index_of(s.drop_last(), c)
    }
}

pub proof fn lemma_last_index_bounds(s: Seq<char>, c: char)
    ensures
        match last_index_of(s, c) {
            Some(i) => 0 <= i < s.len(),
            None => true,
        },
    decreases s.len(),
{
    if s.len() > 0 && s.last() != c {
        lemma_last_index_bounds(s.drop_last(), c);
    }
}

/// The text after the last `/`.
pub open spec fn last_segment(p: Seq<char>) -> Seq<char> {
    match last_index_of(p, '/') {
        Some(i) => p.skip(i + 1),
        None => p,
    }
}

/// A final path component that is a file name (not empty, `.` or `..`).
pub open spec fn plain_name(s: Seq<char>) -> bool {
    s.len() > 0 && s != "."@ && s != ".."@
}

/// `Path::file_stem` of a file name: before its last `.`, unless that dot
/// starts the name.
pub open spec fn stem_of_name(s: Seq<char>) -> Seq<char> {
    match last_index_of(s, '.') {
        Some(d) => if d > 0 {
            s.take(d)
        } else {
            s
        },
        None => s,
    }
}

/// `Path::extension` of a file name: after its last `.`, unless that dot
/// starts the name.
pub open spec fn extension_of_name(s: Seq<char>) -> Option<Seq<char>> {
    match last_index_of(s, '.') {
        Some(d) => if d > 0 {
            Some(s.skip(d + 1))
        } else {
            None
        },
        None => None,
    }
}

/// What `PathBuf::set_extension("svg")` makes of a path.
pub uninterp spec fn svg_path(p: Seq<char>) -> Seq<char>;

/// A path whose final component is a plain file name, with that name's
/// extension replaced by (or extended with) `svg`.
pub open spec fn plain_svg(p: Seq<char>) -> Seq<char> {
    p.take(p.len() - last_segment(p).len()) + stem_of_name(last_segment(p)) + ".svg"@
}

/// `PathBuf::set_extension("svg")` on path text. The result is named; when
/// the final component is a plain file name, it is the path with that
/// name's extension (as `Path::extension` defines it) replaced or added,
/// as std documents.
#[verifier::external_body]
fn set_svg_extension(p: &str) -> (r: String)
    ensures
        r@ == svg_path(p@),
        plain_name(last_segment(p@)) ==> r@ == plain_svg(p@),
{
    let mut path = std::path::PathBuf::from(p);
    path.set_extension("svg");
    path.to_string_lossy().into_owned()
}

/// What `Path::extension` gives for a path.
pub uninterp spec fn path_extension(p: Seq<char>) -> Option<Seq<char>>;

/// `Path::extension` on path text. The result is named; when the final
/// component is a plain file name it is that name's extension, as std
/// documents.
#[verifier::external_body]
pub(crate) fn extension_of(p: &str) -> (r: Option<String>)
    ensures
        crate::setup::opt_view(r) == path_extension(p@),
        plain_name(last_segment(p@)) ==> crate::setup::opt_view(r) == extension_of_name(last_segment(p@)),
{
    std::path::Path::new(p).extension().map(|e| e.to_string_lossy().into_owned())
}

impl Project {
    /// The rendered SVG of a diagram: its project-relative path, without a
    /// leading `.mdd/`, under `<root>/.mdd/rendered/`, with the `svg`
    /// extension.
    pub fn rendered_svg_path(&self, model_relative_path: &str) -> (r: String)
        ensures
            r@ == path_join(
                path_join(self.root_path(), ".mdd/rendered"@),
                svg_path(strip_prefix_or_self(model_relative_path@, ".mdd/"@)),
            ),
            plain_name(last_segment(strip_prefix_or_self(model_relative_path@, ".mdd/"@))) ==> r@ == path_join(
                path_join(self.root_path(), ".mdd/rendered"@),
                plain_svg(strip_prefix_or_self(model_relative_path@, ".mdd/"@)),
            ),
    {
        let normalized = strip_prefix_or_self_str(model_relative_path, ".mdd/");
        let rel = set_svg_extension(normalized.as_str());
        let base = join_path(self.root(), ".mdd/rendered");
        join_path(base.as_str(), rel.as_str())
    }

    /// The rendered output of a render source, given by its project-relative
    /// path: a source already under `.mdd/rendered/` (a review diff) keeps
    /// its place with the `svg` extension; any other goes where
    /// `rendered_svg_path` puts it.
    pub fn rendered_mirror_path(&self, source_rel: &str) -> (r: String)
        ensures
            r@ == (if starts_with(source_rel@, ".mdd/rendered/"@) {
                path_join(self.root_path(), svg_path(source_rel@))
            } else {
                path_join(
                    path_join(self.root_path(), ".mdd/rendered"@),
                    svg_path(strip_prefix_or_self(source_rel@, ".mdd/"@)),
                )
            }),
            starts_with(source_rel@, ".mdd/rendered/"@) && plain_name(last_segment(source_rel@)) ==> r@ == path_join(
                self.root_path(),
                plain_svg(source_rel@),
            ),
            !starts_with(source_rel@, ".mdd/rendered/"@) && plain_name(
                last_segment(strip_prefix_or_self(source_rel@, ".mdd/"@)),
            ) ==> r@ == path_join(
                path_join(self.root_path(), ".mdd/rendered"@),
                plain_svg(strip_prefix_or_self(source_rel@, ".mdd/"@)),
            ),
    {
        if str_starts_with(source_rel, ".mdd/rendered/") {
            let rel = set_svg_extension(source_rel);
            join_path(self.root(), rel.as_str())
        } else {
            self.rendered_svg_path(source_rel)
        }
    }
}

/// The directories a render tree is collected from.
pub open spec fn tree_roots(t: RenderTree) -> Seq<Seq<char>> {
    match t {
        RenderTree::Models => seq![".mdd/models"@, ".mdd/constraints"@],
        RenderTree::CycleDiffs => seq![".mdd/cycles"@],
        RenderTree::OclConstraints => seq![".mdd/constraints"@],
        RenderTree::WholeMap => seq![".mdd/map"@],
        RenderTree::Deploy => seq![".mdd/deploy"@],
        RenderTree::ReviewDiff => seq![".mdd/rendered/review"@],
    }
}

/// The directories a render tree is collected from (walked recursively).
pub fn render_roots(t: RenderTree) -> (r: Vec<&'static str>)
    ensures
        r@.map_values(|s: &'static str| s@) == tree_roots(t),
{
    let r = match t {
        RenderTree::Models => vec![".mdd/models", ".mdd/constraints"],
        RenderTree::CycleDiffs => vec![".mdd/cycles"],
        RenderTree::OclConstraints => vec![".mdd/constraints"],
        RenderTree::WholeMap => vec![".mdd/map"],
        RenderTree::Deploy => vec![".mdd/deploy"],
        RenderTree::ReviewDiff => vec![".mdd/rendered/review"],
    };
    assert(r@.map_values(|s: &'static str| s@) =~= tree_roots(t));
    r
}

/// A model diagram: a model or constraint file that is not a constraint.
pub open spec fn is_model_file(rel: Seq<char>) -> bool {
    model_extension(path_extension(rel)) && kind_for_path_spec(rel) != ModelKind::Constraint
}

/// Whether a file under a tree's roots belongs to the tree.
pub open spec fn tree_accepts(t: RenderTree, rel: Seq<char>) -> bool {
    match t {
        RenderTree::Models => is_model_file(rel),
        RenderTree::CycleDiffs => ends_with(rel, ".diff.puml"@),
        RenderTree::OclConstraints => path_extension(rel) == Some("ocl"@),
        RenderTree::WholeMap => ends_with(rel, ".puml"@),
        RenderTree::Deploy => ends_with(rel, ".puml"@),
        RenderTree::ReviewDiff => ends_with(rel, ".diff.puml"@),
    }
}

fn is_model_file_exec(rel: &str) -> (b: bool)
    ensures
        b == is_model_file(rel@),
{
    let ext = extension_of(rel);
    let ok = match &ext {
        Some(e) => crate::markers::is_model_or_constraint_file(Some(e.as_str())),
        None => crate::markers::is_model_or_constraint_file(None),
    };
    ok && kind_for_path(rel) != ModelKind::Constraint
}

fn tree_accepts_exec(t: RenderTree, rel: &str) -> (b: bool)
    ensures
        b == tree_accepts(t, rel@),
{
    match t {
        RenderTree::Models => is_model_file_exec(rel),
        RenderTree::CycleDiffs => str_ends_with(rel, ".diff.puml"),
        RenderTree::OclConstraints => match extension_of(rel) {
            Some(e) => str_eq(e.as_str(), "ocl"),
            None => false,
        },
        RenderTree::WholeMap => str_ends_with(rel, ".puml"),
        RenderTree::Deploy => str_ends_with(rel, ".puml"),
        RenderTree::ReviewDiff => str_ends_with(rel, ".diff.puml"),
    }
}

fn filter_files(t: RenderTree, files: &Vec<String>) -> (r: Vec<String>)
    ensures
        strs(r@) == strs(files@).filter(|f: Seq<char>| tree_accepts(t, f)),
{
    let ghost fv = strs(files@);
    let ghost pred = |f: Seq<char>| tree_accepts(t, f);
    let mut r: Vec<String> = Vec::new();
    let mut i: usize = 0;
    assert(fv.take(0).filter(pred) =~= Seq::<Seq<char>>::empty()) by {
        reveal(Seq::filter);
    }
    assert(strs(r@) =~= Seq::<Seq<char>>::empty());
    while i < files.len()
        invariant
            i <= files.len(),
            fv == strs(files@),
            pred == (|f: Seq<char>| tree_accepts(t, f)),
            strs(r@) == fv.take(i as int).filter(pred),
        decreases files.len() - i,
    {
        proof {
            assert(fv.take(i + 1) == fv.take(i as int).push(fv[i as int]));
            fv.take(i as int).lemma_filter_push(fv[i as int], pred);
        }
        if tree_accepts_exec(t, files[i].as_str()) {
            let ghost r0 = strs(r@);
            r.push(files[i].clone());
            assert(strs(r@) =~= r0.push(fv[i as int]));
        }
        i = i + 1;
    }
    assert(fv.take(files.len() as int) == fv);
    r
}

impl Project {
    /// The model diagrams among the model and constraint files (given in
    /// path order): the constraint files left out.
    pub fn model_files(&self, files: &Vec<String>) -> (r: Vec<String>)
        ensures
            strs(r@) == strs(files@).filter(|f: Seq<char>| is_model_file(f)),
    {
        let r = filter_files(RenderTree::Models, files);
        assert((|f: Seq<char>| tree_accepts(RenderTree::Models, f)) =~= (|f: Seq<char>| is_model_file(f)));
        assert(strs(files@).filter(|f: Seq<char>| tree_accepts(RenderTree::Models, f)) =~= strs(files@).filter(
            |f: Seq<char>| is_model_file(f),
        ));
        r
    }

    /// The sources of one render tree among the files found under its
    /// roots (given in path order).
    pub fn render_sources(&self, tree: RenderTree, files: &Vec<String>) -> (r: Vec<String>)
        ensures
            strs(r@) == strs(files@).filter(|f: Seq<char>| tree_accepts(tree, f)),
    {
        filter_files(tree, files)
    }

    /// Every render source across every tree, in tree order, each with its
    /// tree; `found` holds the files found under each tree's roots, in
    /// `RenderTree::all` order.
    pub fn all_render_sources(&self, found: &Vec<Vec<String>>) -> (r: Vec<(RenderTree, String)>)
        requires
            found@.len() == 6,
        ensures
            r@.map_values(|x: (RenderTree, String)| (x.0, x.1@)) == all_sources(
                seq![
                    RenderTree::Models,
                    RenderTree::CycleDiffs,
                    RenderTree::OclConstraints,
                    RenderTree::WholeMap,
                    RenderTree::Deploy,
                    RenderTree::ReviewDiff,
                ],
                found@.map_values(|v: Vec<String>| strs(v@)),
            ),
    {
        let trees = RenderTree::all();
        let ghost tv = trees@;
        let ghost fv = found@.map_values(|v: Vec<String>| strs(v@));
        let mut r: Vec<(RenderTree, String)> = Vec::new();
        let mut i: usize = 0;
        assert(r@.map_values(|x: (RenderTree, String)| (x.0, x.1@)) =~= all_sources(tv.take(0), fv));
        while i < 6
            invariant
                i <= 6,
                trees@ == tv,
                tv.len() == 6,
                found@.len() == 6,
                fv == found@.map_values(|v: Vec<String>| strs(v@)),
                r@.map_values(|x: (RenderTree, String)| (x.0, x.1@)) == all_sources(tv.take(i as int), fv),
            decreases 6 - i,
        {
            proof {
                assert(tv.take(i + 1).drop_last() == tv.take(i as int));
                assert(tv.take(i + 1).last() == tv[i as int]);
            }
            let t = trees[i];
            let src = self.render_sources(t, &found[i]);
            let mut k: usize = 0;
            let ghost r0 = r@.map_values(|x: (RenderTree, String)| (x.0, x.1@));
            assert(r0 + strs(src@).take(0).map_values(|f: Seq<char>| (t, f)) =~= r0);
            while k < src.len()
                invariant
                    k <= src.len(),
                    r@.map_values(|x: (RenderTree, String)| (x.0, x.1@)) == r0 + strs(src@).take(k as int).map_values(
                        |f: Seq<char>| (t, f),
                    ),
                decreases src.len() - k,
            {
                let ghost before = r@.map_values(|x: (RenderTree, String)| (x.0, x.1@));
                let item = src[k].clone();
                r.push((t, item));
                assert(r@.map_values(|x: (RenderTree, String)| (x.0, x.1@)) =~= before.push((t, strs(src@)[k as int])));
                assert(strs(src@).take(k + 1) =~= strs(src@).take(k as int).push(strs(src@)[k as int]));
                assert(r@.map_values(|x: (RenderTree, String)| (x.0, x.1@)) =~= r0 + strs(src@).take(k + 1).map_values(
                    |f: Seq<char>| (t, f),
                ));
                k = k + 1;
            }
            assert(strs(src@).take(src.len() as int) == strs(src@));
            assert(fv[i as int] == strs(found@[i as int]@));
            i = i + 1;
        }
        assert(tv.take(6) == tv);
        r
    }
}

/// The sources of each tree, in tree order.
pub open spec fn all_sources(trees: Seq<RenderTree>, found: Seq<Seq<Seq<char>>>) -> Seq<(RenderTree, Seq<char>)>
    decreases trees.len(),
{
    if trees.len() == 0 {
        seq![]
    } else {
        let t = trees.last();
        all_sources(trees.drop_last(), found) + found[trees.len() - 1].filter(|f: Seq<char>| tree_accepts(t, f)).map_values(
            |f: Seq<char>| (t, f),
        )
    }
}

} // verus!

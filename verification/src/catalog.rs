//! What the viewer and the review read besides the registry: element
//! descriptions, deployment diagrams, rendered pages, and the base revisions
//! changes are measured from.
use vstd::prelude::*;
use crate::cycle::sorted_of;
use crate::markers::{descs_of, extract_descs, extract_ids, extract_refs, inserted};
use crate::model::{ModelFile, ModelKind, ModelSide};
use crate::order::{lemma_stable_pos, lemma_stable_sort_push, lex_lt, stable_insert, stable_pos, stable_sort, str_lt};
use crate::patterns::{Pat, captures};
use crate::paths::{last_segment, plain_name, stem_of_name};
use crate::project::{FileV, Project, SourceV, file_path_lt, insert_file_by_path, mfiles_view, sources_view};
use crate::setup::opt_view;
use crate::strings::{KeyMap, ParamMap, pairs_get};
use crate::text::{cat, cat3, ends_with, owned, starts_with, str_ends_with, str_eq, str_starts_with, strip_prefix_or_self, strs, trim, trim_str};

verus! {

/// The descriptions across diagrams, by id (a later diagram's wins).
pub open spec fn all_descs(contents: Seq<Seq<char>>) -> Seq<(Seq<char>, Seq<char>)>
    decreases contents.len(),
{
    if contents.len() == 0 {
        seq![]
    } else {
        inserted(all_descs(contents.drop_last()), descs_of(contents.last()))
    }
}

fn extend_map(m: &mut ParamMap, other: &ParamMap)
    requires
        old(m).wf(),
    ensures
        final(m).wf(),
        final(m)@ == inserted(old(m)@, other@),
{
    let ghost m0 = m@;
    let ghost ov = other@;
    let mut i: usize = 0;
    assert(ov.take(0) =~= Seq::<(Seq<char>, Seq<char>)>::empty());
    while i < other.entries.len()
        invariant
            i <= other.entries.len(),
            m.wf(),
            ov == other@,
            m@ == inserted(m0, ov.take(i as int)),
        decreases other.entries.len() - i,
    {
        proof {
            assert(ov.take(i + 1).drop_last() == ov.take(i as int));
            assert(ov.take(i + 1).last() == ov[i as int]);
        }
        m.insert(other.entries[i].0.clone(), other.entries[i].1.clone());
        i = i + 1;
    }
    assert(ov.take(other.entries.len() as int) == ov);
}

impl Project {
    /// Each model element's `@desc` text, by id, across the model and
    /// constraint files (their contents given in path order).
    pub fn descriptions(&self, contents: &Vec<String>) -> (r: ParamMap)
        ensures
            r.wf(),
            r@ == all_descs(strs(contents@)),
    {
        let ghost cv = strs(contents@);
        let mut out: ParamMap = KeyMap::new();
        let mut i: usize = 0;
        assert(out@ =~= all_descs(cv.take(0)));
        while i < contents.len()
            invariant
                i <= contents.len(),
                cv == strs(contents@),
                out.wf(),
                out@ == all_descs(cv.take(i as int)),
            decreases contents.len() - i,
        {
            proof {
                assert(cv.take(i + 1).drop_last() == cv.take(i as int));
                assert(cv.take(i + 1).last() == cv[i as int]);
            }
            let d = extract_descs(contents[i].as_str());
            extend_map(&mut out, &d);
            i = i + 1;
        }
        assert(cv.take(contents.len() as int) == cv);
        out
    }
}

/// The entry of a deployment diagram: outside the model sides, of no kind.
pub open spec fn deploy_entry(rel: Seq<char>, content: Seq<char>, pages: Seq<Seq<char>>) -> FileV {
    (
        rel,
        ModelKind::Other,
        ModelSide::Shared,
        sorted_of(captures(Pat::Ident("@id("@), content).to_set()),
        sorted_of(captures(Pat::Ident("@ref("@), content).to_set()),
        pages,
    )
}

impl Project {
    /// The deployment diagrams (each given as its relative path, content and
    /// rendered pages), as entries kept apart from the model registry and
    /// its parity gate, ordered by path (stably).
    pub fn deploy_files(&self, sources: &Vec<(String, String, Vec<String>)>) -> (r: Vec<ModelFile>)
        ensures
            mfiles_view(r@) == stable_sort(
                sources_view(sources@).map_values(|x: SourceV| deploy_entry(x.0, x.1, x.2)),
                file_path_lt(),
            ),
    {
        let ghost es = sources_view(sources@).map_values(|x: SourceV| deploy_entry(x.0, x.1, x.2));
        let mut files: Vec<ModelFile> = Vec::new();
        let mut i: usize = 0;
        assert(mfiles_view(files@) =~= stable_sort(es.take(0), file_path_lt()));
        while i < sources.len()
            invariant
                i <= sources.len(),
                es == sources_view(sources@).map_values(|x: SourceV| deploy_entry(x.0, x.1, x.2)),
                mfiles_view(files@) == stable_sort(es.take(i as int), file_path_lt()),
            decreases sources.len() - i,
        {
            let ids = extract_ids(sources[i].1.as_str());
            let refs = extract_refs(sources[i].1.as_str());
            proof {
                crate::cycle::lemma_sorted_of(strs(ids@));
                crate::cycle::lemma_sorted_of(strs(refs@));
            }
            let mf = ModelFile {
                path: sources[i].0.clone(),
                kind: ModelKind::Other,
                side: ModelSide::Shared,
                ids,
                refs,
                rendered_pages: crate::validation::clone_strings(&sources[i].2),
            };
            proof {
                assert(mf@ == es[i as int]);
                assert(es.take(i + 1) == es.take(i as int).push(es[i as int]));
                lemma_stable_sort_push(es.take(i as int), es[i as int], file_path_lt());
            }
            insert_file_by_path(&mut files, mf);
            i = i + 1;
        }
        assert(es.take(sources.len() as int) == es);
        files
    }
}

// ---------------------------------------------------------------------------
// Rendered pages

/// What `Path::parent` gives for a path.
pub uninterp spec fn path_parent(p: Seq<char>) -> Option<Seq<char>>;

/// What `Path::file_stem` gives for a path.
pub uninterp spec fn path_file_stem(p: Seq<char>) -> Option<Seq<char>>;

/// A relative path in plain form: it does not start with a separator and
/// holds no doubled separator and no `.` component after its first.
pub open spec fn tidy_path(p: Seq<char>) -> bool {
    &&& p.len() > 0
    &&& p[0] != '/'
    &&& forall|i: int| 0 <= i < p.len() - 1 ==> !(#[trigger] p[i] == '/' && p[i + 1] == '/')
    &&& forall|i: int| 0 <= i < p.len() - 2 ==> !(#[trigger] p[i] == '/' && p[i + 1] == '.' && p[i + 2] == '/')
}

/// `Path::parent` on path text. The result is named. For a tidy relative
/// path whose final component is a plain file name, std's documented
/// behaviour gives the text before that name without the separator (empty
/// for a bare name). Paths from the root, with doubled separators or with
/// `.` components are not described here: std normalises those.
#[verifier::external_body]
fn parent_of(p: &str) -> (r: Option<String>)
    ensures
        opt_view(r) == path_parent(p@),
        tidy_path(p@) && plain_name(last_segment(p@)) && last_segment(p@).len() < p@.len() ==> opt_view(r)
            == Some(p@.take(p@.len() - last_segment(p@).len() - 1)),
        tidy_path(p@) && plain_name(last_segment(p@)) && last_segment(p@).len() == p@.len() ==> opt_view(r)
            == Some(Seq::<char>::empty()),
{
    std::path::Path::new(p).parent().map(|x| x.to_string_lossy().into_owned())
}

/// `Path::file_stem` on path text. The result is named; when the final
/// component is a plain file name, it is that name's stem, as std documents.
#[verifier::external_body]
fn file_stem_of(p: &str) -> (r: Option<String>)
    ensures
        opt_view(r) == path_file_stem(p@),
        plain_name(last_segment(p@)) ==> opt_view(r) == Some(stem_of_name(last_segment(p@))),
{
    std::path::Path::new(p).file_stem().map(|x| x.to_string_lossy().into_owned())
}

pub open spec fn str_lt_fn() -> spec_fn(Seq<char>, Seq<char>) -> bool {
    |a: Seq<char>, b: Seq<char>| lex_lt(a, b)
}

/// A numbered page of a diagram: `<stem>_...svg`, other than the base page.
pub open spec fn numbered_page(name: Seq<char>, stem: Seq<char>) -> bool {
    name != stem + ".svg"@ && starts_with(name, stem + "_"@) && ends_with(name, ".svg"@)
}

/// The rendered pages of a source under `.mdd/`, given the file names in
/// its rendered directory (none when that directory is missing or cannot be
/// read): the base page `<stem>.svg` first when present, then the numbered
/// pages by name, each as `<dir>/<name>` with `<dir>` the source's
/// directory below `.mdd/`.
pub open spec fn pages_spec(rel: Seq<char>, listing: Option<Seq<Seq<char>>>) -> Seq<Seq<char>> {
    if !starts_with(rel, ".mdd/"@) {
        seq![]
    } else {
        let rest = rel.skip(5);
        match (path_parent(rest), path_file_stem(rest), listing) {
            (Some(parent), Some(stem), Some(names)) => pages_from(parent, stem, names),
            _ => seq![],
        }
    }
}

/// The pages of a diagram with rendered directory `parent` and file stem
/// `stem`, among the file names `names`.
pub open spec fn pages_from(parent: Seq<char>, stem: Seq<char>, names: Seq<Seq<char>>) -> Seq<Seq<char>> {
    let base = stem + ".svg"@;
    (if names.contains(base) {
        seq![parent + "/"@ + base]
    } else {
        seq![]
    }) + stable_sort(names.filter(|n: Seq<char>| numbered_page(n, stem)), str_lt_fn()).map_values(
        |n: Seq<char>| parent + "/"@ + n,
    )
}

/// The directory part of a tidy relative path: the text before its final
/// component, without the separator (empty for a bare name).
pub open spec fn plain_parent(p: Seq<char>) -> Seq<char> {
    if last_segment(p).len() < p.len() {
        p.take(p.len() - last_segment(p).len() - 1)
    } else {
        Seq::<char>::empty()
    }
}

fn insert_name(v: &mut Vec<String>, x: String)
    ensures
        strs(final(v)@) == stable_insert(strs(old(v)@), x@, str_lt_fn()),
{
    let ghost s = strs(v@);
    proof {
        lemma_stable_pos(s, x@, str_lt_fn());
    }
    let mut j: usize = v.len();
    assert(s.take(j as int) == s);
    while j > 0 && str_lt(x.as_str(), v[j - 1].as_str())
        invariant
            j <= v.len(),
            s == strs(v@),
            stable_pos(s, x@, str_lt_fn()) == stable_pos(s.take(j as int), x@, str_lt_fn()),
        decreases j,
    {
        proof {
            assert(s.take(j as int).drop_last() == s.take(j - 1));
            assert(s.take(j as int).last() == s[j - 1]);
        }
        j = j - 1;
    }
    proof {
        if j > 0 {
            assert(s.take(j as int).last() == s[j - 1]);
        }
        assert(stable_pos(s.take(j as int), x@, str_lt_fn()) == j);
    }
    let ghost xv = x@;
    v.insert(j, x);
    assert(strs(v@) =~= s.insert(j as int, xv));
}

impl Project {
    /// The rendered pages of a diagram (see `pages_spec`); `listing` holds
    /// the file names of its rendered directory.
    pub fn rendered_pages_for(&self, relative_source: &str, listing: Option<&Vec<String>>) -> (r: Vec<String>)
        ensures
            strs(r@) == pages_spec(
                relative_source@,
                match listing {
                    Some(l) => Some(strs(l@)),
                    None => None,
                },
            ),
            starts_with(relative_source@, ".mdd/"@) && tidy_path(relative_source@.skip(5)) && plain_name(
                last_segment(relative_source@.skip(5)),
            ) ==> strs(r@) == match listing {
                Some(l) => pages_from(
                    plain_parent(relative_source@.skip(5)),
                    stem_of_name(last_segment(relative_source@.skip(5))),
                    strs(l@),
                ),
                None => Seq::<Seq<char>>::empty(),
            },
    {
        proof {
            reveal_strlit(".mdd/");
        }
        if !str_starts_with(relative_source, ".mdd/") {
            return Vec::new();
        }
        let rest = crate::text::strip_prefix_or_self_str(relative_source, ".mdd/");
        assert(rest@ == relative_source@.skip(5));
        proof {
            crate::paths::lemma_last_index_bounds(rest@, '/');
        }
        let parent = match parent_of(rest.as_str()) {
            Some(p) => p,
            None => {
                return Vec::new();
            },
        };
        let stem = match file_stem_of(rest.as_str()) {
            Some(s) => s,
            None => {
                return Vec::new();
            },
        };
        let names = match listing {
            Some(l) => l,
            None => {
                return Vec::new();
            },
        };
        let base = cat(stem.as_str(), ".svg");
        let prefix = cat(stem.as_str(), "_");
        let ghost nv = strs(names@);
        let ghost pred = |n: Seq<char>| numbered_page(n, stem@);
        let mut has_base = false;
        let mut numbered: Vec<String> = Vec::new();
        let mut i: usize = 0;
        assert(strs(numbered@) =~= stable_sort(nv.take(0).filter(pred), str_lt_fn())) by {
            reveal(Seq::filter);
        }
        while i < names.len()
            invariant
                i <= names.len(),
                nv == strs(names@),
                base@ == stem@ + ".svg"@,
                prefix@ == stem@ + "_"@,
                pred == (|n: Seq<char>| numbered_page(n, stem@)),
                has_base == (exists|w: int| 0 <= w < i && #[trigger] nv[w] == base@),
                strs(numbered@) == stable_sort(nv.take(i as int).filter(pred), str_lt_fn()),
            decreases names.len() - i,
        {
            let n = names[i].as_str();
            proof {
                assert(nv.take(i + 1) == nv.take(i as int).push(nv[i as int]));
                nv.take(i as int).lemma_filter_push(nv[i as int], pred);
            }
            if str_eq(n, base.as_str()) {
                has_base = true;
                assert(nv[i as int] == base@);
            } else {
                if str_starts_with(n, prefix.as_str()) && str_ends_with(n, ".svg") {
                    proof {
                        lemma_stable_sort_push(nv.take(i as int).filter(pred), nv[i as int], str_lt_fn());
                    }
                    insert_name(&mut numbered, names[i].clone());
                }
            }
            i = i + 1;
        }
        assert(nv.take(names.len() as int) == nv);
        assert(has_base == nv.contains(base@));
        let mut pages: Vec<String> = Vec::new();
        let ghost nb = strs(numbered@);
        if has_base {
            pages.push(cat3(parent.as_str(), "/", base.as_str()));
        }
        let ghost p0 = strs(pages@);
        assert(p0 =~= (if has_base {
            seq![parent@ + "/"@ + base@]
        } else {
            seq![]
        }));
        let mut k: usize = 0;
        while k < numbered.len()
            invariant
                k <= numbered.len(),
                nb == strs(numbered@),
                strs(pages@) == p0 + nb.take(k as int).map_values(|n: Seq<char>| parent@ + "/"@ + n),
            decreases numbered.len() - k,
        {
            let ghost q0 = strs(pages@);
            pages.push(cat3(parent.as_str(), "/", numbered[k].as_str()));
            assert(strs(pages@) =~= q0.push(parent@ + "/"@ + nb[k as int]));
            assert(nb.take(k + 1).map_values(|n: Seq<char>| parent@ + "/"@ + n) =~= nb.take(k as int).map_values(
                |n: Seq<char>| parent@ + "/"@ + n,
            ).push(parent@ + "/"@ + nb[k as int]));
            k = k + 1;
        }
        assert(nb.take(numbered.len() as int) == nb);
        pages
    }
}

// ---------------------------------------------------------------------------
// Base revisions

/// The open cycle whose directory name is greatest (the first of equal
/// names) among those that record a base revision: (name, base).
pub open spec fn best_base(ms: Seq<(Seq<char>, Option<Seq<char>>, Option<Seq<char>>)>) -> Option<(Seq<char>, Seq<char>)>
    decreases ms.len(),
{
    if ms.len() == 0 {
        None
    } else {
        let prev = best_base(ms.drop_last());
        let m = ms.last();
        if m.1 == Some("open"@) && m.2 is Some {
            match prev {
                None => Some((m.0, m.2.unwrap())),
                Some((n, b)) => if lex_lt(n, m.0) {
                    Some((m.0, m.2.unwrap()))
                } else {
                    prev
                },
            }
        } else {
            prev
        }
    }
}

pub open spec fn manifests_view(v: Seq<(String, Option<String>, Option<String>)>) -> Seq<(Seq<char>, Option<Seq<char>>, Option<Seq<char>>)> {
    v.map_values(|x: (String, Option<String>, Option<String>)| (x.0@, opt_view(x.1), opt_view(x.2)))
}

impl Project {
    /// The revision the reverse traceability pass diffs from: the base
    /// revision of the open cycle with the greatest directory name, or
    /// `HEAD` when none is open. Each cycle manifest is given as its
    /// directory name, `status` and `base_revision`.
    pub fn traceability_base(&self, manifests: &Vec<(String, Option<String>, Option<String>)>) -> (r: String)
        ensures
            r@ == match best_base(manifests_view(manifests@)) {
                Some((n, b)) => b,
                None => "HEAD"@,
            },
    {
        let ghost mv = manifests_view(manifests@);
        let mut best: Option<(String, String)> = None;
        let mut i: usize = 0;
        while i < manifests.len()
            invariant
                i <= manifests.len(),
                mv == manifests_view(manifests@),
                match best_base(mv.take(i as int)) {
                    Some((n, b)) => best matches Some(x) && x.0@ == n && x.1@ == b,
                    None => best is None,
                },
            decreases manifests.len() - i,
        {
            proof {
                assert(mv.take(i + 1).drop_last() == mv.take(i as int));
                assert(mv.take(i + 1).last() == mv[i as int]);
            }
            let m = &manifests[i];
            let open = match &m.1 {
                Some(s) => str_eq(s.as_str(), "open"),
                None => false,
            };
            if open {
                match &m.2 {
                    Some(base) => {
                        let better = match &best {
                            None => true,
                            Some(x) => str_lt(x.0.as_str(), m.0.as_str()),
                        };
                        if better {
                            best = Some((m.0.clone(), base.clone()));
                        }
                    },
                    None => {},
                }
            }
            i = i + 1;
        }
        assert(mv.take(manifests.len() as int) == mv);
        match best {
            Some((_, b)) => b,
            None => owned("HEAD"),
        }
    }

    /// The whole-map baseline: the manifest's `source_revision` when it is
    /// set (trimmed, not empty), else the revision derived from history
    /// (`derived`); `None` when there is no manifest at all.
    pub fn map_source_revision(&self, manifest_exists: bool, explicit: Option<String>, derived: Option<String>) -> (r:
        Option<String>)
        ensures
            !manifest_exists ==> r is None,
            manifest_exists ==> opt_view(r) == match explicit {
                Some(e) => if trim(e@).len() > 0 {
                    Some(trim(e@))
                } else {
                    opt_view(derived)
                },
                None => opt_view(derived),
            },
    {
        if !manifest_exists {
            return None;
        }
        match explicit {
            Some(e) => {
                let t = trim_str(e.as_str());
                let tc = crate::text::chars_of(t.as_str());
                if tc.len() > 0 {
                    Some(t)
                } else {
                    derived
                }
            },
            None => derived,
        }
    }
}

} // verus!

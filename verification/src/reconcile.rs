//! Reconciling remappings from their three sources into the final ordered
//! table: the project's pre-existing remappings first, then those the
//! materializer generated, then those the fetched metadata declares, each
//! normalized to a project-root-relative path and rendered.

use vstd::prelude::*;
use vstd::string::*;
use crate::pathseg::{path_wf, join_path, render_path, lemma_join_first_char, first_char_is};
use crate::remapping::{
    Remapping,
    RawRemapping,
    render_parts,
    render_remapping,
    relative_of,
    relativize_path,
};

verus! {


/// The whole reconciled table: pre-existing entries first, then the
/// generated ones, then the metadata-declared ones.
pub open spec fn reconciled_spec(
    pre: Seq<RawRemapping>,
    generated: Seq<Remapping>,
    declared: Seq<Remapping>,
    reorganized: bool,
    root: Seq<char>,
) -> Seq<Seq<char>> {
    Seq::new(
        pre.len() + generated.len() + declared.len(),
        |i: int|
            if i < pre.len() {
                raw_rendered(pre[i], root)
            } else if i < pre.len() + generated.len() {
                seg_rendered(
                    None,
                    generated[i - pre.len()].name.deep_view(),
                    generated[i - pre.len()].path.deep_view(),
                )
            } else {
                let j = i - pre.len() - generated.len();
                seg_rendered(
                    ctx_rel(declared[j].context, root),
                    declared[j].name.deep_view(),
                    if reorganized {
                        rewrite_meta_path(declared[j].path.deep_view())
                    } else {
                        declared[j].path.deep_view()
                    },
                )
            },
    )
}

/// A fetched-metadata remapping path, rewritten for a reorganized
/// project: a path rooted at the contracts directory is re-rooted at the
/// canonical source directory; one rooted at a scope marker or a
/// well-known scaffolding name is re-rooted under the canonical library
/// directory; anything else passes through.
pub open spec fn rewrite_meta_path(p: Seq<Seq<char>>) -> Seq<Seq<char>> {
    if p.len() == 0 {
        p
    } else if p[0] == "contracts"@ {
        seq!["src"@] + p.drop_first()
    } else if p[0] == "hardhat"@ || p[0] == "forge-std"@ || (p[0].len() > 0 && p[0][0] == '@') {
        seq!["lib"@] + p
    } else {
        p
    }
}

/// The relativized context of a remapping, if any.
pub open spec fn ctx_rel(c: Option<String>, root: Seq<char>) -> Option<Seq<char>> {
    match c {
        Some(s) => Some(relative_of(s@, root)),
        None => None,
    }
}

/// How a pre-existing (already flat, possibly absolute) remapping is
/// rendered: its path and context are made root-relative first.
pub open spec fn raw_rendered(r: RawRemapping, root: Seq<char>) -> Seq<char> {
    render_parts(ctx_rel(r.context, root), r.name@, relative_of(r.path@, root))
}

/// How a generated or metadata-declared remapping is rendered once its
/// (already root-relative) sides are joined flat.
pub open spec fn seg_rendered(ctx: Option<Seq<char>>, name: Seq<Seq<char>>, path: Seq<
    Seq<char>,
>) -> Seq<char> {
    render_parts(ctx, join_path(name), join_path(path))
}

/// An absolute root: the relativization of a root-relative path under it
/// is the path itself.
pub open spec fn root_wf(root: Seq<char>) -> bool {
    root.len() > 0 && root[0] == '/'
}

/// Applies `rewrite_meta_path` to a segment path.
pub fn rewrite_metadata_path(p: &Vec<String>) -> (r: Vec<String>)
    requires
        path_wf(p.deep_view()),
    ensures
        r.deep_view() == rewrite_meta_path(p.deep_view()),
        path_wf(r.deep_view()),
{
    let head = &p[0];
    if crate::pathseg::str_eq(head.as_str(), "contracts") {
        let mut r: Vec<String> = Vec::new();
        r.push("src".to_owned());
        let mut i: usize = 1;
        while i < p.len()
            invariant
                1 <= i <= p.len(),
                r.len() == i,
                r.deep_view()[0] == "src"@,
                forall|j: int| 1 <= j < i ==> r.deep_view()[j] == p.deep_view()[j],
            decreases p.len() - i,
        {
            r.push(p[i].clone());
            i = i + 1;
        }
        proof {
            assert(r.deep_view() =~= seq!["src"@] + p.deep_view().drop_first());
            reveal_strlit("src");
            assert(path_wf(r.deep_view()));
        }
        r
    } else if crate::pathseg::str_eq(head.as_str(), "hardhat") || crate::pathseg::str_eq(
        head.as_str(),
        "forge-std",
    ) || first_char_is(head.as_str(), '@') {
        let mut r: Vec<String> = Vec::new();
        r.push("lib".to_owned());
        let mut i: usize = 0;
        while i < p.len()
            invariant
                i <= p.len(),
                r.len() == i + 1,
                r.deep_view()[0] == "lib"@,
                forall|j: int| 0 <= j < i ==> r.deep_view()[j + 1] == p.deep_view()[j],
            decreases p.len() - i,
        {
            r.push(p[i].clone());
            i = i + 1;
        }
        proof {
            assert(r.deep_view() =~= seq!["lib"@] + p.deep_view());
            reveal_strlit("lib");
            assert(path_wf(r.deep_view()));
        }
        r
    } else {
        crate::pathseg::copy_path(p)
    }
}

/// Builds the final ordered remapping table: pre-existing entries first,
/// then the generated ones, then the metadata-declared ones (rewritten
/// when the project was reorganized), every path made root-relative and
/// every entry rendered to its canonical string form.
#[verifier::loop_isolation(false)]
pub fn reconcile_remappings(
    pre_existing: &Vec<RawRemapping>,
    generated: &Vec<Remapping>,
    declared: &Vec<Remapping>,
    reorganized: bool,
    root: &str,
) -> (r: Vec<String>)
    requires
        root_wf(root@),
        forall|i: int| 0 <= i < generated@.len() ==> {
            &&& path_wf((#[trigger] generated@[i]).name.deep_view())
            &&& path_wf(generated@[i].path.deep_view())
            &&& generated@[i].context is None
        },
        forall|i: int| 0 <= i < declared@.len() ==> {
            &&& path_wf((#[trigger] declared@[i]).name.deep_view())
            &&& path_wf(declared@[i].path.deep_view())
        },
    ensures
        r.deep_view() == reconciled_spec(
            pre_existing@,
            generated@,
            declared@,
            reorganized,
            root@,
        ),
        r.len() == pre_existing.len() + generated.len() + declared.len(),
        forall|i: int|
            0 <= i < pre_existing@.len() ==> r.deep_view()[i] == raw_rendered(
                pre_existing@[i],
                root@,
            ),
        forall|i: int|
            0 <= i < generated@.len() ==> r.deep_view()[pre_existing@.len() + i] == seg_rendered(
                None,
                (#[trigger] generated@[i]).name.deep_view(),
                generated@[i].path.deep_view(),
            ),
        forall|i: int|
            0 <= i < declared@.len() ==> r.deep_view()[pre_existing@.len() + generated@.len()
                + i] == seg_rendered(
                ctx_rel((#[trigger] declared@[i]).context, root@),
                declared@[i].name.deep_view(),
                if reorganized {
                    rewrite_meta_path(declared@[i].path.deep_view())
                } else {
                    declared@[i].path.deep_view()
                },
            ),
{
    let mut out: Vec<String> = Vec::new();

    let mut i: usize = 0;
    while i < pre_existing.len()
        invariant
            i <= pre_existing.len(),
            out.len() == i,
            forall|j: int|
                0 <= j < i ==> out.deep_view()[j] == raw_rendered(pre_existing@[j], root@),
        decreases pre_existing.len() - i,
    {
        let r = &pre_existing[i];
        let rel_path = relativize_path(r.path.as_str(), root);
        let rel_ctx: Option<String> = match &r.context {
            Some(c) => Some(relativize_path(c.as_str(), root)),
            None => None,
        };
        let rendered = render_remapping(&rel_ctx, r.name.as_str(), rel_path.as_str());
        let ghost old_out = out.deep_view();
        out.push(rendered);
        proof {
            assert(out.deep_view() =~= old_out.push(raw_rendered(pre_existing@[i as int], root@)));
        }
        i = i + 1;
    }

    let mut i: usize = 0;
    while i < generated.len()
        invariant
            i <= generated.len(),
            out.len() == pre_existing.len() + i,
            forall|j: int|
                0 <= j < pre_existing@.len() ==> out.deep_view()[j] == raw_rendered(
                    pre_existing@[j],
                    root@,
                ),
            forall|j: int|
                0 <= j < i ==> out.deep_view()[pre_existing@.len() + j] == seg_rendered(
                    None,
                    (#[trigger] generated@[j]).name.deep_view(),
                    generated@[j].path.deep_view(),
                ),
        decreases generated.len() - i,
    {
        let r = &generated[i];
        let name_flat = render_path(&r.name);
        let path_flat = render_path(&r.path);
        proof {
            lemma_join_first_char(r.path.deep_view());
        }
        let rel_path = relativize_path(path_flat.as_str(), root);
        proof {
            assert(rel_path@ == path_flat@);
        }
        let rendered = render_remapping(&None, name_flat.as_str(), rel_path.as_str());
        let ghost old_out = out.deep_view();
        out.push(rendered);
        proof {
            assert(out.deep_view() =~= old_out.push(
                seg_rendered(None, r.name.deep_view(), r.path.deep_view()),
            ));
        }
        i = i + 1;
    }

    let mut i: usize = 0;
    while i < declared.len()
        invariant
            i <= declared.len(),
            out.len() == pre_existing.len() + generated.len() + i,
            forall|j: int|
                0 <= j < pre_existing@.len() ==> out.deep_view()[j] == raw_rendered(
                    pre_existing@[j],
                    root@,
                ),
            forall|j: int|
                0 <= j < generated@.len() ==> out.deep_view()[pre_existing@.len() + j]
                    == seg_rendered(
                    None,
                    (#[trigger] generated@[j]).name.deep_view(),
                    generated@[j].path.deep_view(),
                ),
            forall|j: int|
                0 <= j < i ==> out.deep_view()[pre_existing@.len() + generated@.len() + j]
                    == seg_rendered(
                    ctx_rel((#[trigger] declared@[j]).context, root@),
                    declared@[j].name.deep_view(),
                    if reorganized {
                        rewrite_meta_path(declared@[j].path.deep_view())
                    } else {
                        declared@[j].path.deep_view()
                    },
                ),
        decreases declared.len() - i,
    {
        let r = &declared[i];
        let name_flat = render_path(&r.name);
        let path_segs = if reorganized {
            rewrite_metadata_path(&r.path)
        } else {
            crate::pathseg::copy_path(&r.path)
        };
        let path_flat = render_path(&path_segs);
        proof {
            lemma_join_first_char(path_segs.deep_view());
        }
        let rel_path = relativize_path(path_flat.as_str(), root);
        proof {
            assert(rel_path@ == path_flat@);
        }
        let rel_ctx: Option<String> = match &r.context {
            Some(c) => Some(relativize_path(c.as_str(), root)),
            None => None,
        };
        let rendered = render_remapping(&rel_ctx, name_flat.as_str(), rel_path.as_str());
        let ghost old_out = out.deep_view();
        out.push(rendered);
        proof {
            assert(out.deep_view() =~= old_out.push(
                seg_rendered(
                    ctx_rel(r.context, root@),
                    r.name.deep_view(),
                    if reorganized {
                        rewrite_meta_path(r.path.deep_view())
                    } else {
                        r.path.deep_view()
                    },
                ),
            ));
        }
        i = i + 1;
    }
    proof {
        assert(out.deep_view() =~= reconciled_spec(
            pre_existing@,
            generated@,
            declared@,
            reorganized,
            root@,
        ));
    }
    out
}

} // verus!

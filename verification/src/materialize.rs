//! Planning the materialization of a staged source bundle: whether the
//! bundle is reorganized, which filesystem steps run in which order, and
//! which remappings the moves generate.

use vstd::prelude::*;
use vstd::string::*;
use crate::errors::CloneError;
use crate::pathseg::{path_wf, seg_wf, str_eq, paths_contain};
use crate::remapping::Remapping;
use crate::source_tree::{
    SourceTree,
    tree_wf,
    EntryClass,
    classify_spec,
    classify,
    recognized,
    flattened,
    firsts,
    seconds,
    dedup_keep_first,
    top_level_names,
    children_of,
};

verus! {

/// One filesystem action of a materialization plan.  Steps are executed
/// in plan order; `from` paths are relative to the staged bundle
/// directory, every other path is relative to the project root.
#[derive(Debug, Clone)]
pub enum PlanStep {
    /// Remove an existing destination before it is replaced.
    Delete { path: Vec<String> },
    /// Create a fresh directory.
    CreateDir { path: Vec<String> },
    /// Move one staged entry (a whole file or directory) to `to`.
    MoveEntry { from: Vec<String>, to: Vec<String> },
}

/// The materializer's decision for one staged bundle: the reorganization
/// verdict, the ordered filesystem steps, and the remappings the moves
/// generate.
#[derive(Debug, Clone)]
pub struct MaterializePlan {
    /// Whether the bundle's own layout was replaced by the project's.
    pub reorganize: bool,
    /// The filesystem actions, in execution order.
    pub steps: Vec<PlanStep>,
    /// One remapping per moved entry that needs an alias, in step order.
    pub remappings: Vec<Remapping>,
}

/// A plan step at the specification level.
#[verifier::ext_equal]
pub ghost enum GStep {
    Delete(Seq<Seq<char>>),
    CreateDir(Seq<Seq<char>>),
    MoveEntry(Seq<Seq<char>>, Seq<Seq<char>>),
}

/// The planner's abstract state: which paths exist under the project
/// root, and what has been emitted so far.
#[verifier::ext_equal]
pub ghost struct GState {
    /// Paths that exist under the project root.
    pub occupied: Seq<Seq<Seq<char>>>,
    /// Emitted steps.
    pub steps: Seq<GStep>,
    /// Emitted remappings, as (alias segments, path segments).
    pub remaps: Seq<(Seq<Seq<char>>, Seq<Seq<char>>)>,
}

/// The abstract form of an exec plan step.
pub open spec fn step_view(s: PlanStep) -> GStep {
    match s {
        PlanStep::Delete { path } => GStep::Delete(path.deep_view()),
        PlanStep::CreateDir { path } => GStep::CreateDir(path.deep_view()),
        PlanStep::MoveEntry { from, to } => GStep::MoveEntry(from.deep_view(), to.deep_view()),
    }
}

/// The abstract form of an exec step list.
pub open spec fn steps_view(v: Seq<PlanStep>) -> Seq<GStep> {
    Seq::new(v.len(), |i: int| step_view(v[i]))
}

/// The abstract form of an exec remapping list.
pub open spec fn remaps_view(v: Seq<Remapping>) -> Seq<(Seq<Seq<char>>, Seq<Seq<char>>)> {
    Seq::new(v.len(), |i: int| (v[i].name.deep_view(), v[i].path.deep_view()))
}

/// Where the children of a flattened entry go.
pub open spec fn flatten_dest_dir(c: EntryClass) -> Seq<Seq<char>> {
    if c == EntryClass::LibLike {
        seq!["lib"@]
    } else if c == EntryClass::NodeModulesLike {
        seq!["node_modules"@]
    } else {
        seq!["src"@]
    }
}

/// Whether every top-level entry name is recognized.
pub open spec fn all_recognized(tops: Seq<Seq<char>>) -> bool {
    forall|i: int| 0 <= i < tops.len() ==> recognized(classify_spec(#[trigger] tops[i]))
}

/// The reorganization decision: reorganize unless the keep flag is set
/// or some top-level entry is unrecognized.
pub open spec fn reorg_spec(t: SourceTree, keep_structure: bool) -> bool {
    !keep_structure && all_recognized(dedup_keep_first(firsts(t.files@)))
}

/// Flattening one entry's children, in order: each child moves into
/// `dest_dir` under its own name, colliding with nothing that exists.
pub open spec fn flatten_children(
    st: GState,
    name: Seq<char>,
    children: Seq<Seq<char>>,
    dest_dir: Seq<Seq<char>>,
) -> Result<GState, CloneError>
    decreases children.len(),
{
    if children.len() == 0 {
        Ok(st)
    } else {
        match flatten_children(st, name, children.drop_last(), dest_dir) {
            Err(e) => Err(e),
            Ok(st1) => {
                let c = children.last();
                let dest = dest_dir.push(c);
                if st1.occupied.contains(dest) {
                    Err(CloneError::DestinationExists)
                } else {
                    Ok(
                        (GState {
                            occupied: st1.occupied.push(dest),
                            steps: st1.steps.push(GStep::MoveEntry(seq![name, c], dest)),
                            remaps: st1.remaps.push((seq![name, c], dest)),
                        }),
                    )
                }
            },
        }
    }
}

/// Handling one top-level entry.  Without reorganization the entry moves
/// whole into the canonical source directory; with it, the entry's class
/// decides between flattening, the well-known override, and a whole move
/// into the canonical library directory.
pub open spec fn entry_step(
    files: Seq<crate::source_tree::SourceFile>,
    st: GState,
    name: Seq<char>,
    reorg: bool,
) -> Result<GState, CloneError> {
    if !reorg {
        let dest = seq!["src"@, name];
        if st.occupied.contains(dest) {
            Err(CloneError::DestinationExists)
        } else {
            Ok(
                (GState {
                    occupied: st.occupied.push(dest),
                    steps: st.steps.push(GStep::MoveEntry(seq![name], dest)),
                    remaps: if name == "src"@ {
                        st.remaps
                    } else {
                        st.remaps.push((seq![name], dest))
                    },
                }),
            )
        }
    } else {
        let c = classify_spec(name);
        if flattened(c) {
            let children = dedup_keep_first(seconds(files, name));
            if children.len() == 0 {
                Err(CloneError::EntryNotDirectory)
            } else if c == EntryClass::NodeModulesLike {
                if st.occupied.contains(seq!["node_modules"@]) {
                    Err(CloneError::DestinationExists)
                } else {
                    flatten_children(
                        (GState {
                            occupied: st.occupied.push(seq!["node_modules"@]),
                            steps: st.steps.push(GStep::CreateDir(seq!["node_modules"@])),
                            remaps: st.remaps,
                        }),
                        name,
                        children,
                        seq!["node_modules"@],
                    )
                }
            } else {
                flatten_children(st, name, children, flatten_dest_dir(c))
            }
        } else {
            let dest = seq!["lib"@, name];
            if c == EntryClass::WellKnown && st.occupied.contains(dest) {
                Ok(
                    (GState {
                        occupied: st.occupied,
                        steps: st.steps.push(GStep::Delete(dest)).push(
                            GStep::MoveEntry(seq![name], dest),
                        ),
                        remaps: st.remaps.push((seq![name], dest)),
                    }),
                )
            } else if st.occupied.contains(dest) {
                Err(CloneError::DestinationExists)
            } else {
                Ok(
                    (GState {
                        occupied: st.occupied.push(dest),
                        steps: st.steps.push(GStep::MoveEntry(seq![name], dest)),
                        remaps: st.remaps.push((seq![name], dest)),
                    }),
                )
            }
        }
    }
}

/// Folding `entry_step` over the top-level entries, in order.
pub open spec fn run_entries(
    files: Seq<crate::source_tree::SourceFile>,
    st: GState,
    tops: Seq<Seq<char>>,
    reorg: bool,
) -> Result<GState, CloneError>
    decreases tops.len(),
{
    if tops.len() == 0 {
        Ok(st)
    } else {
        match run_entries(files, st, tops.drop_last(), reorg) {
            Err(e) => Err(e),
            Ok(st1) => entry_step(files, st1, tops.last(), reorg),
        }
    }
}

/// The whole planning decision: the canonical directories must exist, and
/// the entries are handled in order of first appearance.
pub open spec fn plan_result_spec(
    t: SourceTree,
    existing: Seq<Seq<Seq<char>>>,
    keep_structure: bool,
) -> Result<GState, CloneError> {
    if !existing.contains(seq!["src"@]) {
        Err(CloneError::MissingSourceDir)
    } else if !existing.contains(seq!["lib"@]) {
        Err(CloneError::MissingLibDir)
    } else {
        run_entries(
            t.files@,
            (GState { occupied: existing, steps: Seq::empty(), remaps: Seq::empty() }),
            dedup_keep_first(firsts(t.files@)),
            reorg_spec(t, keep_structure),
        )
    }
}

/// Every remapping a plan emits is well-formed.
pub open spec fn plan_remappings_wf(p: MaterializePlan) -> bool {
    forall|i: int|
        0 <= i < p.remappings@.len() ==> {
            &&& path_wf((#[trigger] p.remappings@[i]).name.deep_view())
            &&& path_wf(p.remappings@[i].path.deep_view())
            &&& p.remappings@[i].context is None
        }
}

/// An error met on a prefix of the entries is the fold's final answer.
pub proof fn lemma_run_err_propagates(
    files: Seq<crate::source_tree::SourceFile>,
    st0: GState,
    tops: Seq<Seq<char>>,
    reorg: bool,
    k: int,
)
    requires
        0 <= k <= tops.len(),
        run_entries(files, st0, tops.take(k), reorg) is Err,
    ensures
        run_entries(files, st0, tops, reorg) == run_entries(files, st0, tops.take(k), reorg),
    decreases tops.len() - k,
{
    if k < tops.len() {
        assert(tops.take(k + 1).drop_last() =~= tops.take(k));
        lemma_run_err_propagates(files, st0, tops, reorg, k + 1);
    } else {
        assert(tops.take(k) =~= tops);
    }
}

/// An error met on a prefix of the children is the fold's final answer.
pub proof fn lemma_flatten_err_propagates(
    st: GState,
    name: Seq<char>,
    children: Seq<Seq<char>>,
    dest_dir: Seq<Seq<char>>,
    j: int,
)
    requires
        0 <= j <= children.len(),
        flatten_children(st, name, children.take(j), dest_dir) is Err,
    ensures
        flatten_children(st, name, children, dest_dir) == flatten_children(
            st,
            name,
            children.take(j),
            dest_dir,
        ),
    decreases children.len() - j,
{
    if j < children.len() {
        assert(children.take(j + 1).drop_last() =~= children.take(j));
        lemma_flatten_err_propagates(st, name, children, dest_dir, j + 1);
    } else {
        assert(children.take(j) =~= children);
    }
}

/// Every child name listed under a flattened entry is a well-formed
/// segment: it is the second segment of some well-formed file path.
pub proof fn lemma_seconds_wf(
    files: Seq<crate::source_tree::SourceFile>,
    top: Seq<char>,
    c: Seq<char>,
)
    requires
        forall|i: int| 0 <= i < files.len() ==> path_wf(#[trigger] files[i].path.deep_view()),
        seconds(files, top).contains(c),
    ensures
        seg_wf(c),
    decreases files.len(),
{
    if files.len() > 0 {
        let pre = seconds(files.drop_last(), top);
        let i = choose|i: int| 0 <= i < seconds(files, top).len() && seconds(files, top)[i] == c;
        if i < pre.len() {
            assert(pre[i] == c);
            assert(forall|k: int|
                0 <= k < files.drop_last().len() ==> path_wf(
                    #[trigger] files.drop_last()[k].path.deep_view(),
                ));
            lemma_seconds_wf(files.drop_last(), top, c);
        } else {
            assert(files.last().path.deep_view().len() >= 2);
            assert(c == files.last().path.deep_view()[1]);
            assert(path_wf(files[files.len() - 1].path.deep_view()));
        }
    }
}

/// Computes the materialization plan for a staged bundle against the
/// paths that already exist under the project root.  Returns exactly what
/// `plan_result_spec` says: the same steps, remappings and verdict on
/// success, and the same failure otherwise.
#[verifier::loop_isolation(false)]
pub fn plan_materialization(
    tree: &SourceTree,
    existing: &Vec<Vec<String>>,
    keep_structure: bool,
) -> (r: Result<MaterializePlan, CloneError>)
    requires
        tree_wf(*tree),
    ensures
        (r is Ok) == (plan_result_spec(*tree, existing.deep_view(), keep_structure) is Ok),
        r is Ok ==> {
            let g = plan_result_spec(*tree, existing.deep_view(), keep_structure)->Ok_0;
            let p = r->Ok_0;
            &&& p.reorganize == reorg_spec(*tree, keep_structure)
            &&& steps_view(p.steps@) == g.steps
            &&& remaps_view(p.remappings@) == g.remaps
            &&& plan_remappings_wf(p)
        },
        r is Err ==> r->Err_0 == plan_result_spec(*tree, existing.deep_view(), keep_structure)
            ->Err_0,
{
    let src_name: String = "src".to_owned();
    let lib_name: String = "lib".to_owned();
    let nm_name: String = "node_modules".to_owned();
    let src_root = vec![src_name.clone()];
    let lib_root = vec![lib_name.clone()];
    let nm_root = vec![nm_name.clone()];
    proof {
        reveal_strlit("src");
        reveal_strlit("lib");
        reveal_strlit("node_modules");
        assert(src_root.deep_view() =~= seq!["src"@]);
        assert(lib_root.deep_view() =~= seq!["lib"@]);
        assert(nm_root.deep_view() =~= seq!["node_modules"@]);
        assert(seg_wf("src"@));
        assert(seg_wf("lib"@));
        assert(seg_wf("node_modules"@));
    }
    if !paths_contain(existing, &src_root) {
        return Err(CloneError::MissingSourceDir);
    }
    if !paths_contain(existing, &lib_root) {
        return Err(CloneError::MissingLibDir);
    }

    let tops = top_level_names(tree);

    // The reorganization verdict.
    let mut all_ok = true;
    let mut i: usize = 0;
    while i < tops.len()
        invariant
            i <= tops.len(),
            all_ok ==> forall|j: int|
                0 <= j < i ==> recognized(classify_spec(#[trigger] tops.deep_view()[j])),
            !all_ok ==> !all_recognized(tops.deep_view()),
        decreases tops.len() - i,
    {
        let c = classify(tops[i].as_str());
        if matches!(c, EntryClass::Other) {
            proof {
                assert(!recognized(classify_spec(tops.deep_view()[i as int])));
            }
            all_ok = false;
        }
        i = i + 1;
    }
    let reorg = !keep_structure && all_ok;
    proof {
        if all_ok {
            assert(all_recognized(tops.deep_view()));
        }
        assert(reorg == reorg_spec(*tree, keep_structure));
    }

    let ghost init = (GState {
        occupied: existing.deep_view(),
        steps: Seq::empty(),
        remaps: Seq::empty(),
    });
    let mut occupied: Vec<Vec<String>> = crate::pathseg::copy_paths(existing);
    let mut steps: Vec<PlanStep> = Vec::new();
    let mut remaps: Vec<Remapping> = Vec::new();

    proof {
        assert(steps_view(steps@) =~= Seq::<GStep>::empty());
        assert(remaps_view(remaps@) =~= Seq::<(Seq<Seq<char>>, Seq<Seq<char>>)>::empty());
        assert(run_entries(tree.files@, init, tops.deep_view().take(0), reorg) == Ok::<
            GState,
            CloneError,
        >(init));
    }

    let mut k: usize = 0;
    while k < tops.len()
        invariant
            k <= tops.len(),
            run_entries(tree.files@, init, tops.deep_view().take(k as int), reorg) == Ok::<
                GState,
                CloneError,
            >(
                (GState {
                    occupied: occupied.deep_view(),
                    steps: steps_view(steps@),
                    remaps: remaps_view(remaps@),
                }),
            ),
            forall|i: int|
                0 <= i < remaps@.len() ==> {
                    &&& path_wf((#[trigger] remaps@[i]).name.deep_view())
                    &&& path_wf(remaps@[i].path.deep_view())
                    &&& remaps@[i].context is None
                },
        decreases tops.len() - k,
    {
        let ghost st_before = (GState {
            occupied: occupied.deep_view(),
            steps: steps_view(steps@),
            remaps: remaps_view(remaps@),
        });
        let name = &tops[k];
        proof {
            assert(tops.deep_view().take(k + 1).drop_last() =~= tops.deep_view().take(k as int));
            assert(tops.deep_view().take(k + 1).last() == name@);
            crate::source_tree::lemma_dedup_same_members(firsts(tree.files@));
            assert(tops.deep_view().contains(name@));
            assert(firsts(tree.files@).contains(name@));
            let fi = choose|fi: int|
                0 <= fi < firsts(tree.files@).len() && firsts(tree.files@)[fi] == name@;
            assert(path_wf(tree.files@[fi].path.deep_view()));
            assert(seg_wf(name@));
        }

        if !reorg {
            // The whole entry moves into the canonical source directory.
            let mut dest: Vec<String> = Vec::new();
            dest.push(src_name.clone());
            dest.push(name.clone());
            proof {
                assert(dest.deep_view() =~= seq!["src"@, name@]);
            }
            if paths_contain(&occupied, &dest) {
                proof {
                    assert(entry_step(tree.files@, st_before, name@, reorg) == Err::<
                        GState,
                        CloneError,
                    >(CloneError::DestinationExists));
                    lemma_run_err_propagates(
                        tree.files@,
                        init,
                        tops.deep_view(),
                        reorg,
                        k + 1,
                    );
                }
                return Err(CloneError::DestinationExists);
            }
            let from = vec![name.clone()];
            proof {
                assert(from.deep_view() =~= seq![name@]);
            }
            steps.push(PlanStep::MoveEntry { from, to: crate::pathseg::copy_path(&dest) });
            occupied.push(crate::pathseg::copy_path(&dest));
            if !str_eq(name.as_str(), "src") {
                remaps.push(
                    Remapping { context: None, name: vec![name.clone()], path: crate::pathseg::copy_path(&dest) },
                );
                proof {
                    assert(remaps@.last().name.deep_view() =~= seq![name@]);
                    assert(remaps_view(remaps@) =~= st_before.remaps.push(
                        (seq![name@], seq!["src"@, name@]),
                    ));
                    assert(path_wf(seq![name@]));
                    assert(path_wf(seq!["src"@, name@]));
                }
            }
            proof {
                assert(steps_view(steps@) =~= st_before.steps.push(
                    GStep::MoveEntry(seq![name@], seq!["src"@, name@]),
                ));
                assert(occupied.deep_view() =~= st_before.occupied.push(seq!["src"@, name@]));
                if name@ == "src"@ {
                    assert(remaps_view(remaps@) =~= st_before.remaps);
                }
                assert(entry_step(tree.files@, st_before, name@, reorg) == Ok::<
                    GState,
                    CloneError,
                >(
                    (GState {
                        occupied: occupied.deep_view(),
                        steps: steps_view(steps@),
                        remaps: remaps_view(remaps@),
                    }),
                ));
            }
        } else {
            let class = classify(name.as_str());
            if matches!(
                class,
                EntryClass::SrcLike | EntryClass::ContractsLike | EntryClass::LibLike
                    | EntryClass::NodeModulesLike
            ) {
                // Flatten: every immediate child moves on its own.
                let children = children_of(tree, name);
                if children.len() == 0 {
                    proof {
                        assert(entry_step(tree.files@, st_before, name@, reorg) == Err::<
                            GState,
                            CloneError,
                        >(CloneError::EntryNotDirectory));
                        lemma_run_err_propagates(
                            tree.files@,
                            init,
                            tops.deep_view(),
                            reorg,
                            k + 1,
                        );
                    }
                    return Err(CloneError::EntryNotDirectory);
                }
                let dest_root: &Vec<String>;
                if matches!(class, EntryClass::LibLike) {
                    dest_root = &lib_root;
                } else if matches!(class, EntryClass::NodeModulesLike) {
                    // The fresh directory must not exist yet.
                    if paths_contain(&occupied, &nm_root) {
                        proof {
                            assert(entry_step(tree.files@, st_before, name@, reorg) == Err::<
                                GState,
                                CloneError,
                            >(CloneError::DestinationExists));
                            lemma_run_err_propagates(
                                tree.files@,
                                init,
                                tops.deep_view(),
                                reorg,
                                k + 1,
                            );
                        }
                        return Err(CloneError::DestinationExists);
                    }
                    steps.push(PlanStep::CreateDir { path: crate::pathseg::copy_path(&nm_root) });
                    occupied.push(crate::pathseg::copy_path(&nm_root));
                    proof {
                        assert(steps_view(steps@) =~= st_before.steps.push(
                            GStep::CreateDir(seq!["node_modules"@]),
                        ));
                        assert(occupied.deep_view() =~= st_before.occupied.push(
                            seq!["node_modules"@],
                        ));
                    }
                    dest_root = &nm_root;
                } else {
                    dest_root = &src_root;
                }
                let ghost st_entry = (GState {
                    occupied: occupied.deep_view(),
                    steps: steps_view(steps@),
                    remaps: remaps_view(remaps@),
                });
                proof {
                    assert(dest_root.deep_view() == flatten_dest_dir(classify_spec(name@)));
                    assert(path_wf(dest_root.deep_view()));
                    assert(entry_step(tree.files@, st_before, name@, reorg) == flatten_children(
                        st_entry,
                        name@,
                        children.deep_view(),
                        dest_root.deep_view(),
                    ));
                    assert(flatten_children(
                        st_entry,
                        name@,
                        children.deep_view().take(0),
                        dest_root.deep_view(),
                    ) == Ok::<GState, CloneError>(st_entry));
                }
                let mut j: usize = 0;
                while j < children.len()
                    invariant
                        j <= children.len(),
                        flatten_children(
                            st_entry,
                            name@,
                            children.deep_view().take(j as int),
                            dest_root.deep_view(),
                        ) == Ok::<GState, CloneError>(
                            (GState {
                                occupied: occupied.deep_view(),
                                steps: steps_view(steps@),
                                remaps: remaps_view(remaps@),
                            }),
                        ),
                        forall|i: int|
                            0 <= i < remaps@.len() ==> {
                                &&& path_wf((#[trigger] remaps@[i]).name.deep_view())
                                &&& path_wf(remaps@[i].path.deep_view())
                                &&& remaps@[i].context is None
                            },
                    decreases children.len() - j,
                {
                    let ghost st_j = (GState {
                        occupied: occupied.deep_view(),
                        steps: steps_view(steps@),
                        remaps: remaps_view(remaps@),
                    });
                    let child = &children[j];
                    proof {
                        assert(children.deep_view().take(j + 1).drop_last()
                            =~= children.deep_view().take(j as int));
                        assert(children.deep_view().take(j + 1).last() == child@);
                        crate::source_tree::lemma_dedup_same_members(
                            seconds(tree.files@, name@),
                        );
                        assert(children.deep_view().contains(child@));
                        lemma_seconds_wf(tree.files@, name@, child@);
                        assert(seg_wf(child@));
                    }
                    let mut dest: Vec<String> = Vec::new();
                    dest.push(dest_root[0].clone());
                    dest.push(child.clone());
                    proof {
                        assert(dest.deep_view() =~= dest_root.deep_view().push(child@));
                    }
                    if paths_contain(&occupied, &dest) {
                        proof {
                            assert(flatten_children(
                                st_entry,
                                name@,
                                children.deep_view().take(j + 1),
                                dest_root.deep_view(),
                            ) == Err::<GState, CloneError>(CloneError::DestinationExists));
                            lemma_flatten_err_propagates(
                                st_entry,
                                name@,
                                children.deep_view(),
                                dest_root.deep_view(),
                                j + 1,
                            );
                            lemma_run_err_propagates(
                                tree.files@,
                                init,
                                tops.deep_view(),
                                reorg,
                                k + 1,
                            );
                        }
                        return Err(CloneError::DestinationExists);
                    }
                    let from = vec![name.clone(), child.clone()];
                    proof {
                        assert(from.deep_view() =~= seq![name@, child@]);
                    }
                    steps.push(PlanStep::MoveEntry { from: crate::pathseg::copy_path(&from), to: crate::pathseg::copy_path(&dest) });
                    occupied.push(crate::pathseg::copy_path(&dest));
                    remaps.push(Remapping { context: None, name: from, path: dest });
                    proof {
                        assert(remaps@.last().name.deep_view() =~= seq![name@, child@]);
                        assert(steps_view(steps@) =~= st_j.steps.push(
                            GStep::MoveEntry(seq![name@, child@], dest_root.deep_view().push(
                                child@,
                            )),
                        ));
                        assert(occupied.deep_view() =~= st_j.occupied.push(
                            dest_root.deep_view().push(child@),
                        ));
                        assert(remaps_view(remaps@) =~= st_j.remaps.push(
                            (seq![name@, child@], dest_root.deep_view().push(child@)),
                        ));
                        assert(path_wf(seq![name@, child@]));
                        assert(path_wf(dest_root.deep_view().push(child@)));
                    }
                    j = j + 1;
                }
                proof {
                    assert(children.deep_view().take(children.len() as int)
                        =~= children.deep_view());
                }
            } else {
                // A whole unit moves into the canonical library directory;
                // a well-known scaffolding directory replaces what is there.
                let mut dest: Vec<String> = Vec::new();
                dest.push(lib_name.clone());
                dest.push(name.clone());
                proof {
                    assert(dest.deep_view() =~= seq!["lib"@, name@]);
                }
                let present = paths_contain(&occupied, &dest);
                let well_known = matches!(class, EntryClass::WellKnown);
                if well_known && present {
                    steps.push(PlanStep::Delete { path: dest.clone() });
                    let from = vec![name.clone()];
                    proof {
                        assert(from.deep_view() =~= seq![name@]);
                    }
                    steps.push(PlanStep::MoveEntry { from, to: crate::pathseg::copy_path(&dest) });
                    remaps.push(
                        Remapping { context: None, name: vec![name.clone()], path: crate::pathseg::copy_path(&dest) },
                    );
                    proof {
                        assert(remaps@.last().name.deep_view() =~= seq![name@]);
                        assert(steps_view(steps@) =~= st_before.steps.push(
                            GStep::Delete(seq!["lib"@, name@]),
                        ).push(GStep::MoveEntry(seq![name@], seq!["lib"@, name@])));
                        assert(remaps_view(remaps@) =~= st_before.remaps.push(
                            (seq![name@], seq!["lib"@, name@]),
                        ));
                        assert(path_wf(seq![name@]));
                        assert(path_wf(seq!["lib"@, name@]));
                        assert(entry_step(tree.files@, st_before, name@, reorg) == Ok::<
                            GState,
                            CloneError,
                        >(
                            (GState {
                                occupied: occupied.deep_view(),
                                steps: steps_view(steps@),
                                remaps: remaps_view(remaps@),
                            }),
                        ));
                    }
                } else if present {
                    proof {
                        assert(entry_step(tree.files@, st_before, name@, reorg) == Err::<
                            GState,
                            CloneError,
                        >(CloneError::DestinationExists));
                        lemma_run_err_propagates(
                            tree.files@,
                            init,
                            tops.deep_view(),
                            reorg,
                            k + 1,
                        );
                    }
                    return Err(CloneError::DestinationExists);
                } else {
                    let from = vec![name.clone()];
                    proof {
                        assert(from.deep_view() =~= seq![name@]);
                    }
                    steps.push(PlanStep::MoveEntry { from, to: crate::pathseg::copy_path(&dest) });
                    occupied.push(crate::pathseg::copy_path(&dest));
                    remaps.push(
                        Remapping { context: None, name: vec![name.clone()], path: crate::pathseg::copy_path(&dest) },
                    );
                    proof {
                        assert(remaps@.last().name.deep_view() =~= seq![name@]);
                        assert(steps_view(steps@) =~= st_before.steps.push(
                            GStep::MoveEntry(seq![name@], seq!["lib"@, name@]),
                        ));
                        assert(occupied.deep_view() =~= st_before.occupied.push(
                            seq!["lib"@, name@],
                        ));
                        assert(remaps_view(remaps@) =~= st_before.remaps.push(
                            (seq![name@], seq!["lib"@, name@]),
                        ));
                        assert(path_wf(seq![name@]));
                        assert(path_wf(seq!["lib"@, name@]));
                        assert(entry_step(tree.files@, st_before, name@, reorg) == Ok::<
                            GState,
                            CloneError,
                        >(
                            (GState {
                                occupied: occupied.deep_view(),
                                steps: steps_view(steps@),
                                remaps: remaps_view(remaps@),
                            }),
                        ));
                    }
                }
            }
        }
        k = k + 1;
    }
    proof {
        assert(tops.deep_view().take(tops.len() as int) =~= tops.deep_view());
    }
    Ok(MaterializePlan { reorganize: reorg, steps, remappings: remaps })
}

} // verus!

//! What a successful materialization plan guarantees: no move silently
//! overwrites an existing path, and every fetched file stays reachable
//! through the emitted remappings.

use vstd::prelude::*;
use crate::pathseg::is_seg_prefix;
use crate::source_tree::{
    SourceTree,
    SourceFile,
    tree_wf,
    classify_spec,
    flattened,
    firsts,
    seconds,
    dedup_keep_first,
    lemma_dedup_same_members,
};
use crate::materialize::{
    GStep,
    GState,
    flatten_dest_dir,
    flatten_children,
    entry_step,
    run_entries,
    plan_result_spec,
    reorg_spec,
};

verus! {

/// `s.push(y)` holds exactly the members of `s`, plus `y`.
pub proof fn lemma_push_contains<T>(s: Seq<T>, y: T, x: T)
    ensures
        s.push(y).contains(x) <==> (s.contains(x) || x == y),
{
    if s.contains(x) {
        let i = choose|i: int| 0 <= i < s.len() && s[i] == x;
        assert(s.push(y)[i] == x);
    }
    if x == y {
        assert(s.push(y)[s.len() as int] == x);
    }
    if s.push(y).contains(x) {
        let i = choose|i: int| 0 <= i < s.push(y).len() && s.push(y)[i] == x;
        if i < s.len() {
            assert(s[i] == x);
        }
    }
}

/// Removes every occurrence of a path from a listing.
pub open spec fn remove_all(occ: Seq<Seq<Seq<char>>>, p: Seq<Seq<char>>) -> Seq<Seq<Seq<char>>>
    decreases occ.len(),
{
    if occ.len() == 0 {
        Seq::empty()
    } else {
        let rest = remove_all(occ.drop_last(), p);
        if occ.last() == p {
            rest
        } else {
            rest.push(occ.last())
        }
    }
}

/// Membership after removal: everything but `p` survives.
pub proof fn lemma_remove_all_contains(occ: Seq<Seq<Seq<char>>>, p: Seq<Seq<char>>, x: Seq<
    Seq<char>,
>)
    ensures
        remove_all(occ, p).contains(x) <==> (occ.contains(x) && x != p),
    decreases occ.len(),
{
    if occ.len() > 0 {
        lemma_remove_all_contains(occ.drop_last(), p, x);
        let rest = remove_all(occ.drop_last(), p);
        if occ.last() != p {
            lemma_push_contains(rest, occ.last(), x);
        }
        if occ.contains(x) && x != p {
            let i = choose|i: int| 0 <= i < occ.len() && occ[i] == x;
            if i < occ.len() - 1 {
                assert(occ.drop_last()[i] == x);
            }
        }
        if occ.drop_last().contains(x) {
            let i = choose|i: int| 0 <= i < occ.drop_last().len() && occ.drop_last()[i] == x;
            assert(occ[i] == x);
        }
    }
}

/// What exists under the project root after one plan step.
pub open spec fn apply_gstep(occ: Seq<Seq<Seq<char>>>, s: GStep) -> Seq<Seq<Seq<char>>> {
    match s {
        GStep::Delete(p) => remove_all(occ, p),
        GStep::CreateDir(p) => occ.push(p),
        GStep::MoveEntry(_from, to) => occ.push(to),
    }
}

/// What exists under the project root after a sequence of steps.
pub open spec fn occupied_after(existing: Seq<Seq<Seq<char>>>, steps: Seq<GStep>) -> Seq<
    Seq<Seq<char>>,
>
    decreases steps.len(),
{
    if steps.len() == 0 {
        existing
    } else {
        apply_gstep(occupied_after(existing, steps.drop_last()), steps.last())
    }
}

/// No move lands on a path that exists when it runs.
pub open spec fn no_overwrite(existing: Seq<Seq<Seq<char>>>, steps: Seq<GStep>) -> bool {
    forall|j: int|
        0 <= j < steps.len() ==> (#[trigger] steps[j] matches GStep::MoveEntry(_from, to)
            ==> !occupied_after(existing, steps.take(j)).contains(to))
}

/// The planner's running invariant: its occupied listing tracks what the
/// emitted steps produce, and the steps so far overwrite nothing.
pub open spec fn st_sound(existing: Seq<Seq<Seq<char>>>, st: GState) -> bool {
    &&& forall|p: Seq<Seq<char>>|
        #[trigger] st.occupied.contains(p) <==> occupied_after(existing, st.steps).contains(p)
    &&& no_overwrite(existing, st.steps)
}

/// Appending steps keeps the earlier prefixes of `take` unchanged.
proof fn lemma_take_of_push(steps: Seq<GStep>, x: GStep, j: int)
    requires
        0 <= j <= steps.len(),
    ensures
        steps.push(x).take(j) == steps.take(j),
{
    assert(steps.push(x).take(j) =~= steps.take(j));
}

/// Pushing one guarded move preserves the running invariant.
proof fn lemma_push_move_sound(
    existing: Seq<Seq<Seq<char>>>,
    st: GState,
    from: Seq<Seq<char>>,
    to: Seq<Seq<char>>,
)
    requires
        st_sound(existing, st),
        !st.occupied.contains(to),
    ensures
        st_sound(
            existing,
            (GState {
                occupied: st.occupied.push(to),
                steps: st.steps.push(GStep::MoveEntry(from, to)),
                remaps: st.remaps,
            }),
        ),
        st_sound(
            existing,
            (GState {
                occupied: st.occupied.push(to),
                steps: st.steps.push(GStep::MoveEntry(from, to)),
                remaps: st.remaps.push((from, to)),
            }),
        ),
{
    let steps2 = st.steps.push(GStep::MoveEntry(from, to));
    assert(steps2.drop_last() =~= st.steps);
    assert forall|p: Seq<Seq<char>>| #[trigger]
        st.occupied.push(to).contains(p) <==> occupied_after(existing, steps2).contains(p) by {
        lemma_push_contains(st.occupied, to, p);
        lemma_push_contains(occupied_after(existing, st.steps), to, p);
    }
    assert forall|j: int|
        0 <= j < steps2.len() implies (#[trigger] steps2[j] matches GStep::MoveEntry(_f, t)
        ==> !occupied_after(existing, steps2.take(j)).contains(t)) by {
        lemma_take_of_push(st.steps, GStep::MoveEntry(from, to), j);
        if j == st.steps.len() {
            assert(steps2.take(j) =~= st.steps);
        }
    }
}

/// Pushing the fresh-directory step preserves the running invariant.
proof fn lemma_push_dir_sound(existing: Seq<Seq<Seq<char>>>, st: GState, p: Seq<Seq<char>>)
    requires
        st_sound(existing, st),
    ensures
        st_sound(
            existing,
            (GState {
                occupied: st.occupied.push(p),
                steps: st.steps.push(GStep::CreateDir(p)),
                remaps: st.remaps,
            }),
        ),
{
    let steps2 = st.steps.push(GStep::CreateDir(p));
    assert(steps2.drop_last() =~= st.steps);
    assert forall|q: Seq<Seq<char>>| #[trigger]
        st.occupied.push(p).contains(q) <==> occupied_after(existing, steps2).contains(q) by {
        lemma_push_contains(st.occupied, p, q);
        lemma_push_contains(occupied_after(existing, st.steps), p, q);
    }
    assert forall|j: int|
        0 <= j < steps2.len() implies (#[trigger] steps2[j] matches GStep::MoveEntry(_f, t)
        ==> !occupied_after(existing, steps2.take(j)).contains(t)) by {
        lemma_take_of_push(st.steps, GStep::CreateDir(p), j);
    }
}

/// Replacing a well-known destination -- delete, then move -- preserves
/// the running invariant: the move's target was just deleted.
proof fn lemma_push_replace_sound(
    existing: Seq<Seq<Seq<char>>>,
    st: GState,
    from: Seq<Seq<char>>,
    to: Seq<Seq<char>>,
)
    requires
        st_sound(existing, st),
        st.occupied.contains(to),
    ensures
        st_sound(
            existing,
            (GState {
                occupied: st.occupied,
                steps: st.steps.push(GStep::Delete(to)).push(GStep::MoveEntry(from, to)),
                remaps: st.remaps.push((from, to)),
            }),
        ),
{
    let steps1 = st.steps.push(GStep::Delete(to));
    let steps2 = steps1.push(GStep::MoveEntry(from, to));
    assert(steps1.drop_last() =~= st.steps);
    assert(steps2.drop_last() =~= steps1);
    let occ0 = occupied_after(existing, st.steps);
    let occ1 = occupied_after(existing, steps1);
    assert(occ1 == remove_all(occ0, to));
    assert forall|q: Seq<Seq<char>>| #[trigger]
        st.occupied.contains(q) <==> occupied_after(existing, steps2).contains(q) by {
        lemma_remove_all_contains(occ0, to, q);
        lemma_push_contains(occ1, to, q);
    }
    assert forall|j: int|
        0 <= j < steps2.len() implies (#[trigger] steps2[j] matches GStep::MoveEntry(_f, t)
        ==> !occupied_after(existing, steps2.take(j)).contains(t)) by {
        if j < st.steps.len() {
            lemma_take_of_push(st.steps, GStep::Delete(to), j);
            lemma_take_of_push(steps1, GStep::MoveEntry(from, to), j);
            assert(steps2[j] == st.steps[j]);
        } else if j == st.steps.len() {
            assert(steps2[j] == GStep::Delete(to));
        } else {
            assert(steps2.take(j) =~= steps1);
            assert(steps2[j] == GStep::MoveEntry(from, to));
            lemma_remove_all_contains(occ0, to, to);
        }
    }
}

/// Flattening preserves the running invariant.
proof fn lemma_flatten_sound(
    existing: Seq<Seq<Seq<char>>>,
    st: GState,
    name: Seq<char>,
    children: Seq<Seq<char>>,
    dest_dir: Seq<Seq<char>>,
)
    requires
        st_sound(existing, st),
        flatten_children(st, name, children, dest_dir) is Ok,
    ensures
        st_sound(existing, flatten_children(st, name, children, dest_dir)->Ok_0),
    decreases children.len(),
{
    if children.len() > 0 {
        lemma_flatten_sound(existing, st, name, children.drop_last(), dest_dir);
        let st1 = flatten_children(st, name, children.drop_last(), dest_dir)->Ok_0;
        let c = children.last();
        lemma_push_move_sound(existing, st1, seq![name, c], dest_dir.push(c));
    }
}

/// Handling one entry preserves the running invariant.
proof fn lemma_entry_sound(
    files: Seq<SourceFile>,
    existing: Seq<Seq<Seq<char>>>,
    st: GState,
    name: Seq<char>,
    reorg: bool,
)
    requires
        st_sound(existing, st),
        entry_step(files, st, name, reorg) is Ok,
    ensures
        st_sound(existing, entry_step(files, st, name, reorg)->Ok_0),
{
    if !reorg {
        lemma_push_move_sound(existing, st, seq![name], seq!["src"@, name]);
    } else {
        let c = classify_spec(name);
        if flattened(c) {
            let children = dedup_keep_first(seconds(files, name));
            if c == crate::source_tree::EntryClass::NodeModulesLike {
                let st0 = (GState {
                    occupied: st.occupied.push(seq!["node_modules"@]),
                    steps: st.steps.push(GStep::CreateDir(seq!["node_modules"@])),
                    remaps: st.remaps,
                });
                lemma_push_dir_sound(existing, st, seq!["node_modules"@]);
                lemma_flatten_sound(existing, st0, name, children, seq!["node_modules"@]);
            } else {
                lemma_flatten_sound(existing, st, name, children, flatten_dest_dir(c));
            }
        } else {
            let dest = seq!["lib"@, name];
            if c == crate::source_tree::EntryClass::WellKnown && st.occupied.contains(dest) {
                lemma_push_replace_sound(existing, st, seq![name], dest);
            } else {
                lemma_push_move_sound(existing, st, seq![name], dest);
            }
        }
    }
}

/// The whole entry fold preserves the running invariant.
proof fn lemma_run_sound(
    files: Seq<SourceFile>,
    existing: Seq<Seq<Seq<char>>>,
    st: GState,
    tops: Seq<Seq<char>>,
    reorg: bool,
)
    requires
        st_sound(existing, st),
        run_entries(files, st, tops, reorg) is Ok,
    ensures
        st_sound(existing, run_entries(files, st, tops, reorg)->Ok_0),
    decreases tops.len(),
{
    if tops.len() > 0 {
        lemma_run_sound(files, existing, st, tops.drop_last(), reorg);
        let st1 = run_entries(files, st, tops.drop_last(), reorg)->Ok_0;
        lemma_entry_sound(files, existing, st1, tops.last(), reorg);
    }
}

/// No silent overwrite: in a successful plan, every move's destination
/// does not exist at the moment the move runs -- whatever stood there
/// before was removed by an explicit, recorded delete step.
pub proof fn lemma_no_silent_overwrite(
    t: SourceTree,
    existing: Seq<Seq<Seq<char>>>,
    keep_structure: bool,
)
    requires
        plan_result_spec(t, existing, keep_structure) is Ok,
    ensures
        no_overwrite(existing, plan_result_spec(t, existing, keep_structure)->Ok_0.steps),
{
    let init = (GState { occupied: existing, steps: Seq::empty(), remaps: Seq::empty() });
    assert(st_sound(existing, init)) by {
        assert(occupied_after(existing, init.steps) == existing);
    }
    lemma_run_sound(
        t.files@,
        existing,
        init,
        dedup_keep_first(firsts(t.files@)),
        reorg_spec(t, keep_structure),
    );
}

/// One emitted remapping survives every later push.
proof fn lemma_flatten_remaps_mono(
    st: GState,
    name: Seq<char>,
    children: Seq<Seq<char>>,
    dest_dir: Seq<Seq<char>>,
    x: (Seq<Seq<char>>, Seq<Seq<char>>),
)
    requires
        flatten_children(st, name, children, dest_dir) is Ok,
        st.remaps.contains(x),
    ensures
        flatten_children(st, name, children, dest_dir)->Ok_0.remaps.contains(x),
    decreases children.len(),
{
    if children.len() > 0 {
        lemma_flatten_remaps_mono(st, name, children.drop_last(), dest_dir, x);
        let st1 = flatten_children(st, name, children.drop_last(), dest_dir)->Ok_0;
        let c = children.last();
        lemma_push_contains(st1.remaps, (seq![name, c], dest_dir.push(c)), x);
    }
}

/// Handling one entry keeps every remapping already emitted.
proof fn lemma_entry_remaps_mono(
    files: Seq<SourceFile>,
    st: GState,
    name: Seq<char>,
    reorg: bool,
    x: (Seq<Seq<char>>, Seq<Seq<char>>),
)
    requires
        entry_step(files, st, name, reorg) is Ok,
        st.remaps.contains(x),
    ensures
        entry_step(files, st, name, reorg)->Ok_0.remaps.contains(x),
{
    if !reorg {
        if name != "src"@ {
            lemma_push_contains(st.remaps, (seq![name], seq!["src"@, name]), x);
        }
    } else {
        let c = classify_spec(name);
        if flattened(c) {
            let children = dedup_keep_first(seconds(files, name));
            if c == crate::source_tree::EntryClass::NodeModulesLike {
                let st0 = (GState {
                    occupied: st.occupied.push(seq!["node_modules"@]),
                    steps: st.steps.push(GStep::CreateDir(seq!["node_modules"@])),
                    remaps: st.remaps,
                });
                lemma_flatten_remaps_mono(st0, name, children, seq!["node_modules"@], x);
            } else {
                lemma_flatten_remaps_mono(st, name, children, flatten_dest_dir(c), x);
            }
        } else {
            lemma_push_contains(st.remaps, (seq![name], seq!["lib"@, name]), x);
        }
    }
}

/// The whole fold keeps every remapping already emitted.
proof fn lemma_run_remaps_mono(
    files: Seq<SourceFile>,
    st: GState,
    tops: Seq<Seq<char>>,
    reorg: bool,
    x: (Seq<Seq<char>>, Seq<Seq<char>>),
)
    requires
        run_entries(files, st, tops, reorg) is Ok,
        st.remaps.contains(x),
    ensures
        run_entries(files, st, tops, reorg)->Ok_0.remaps.contains(x),
    decreases tops.len(),
{
    if tops.len() > 0 {
        lemma_run_remaps_mono(files, st, tops.drop_last(), reorg, x);
        let st1 = run_entries(files, st, tops.drop_last(), reorg)->Ok_0;
        lemma_entry_remaps_mono(files, st1, tops.last(), reorg, x);
    }
}

/// Flattening an entry emits a remapping for each of its children.
proof fn lemma_flatten_remap_has_child(
    st: GState,
    name: Seq<char>,
    children: Seq<Seq<char>>,
    dest_dir: Seq<Seq<char>>,
    c: Seq<char>,
)
    requires
        flatten_children(st, name, children, dest_dir) is Ok,
        children.contains(c),
    ensures
        flatten_children(st, name, children, dest_dir)->Ok_0.remaps.contains(
            (seq![name, c], dest_dir.push(c)),
        ),
    decreases children.len(),
{
    let st1 = flatten_children(st, name, children.drop_last(), dest_dir)->Ok_0;
    let last = children.last();
    if c == last {
        lemma_push_contains(st1.remaps, (seq![name, last], dest_dir.push(last)), (
            seq![name, c],
            dest_dir.push(c),
        ));
    } else {
        let i = choose|i: int| 0 <= i < children.len() && children[i] == c;
        assert(children.drop_last()[i] == c);
        lemma_flatten_remap_has_child(st, name, children.drop_last(), dest_dir, c);
        lemma_push_contains(st1.remaps, (seq![name, last], dest_dir.push(last)), (
            seq![name, c],
            dest_dir.push(c),
        ));
    }
}

/// A file lying under an entry has its second segment among the entry's
/// listed children.
proof fn lemma_seconds_has(files: Seq<SourceFile>, fi: int)
    requires
        0 <= fi < files.len(),
        files[fi].path.deep_view().len() >= 2,
    ensures
        seconds(files, files[fi].path.deep_view()[0]).contains(files[fi].path.deep_view()[1]),
    decreases files.len(),
{
    let top = files[fi].path.deep_view()[0];
    let c = files[fi].path.deep_view()[1];
    let pre = seconds(files.drop_last(), top);
    if fi == files.len() - 1 {
        assert(seconds(files, top)[pre.len() as int] == c);
    } else {
        assert(files.drop_last()[fi] == files[fi]);
        lemma_seconds_has(files.drop_last(), fi);
        let i = choose|i: int| 0 <= i < pre.len() && pre[i] == c;
        assert(seconds(files, top)[i] == c);
    }
}

/// Where a fetched file lands when the bundle is reorganized: flattened
/// entries lose their top-level name, every other entry is re-rooted
/// under the canonical library directory.
pub open spec fn reorg_target(p: Seq<Seq<char>>) -> Seq<Seq<char>> {
    let c = classify_spec(p[0]);
    if flattened(c) {
        flatten_dest_dir(c) + p.drop_first()
    } else {
        seq!["lib"@] + p
    }
}

/// Handling the entry a file lies under emits a remapping whose alias
/// prefixes the file's fetched path and whose substitution yields the
/// file's new location.
proof fn lemma_entry_remap_file(
    files: Seq<SourceFile>,
    st: GState,
    fi: int,
    reorg: bool,
)
    requires
        entry_step(files, st, files[fi].path.deep_view()[0], reorg) is Ok,
        reorg,
        0 <= fi < files.len(),
        forall|i: int| 0 <= i < files.len() ==> crate::pathseg::path_wf(
            #[trigger] files[i].path.deep_view(),
        ),
        forall|i: int, j: int|
            0 <= i < files.len() && 0 <= j < files.len() && i != j ==> !is_seg_prefix(
                files[i].path.deep_view(),
                files[j].path.deep_view(),
            ),
    ensures
        ({
            let p = files[fi].path.deep_view();
            let st2 = entry_step(files, st, p[0], reorg)->Ok_0;
            exists|ri: int|
                {
                    &&& 0 <= ri < st2.remaps.len()
                    &&& is_seg_prefix((#[trigger] st2.remaps[ri]).0, p)
                    &&& st2.remaps[ri].1 + p.skip(st2.remaps[ri].0.len() as int)
                        == reorg_target(p)
                }
        }),
{
    let p = files[fi].path.deep_view();
    let name = p[0];
    let cls = classify_spec(name);
    let st2 = entry_step(files, st, name, reorg)->Ok_0;
    if flattened(cls) {
        let children = dedup_keep_first(seconds(files, name));
        // The entry has children, so the file itself cannot be the bare
        // top-level path: that path would prefix another file's path.
        if p.len() < 2 {
            assert(children.len() > 0);
            lemma_dedup_same_members(seconds(files, name));
            assert(seconds(files, name).contains(children[0]));
            lemma_seconds_nonempty_witness(files, name, children[0]);
            let fj = choose|fj: int|
                0 <= fj < files.len() && files[fj].path.deep_view().len() >= 2 && files[
                    fj
                ].path.deep_view()[0] == name;
            assert(is_seg_prefix(p, files[fj].path.deep_view())) by {
                assert(p =~= files[fj].path.deep_view().subrange(0, 1));
            }
            assert(fi != fj);
            assert(false);
        }
        lemma_seconds_has(files, fi);
        lemma_dedup_same_members(seconds(files, name));
        let c = p[1];
        let dd = flatten_dest_dir(cls);
        if cls == crate::source_tree::EntryClass::NodeModulesLike {
            let st0 = (GState {
                occupied: st.occupied.push(seq!["node_modules"@]),
                steps: st.steps.push(GStep::CreateDir(seq!["node_modules"@])),
                remaps: st.remaps,
            });
            lemma_flatten_remap_has_child(st0, name, children, dd, c);
        } else {
            lemma_flatten_remap_has_child(st, name, children, dd, c);
        }
        assert(st2.remaps.contains((seq![name, c], dd.push(c))));
        let ri = choose|ri: int|
            0 <= ri < st2.remaps.len() && st2.remaps[ri] == (seq![name, c], dd.push(c));
        assert(is_seg_prefix(seq![name, c], p)) by {
            assert(seq![name, c] =~= p.subrange(0, 2));
        }
        assert(dd.push(c) + p.skip(2) =~= dd + p.drop_first());
    } else {
        let dest = seq!["lib"@, name];
        if cls == crate::source_tree::EntryClass::WellKnown && st.occupied.contains(dest) {
            lemma_push_contains(st.remaps, (seq![name], dest), (seq![name], dest));
        } else {
            lemma_push_contains(st.remaps, (seq![name], dest), (seq![name], dest));
        }
        assert(st2.remaps.contains((seq![name], dest)));
        let ri = choose|ri: int|
            0 <= ri < st2.remaps.len() && st2.remaps[ri] == (seq![name], dest);
        assert(is_seg_prefix(seq![name], p)) by {
            assert(seq![name] =~= p.subrange(0, 1));
        }
        assert(dest + p.skip(1) =~= seq!["lib"@] + p);
    }
}

/// A name listed among an entry's children comes from some file that
/// lies under the entry with at least two segments.
proof fn lemma_seconds_nonempty_witness(files: Seq<SourceFile>, top: Seq<char>, c: Seq<char>)
    requires
        seconds(files, top).contains(c),
    ensures
        exists|fj: int|
            0 <= fj < files.len() && (#[trigger] files[fj].path.deep_view()).len() >= 2 && files[
                fj
            ].path.deep_view()[0] == top,
    decreases files.len(),
{
    if files.len() > 0 {
        let pre = seconds(files.drop_last(), top);
        let i = choose|i: int| 0 <= i < seconds(files, top).len() && seconds(files, top)[i] == c;
        if i < pre.len() {
            assert(pre[i] == c);
            lemma_seconds_nonempty_witness(files.drop_last(), top, c);
            let fj = choose|fj: int|
                0 <= fj < files.drop_last().len() && (#[trigger] files.drop_last()[
                    fj
                ].path.deep_view()).len() >= 2 && files.drop_last()[fj].path.deep_view()[0]
                    == top;
            assert(files[fj] == files.drop_last()[fj]);
            assert(files[fj].path.deep_view().len() >= 2);
        } else {
            assert(files[files.len() - 1].path.deep_view().len() >= 2);
        }
    }
}

/// The fold emits, for every file, a remapping that reaches the file's
/// new location.
proof fn lemma_run_remap_file(
    files: Seq<SourceFile>,
    st: GState,
    tops: Seq<Seq<char>>,
    reorg: bool,
    fi: int,
)
    requires
        run_entries(files, st, tops, reorg) is Ok,
        reorg,
        0 <= fi < files.len(),
        tops.contains(files[fi].path.deep_view()[0]),
        forall|i: int| 0 <= i < files.len() ==> crate::pathseg::path_wf(
            #[trigger] files[i].path.deep_view(),
        ),
        forall|i: int, j: int|
            0 <= i < files.len() && 0 <= j < files.len() && i != j ==> !is_seg_prefix(
                files[i].path.deep_view(),
                files[j].path.deep_view(),
            ),
    ensures
        ({
            let p = files[fi].path.deep_view();
            let g = run_entries(files, st, tops, reorg)->Ok_0;
            exists|ri: int|
                {
                    &&& 0 <= ri < g.remaps.len()
                    &&& is_seg_prefix((#[trigger] g.remaps[ri]).0, p)
                    &&& g.remaps[ri].1 + p.skip(g.remaps[ri].0.len() as int) == reorg_target(p)
                }
        }),
    decreases tops.len(),
{
    let p = files[fi].path.deep_view();
    let name = p[0];
    let st1 = run_entries(files, st, tops.drop_last(), reorg)->Ok_0;
    if name == tops.last() {
        lemma_entry_remap_file(files, st1, fi, reorg);
    } else {
        let k = choose|k: int| 0 <= k < tops.len() && tops[k] == name;
        assert(tops.drop_last()[k] == name);
        lemma_run_remap_file(files, st, tops.drop_last(), reorg, fi);
        let ri = choose|ri: int|
            {
                &&& 0 <= ri < st1.remaps.len()
                &&& is_seg_prefix((#[trigger] st1.remaps[ri]).0, p)
                &&& st1.remaps[ri].1 + p.skip(st1.remaps[ri].0.len() as int) == reorg_target(p)
            };
        assert(st1.remaps.contains(st1.remaps[ri]));
        lemma_entry_remaps_mono(files, st1, tops.last(), reorg, st1.remaps[ri]);
        let g = run_entries(files, st, tops, reorg)->Ok_0;
        let rj = choose|rj: int| 0 <= rj < g.remaps.len() && g.remaps[rj] == st1.remaps[ri];
        assert(is_seg_prefix((g.remaps[rj]).0, p));
    }
}

/// Remapping round-trip: when a fetched bundle is reorganized and the
/// plan succeeds, every fetched file stays reachable -- some emitted
/// remapping's alias is a prefix of the file's fetched import path, and
/// substituting the alias with its bound path yields exactly the file's
/// new location in the rebuilt tree.
pub proof fn lemma_remapping_round_trip(
    t: SourceTree,
    existing: Seq<Seq<Seq<char>>>,
    keep_structure: bool,
)
    requires
        tree_wf(t),
        reorg_spec(t, keep_structure),
        plan_result_spec(t, existing, keep_structure) is Ok,
    ensures
        forall|fi: int|
            0 <= fi < t.files@.len() ==> ({
                let p = (#[trigger] t.files@[fi]).path.deep_view();
                let g = plan_result_spec(t, existing, keep_structure)->Ok_0;
                exists|ri: int|
                    {
                        &&& 0 <= ri < g.remaps.len()
                        &&& is_seg_prefix((#[trigger] g.remaps[ri]).0, p)
                        &&& g.remaps[ri].1 + p.skip(g.remaps[ri].0.len() as int)
                            == reorg_target(p)
                    }
            }),
{
    let init = (GState { occupied: existing, steps: Seq::empty(), remaps: Seq::empty() });
    let tops = dedup_keep_first(firsts(t.files@));
    assert forall|fi: int| 0 <= fi < t.files@.len() implies ({
        let p = (#[trigger] t.files@[fi]).path.deep_view();
        let g = plan_result_spec(t, existing, keep_structure)->Ok_0;
        exists|ri: int|
            {
                &&& 0 <= ri < g.remaps.len()
                &&& is_seg_prefix((#[trigger] g.remaps[ri]).0, p)
                &&& g.remaps[ri].1 + p.skip(g.remaps[ri].0.len() as int) == reorg_target(p)
            }
    }) by {
        lemma_dedup_same_members(firsts(t.files@));
        assert(firsts(t.files@)[fi] == t.files@[fi].path.deep_view()[0]);
        assert(firsts(t.files@).contains(t.files@[fi].path.deep_view()[0]));
        lemma_run_remap_file(
            t.files@,
            init,
            tops,
            reorg_spec(t, keep_structure),
            fi,
        );
    }
}


/// Some step of the plan is a move producing exactly what remapping
/// `ri` points at.
pub open spec fn move_for(st: GState, ri: int) -> bool {
    exists|j: int|
        0 <= j < st.steps.len() && #[trigger] st.steps[j] == GStep::MoveEntry(
            (st.remaps[ri]).0,
            st.remaps[ri].1,
        )
}

/// Every emitted remapping is backed by an emitted move: the alias is
/// bound to exactly the destination some move of the same plan created.
pub open spec fn remaps_have_moves(st: GState) -> bool {
    forall|ri: int| 0 <= ri < st.remaps.len() ==> #[trigger] move_for(st, ri)
}

/// Extending the steps without touching the remappings keeps the
/// correspondence.
proof fn lemma_have_moves_frame(st1: GState, st2: GState)
    requires
        remaps_have_moves(st1),
        st2.remaps == st1.remaps,
        st1.steps.len() <= st2.steps.len(),
        forall|j: int| 0 <= j < st1.steps.len() ==> st2.steps[j] == st1.steps[j],
    ensures
        remaps_have_moves(st2),
{
    assert forall|ri: int| 0 <= ri < st2.remaps.len() implies #[trigger] move_for(st2, ri) by {
        assert(move_for(st1, ri));
        let j = choose|j: int|
            0 <= j < st1.steps.len() && #[trigger] st1.steps[j] == GStep::MoveEntry(
                (st1.remaps[ri]).0,
                st1.remaps[ri].1,
            );
        assert(st2.steps[j] == GStep::MoveEntry((st2.remaps[ri]).0, st2.remaps[ri].1));
    }
}

/// Pushing a move together with its remapping keeps the correspondence.
proof fn lemma_have_moves_push(st1: GState, st2: GState, from: Seq<Seq<char>>, to: Seq<Seq<char>>)
    requires
        remaps_have_moves(st1),
        st2.remaps == st1.remaps.push((from, to)),
        exists|k: int|
            0 <= k < st2.steps.len() && st2.steps[k] == GStep::MoveEntry(from, to),
        st1.steps.len() <= st2.steps.len(),
        forall|j: int| 0 <= j < st1.steps.len() ==> st2.steps[j] == st1.steps[j],
    ensures
        remaps_have_moves(st2),
{
    assert forall|ri: int| 0 <= ri < st2.remaps.len() implies #[trigger] move_for(st2, ri) by {
        if ri < st1.remaps.len() {
            assert(move_for(st1, ri));
            let j = choose|j: int|
                0 <= j < st1.steps.len() && #[trigger] st1.steps[j] == GStep::MoveEntry(
                    (st1.remaps[ri]).0,
                    st1.remaps[ri].1,
                );
            assert(st2.steps[j] == GStep::MoveEntry((st2.remaps[ri]).0, st2.remaps[ri].1));
        } else {
            let k = choose|k: int|
                0 <= k < st2.steps.len() && #[trigger] st2.steps[k] == GStep::MoveEntry(
                    from,
                    to,
                );
            assert(st2.remaps[ri] == ((from, to)));
            assert(st2.steps[k] == GStep::MoveEntry((st2.remaps[ri]).0, st2.remaps[ri].1));
        }
    }
}

/// Flattening keeps the remapping-move correspondence.
proof fn lemma_flatten_have_moves(
    st: GState,
    name: Seq<char>,
    children: Seq<Seq<char>>,
    dest_dir: Seq<Seq<char>>,
)
    requires
        flatten_children(st, name, children, dest_dir) is Ok,
        remaps_have_moves(st),
    ensures
        remaps_have_moves(flatten_children(st, name, children, dest_dir)->Ok_0),
    decreases children.len(),
{
    if children.len() > 0 {
        lemma_flatten_have_moves(st, name, children.drop_last(), dest_dir);
        let st1 = flatten_children(st, name, children.drop_last(), dest_dir)->Ok_0;
        let c = children.last();
        let dest = dest_dir.push(c);
        let st2 = flatten_children(st, name, children, dest_dir)->Ok_0;
        assert(st2.steps[st1.steps.len() as int] == GStep::MoveEntry(seq![name, c], dest));
        lemma_have_moves_push(st1, st2, seq![name, c], dest);
    }
}

/// Handling one entry keeps the remapping-move correspondence.
proof fn lemma_entry_have_moves(
    files: Seq<SourceFile>,
    st: GState,
    name: Seq<char>,
    reorg: bool,
)
    requires
        entry_step(files, st, name, reorg) is Ok,
        remaps_have_moves(st),
    ensures
        remaps_have_moves(entry_step(files, st, name, reorg)->Ok_0),
{
    let st2 = entry_step(files, st, name, reorg)->Ok_0;
    if !reorg {
        let dest = seq!["src"@, name];
        assert(st2.steps[st.steps.len() as int] == GStep::MoveEntry(seq![name], dest));
        if name == "src"@ {
            lemma_have_moves_frame(st, st2);
        } else {
            lemma_have_moves_push(st, st2, seq![name], dest);
        }
    } else {
        let c = classify_spec(name);
        if flattened(c) {
            let children = dedup_keep_first(seconds(files, name));
            if c == crate::source_tree::EntryClass::NodeModulesLike {
                let st0 = (GState {
                    occupied: st.occupied.push(seq!["node_modules"@]),
                    steps: st.steps.push(GStep::CreateDir(seq!["node_modules"@])),
                    remaps: st.remaps,
                });
                lemma_have_moves_frame(st, st0);
                lemma_flatten_have_moves(st0, name, children, seq!["node_modules"@]);
            } else {
                lemma_flatten_have_moves(st, name, children, flatten_dest_dir(c));
            }
        } else {
            let dest = seq!["lib"@, name];
            if c == crate::source_tree::EntryClass::WellKnown && st.occupied.contains(dest) {
                assert(st2.steps[st.steps.len() as int + 1] == GStep::MoveEntry(seq![name], dest));
                lemma_have_moves_push(st, st2, seq![name], dest);
            } else {
                assert(st2.steps[st.steps.len() as int] == GStep::MoveEntry(seq![name], dest));
                lemma_have_moves_push(st, st2, seq![name], dest);
            }
        }
    }
}

/// The whole fold keeps the remapping-move correspondence.
proof fn lemma_run_have_moves(
    files: Seq<SourceFile>,
    st: GState,
    tops: Seq<Seq<char>>,
    reorg: bool,
)
    requires
        run_entries(files, st, tops, reorg) is Ok,
        remaps_have_moves(st),
    ensures
        remaps_have_moves(run_entries(files, st, tops, reorg)->Ok_0),
    decreases tops.len(),
{
    if tops.len() > 0 {
        lemma_run_have_moves(files, st, tops.drop_last(), reorg);
        let st1 = run_entries(files, st, tops.drop_last(), reorg)->Ok_0;
        lemma_entry_have_moves(files, st1, tops.last(), reorg);
    }
}

/// In a successful plan, every emitted remapping's alias is bound to the
/// destination of one of the plan's own moves: what the table points at
/// was really produced by the materialization.
pub proof fn lemma_remappings_match_moves(
    t: SourceTree,
    existing: Seq<Seq<Seq<char>>>,
    keep_structure: bool,
)
    requires
        plan_result_spec(t, existing, keep_structure) is Ok,
    ensures
        remaps_have_moves(plan_result_spec(t, existing, keep_structure)->Ok_0),
{
    let init = (GState { occupied: existing, steps: Seq::empty(), remaps: Seq::empty() });
    lemma_run_have_moves(
        t.files@,
        init,
        dedup_keep_first(firsts(t.files@)),
        reorg_spec(t, keep_structure),
    );
}

} // verus!

//! The project's persisted build-configuration document: keyed values
//! addressable by a path of keys.  Mutation is by exact key path and
//! never invents missing intermediate tables -- writing under a table
//! that does not exist fails loudly.

use vstd::prelude::*;
use vstd::string::*;
use crate::errors::CloneError;
use crate::pathseg::{path_eq, copy_path};

verus! {

/// A value held at one key path: a scalar, a list of strings, or the
/// declaration of a (possibly still empty) nested table.
#[derive(Debug)]
pub enum LeafValue {
    Bool(bool),
    Int(i64),
    Str(String),
    StrList(Vec<String>),
    Table,
}

/// One keyed entry of the document.
#[derive(Debug)]
pub struct DocEntry {
    /// The full key path of this entry.
    pub path: Vec<String>,
    /// The value held there.
    pub value: LeafValue,
}

/// The whole document, in rendering order.
#[derive(Debug)]
pub struct ConfigDoc {
    /// Entries in the order they are rendered.
    pub entries: Vec<DocEntry>,
}

/// The abstract form of a leaf.
#[verifier::ext_equal]
pub ghost enum GLeaf {
    Bool(bool),
    Int(int),
    Str(Seq<char>),
    StrList(Seq<Seq<char>>),
    Table,
}

/// The abstract form of a leaf value.
pub open spec fn leaf_view(v: LeafValue) -> GLeaf {
    match v {
        LeafValue::Bool(b) => GLeaf::Bool(b),
        LeafValue::Int(n) => GLeaf::Int(n as int),
        LeafValue::Str(s) => GLeaf::Str(s@),
        LeafValue::StrList(a) => GLeaf::StrList(a.deep_view()),
        LeafValue::Table => GLeaf::Table,
    }
}

/// The abstract form of the document: key paths with their leaves, in
/// order.
pub open spec fn doc_view(d: ConfigDoc) -> Seq<(Seq<Seq<char>>, GLeaf)> {
    Seq::new(d.entries@.len(), |i: int| (d.entries@[i].path.deep_view(), leaf_view(d.entries@[i].value)))
}

/// The first value held at `p`, if any.
pub open spec fn doc_get(d: Seq<(Seq<Seq<char>>, GLeaf)>, p: Seq<Seq<char>>) -> Option<GLeaf>
    decreases d.len(),
{
    if d.len() == 0 {
        None
    } else if d[0].0 == p {
        Some(d[0].1)
    } else {
        doc_get(d.drop_first(), p)
    }
}

/// Whether `q` lies strictly below `p`.
pub open spec fn is_strict_desc(q: Seq<Seq<char>>, p: Seq<Seq<char>>) -> bool {
    p.len() < q.len() && q.take(p.len() as int) == p
}

/// Whether the table at `p` exists: the root always does; otherwise some
/// entry declares it or lies below it.
pub open spec fn table_exists(d: Seq<(Seq<Seq<char>>, GLeaf)>, p: Seq<Seq<char>>) -> bool {
    ||| p.len() == 0
    ||| exists|i: int|
        0 <= i < d.len() && ((#[trigger] d[i]).0 == p && d[i].1 == GLeaf::Table || is_strict_desc(
            d[i].0,
            p,
        ))
}

/// Whether the table holding `p`'s final key exists.
pub open spec fn parent_exists(d: Seq<(Seq<Seq<char>>, GLeaf)>, p: Seq<Seq<char>>) -> bool {
    table_exists(d, p.take(p.len() - 1))
}

/// The document without the entries lying strictly below `p`.
pub open spec fn drop_desc(d: Seq<(Seq<Seq<char>>, GLeaf)>, p: Seq<Seq<char>>) -> Seq<
    (Seq<Seq<char>>, GLeaf),
>
    decreases d.len(),
{
    if d.len() == 0 {
        Seq::empty()
    } else {
        drop_desc(d.drop_last(), p) + (if is_strict_desc(d.last().0, p) {
            Seq::empty()
        } else {
            seq![d.last()]
        })
    }
}

/// The index of the first entry at `p`, or `-1`.
pub open spec fn find_path(d: Seq<(Seq<Seq<char>>, GLeaf)>, p: Seq<Seq<char>>) -> int
    decreases d.len(),
{
    if d.len() == 0 {
        -1
    } else if d[0].0 == p {
        0
    } else {
        let r = find_path(d.drop_first(), p);
        if r < 0 {
            -1
        } else {
            r + 1
        }
    }
}

/// Writing `v` at `p`: entries below `p` disappear, then the first entry
/// at `p` is replaced in place, or a new entry is appended.
pub open spec fn doc_set(d: Seq<(Seq<Seq<char>>, GLeaf)>, p: Seq<Seq<char>>, v: GLeaf) -> Seq<
    (Seq<Seq<char>>, GLeaf),
> {
    let kept = drop_desc(d, p);
    let idx = find_path(kept, p);
    if idx >= 0 {
        kept.update(idx, (p, v))
    } else {
        kept.push((p, v))
    }
}

/// `find_path` names a real entry at `p`, when it is nonnegative.
pub proof fn lemma_find_path(d: Seq<(Seq<Seq<char>>, GLeaf)>, p: Seq<Seq<char>>)
    ensures
        find_path(d, p) >= 0 ==> 0 <= find_path(d, p) < d.len() && d[find_path(d, p)].0 == p,
        find_path(d, p) >= 0 ==> forall|j: int| 0 <= j < find_path(d, p) ==> (#[trigger] d[j]).0
            != p,
        find_path(d, p) < 0 ==> forall|j: int| 0 <= j < d.len() ==> (#[trigger] d[j]).0 != p,
    decreases d.len(),
{
    if d.len() > 0 && d[0].0 != p {
        lemma_find_path(d.drop_first(), p);
        assert(forall|j: int|
            1 <= j < d.len() ==> (#[trigger] d[j]) == d.drop_first()[j - 1]);
    }
}

/// A copy of a leaf with the same abstract form.
pub fn copy_leaf(v: &LeafValue) -> (r: LeafValue)
    ensures
        leaf_view(r) == leaf_view(*v),
{
    match v {
        LeafValue::Bool(b) => LeafValue::Bool(*b),
        LeafValue::Int(n) => LeafValue::Int(*n),
        LeafValue::Str(s) => LeafValue::Str(s.clone()),
        LeafValue::StrList(a) => {
            let c = copy_path(a);
            proof {
                assert(leaf_view(LeafValue::StrList(c)) =~= leaf_view(*v));
            }
            LeafValue::StrList(c)
        },
        LeafValue::Table => LeafValue::Table,
    }
}

/// A copy of an entry with the same abstract form.
pub fn copy_entry(e: &DocEntry) -> (r: DocEntry)
    ensures
        r.path.deep_view() == e.path.deep_view(),
        leaf_view(r.value) == leaf_view(e.value),
{
    DocEntry { path: copy_path(&e.path), value: copy_leaf(&e.value) }
}

/// Whether `q` lies strictly below `p`, on exec paths.
pub fn is_strict_desc_exec(q: &Vec<String>, p: &Vec<String>) -> (r: bool)
    ensures
        r == is_strict_desc(q.deep_view(), p.deep_view()),
{
    if p.len() >= q.len() {
        return false;
    }
    let mut i: usize = 0;
    while i < p.len()
        invariant
            p.len() < q.len(),
            i <= p.len(),
            forall|j: int| 0 <= j < i ==> q.deep_view()[j] == p.deep_view()[j],
        decreases p.len() - i,
    {
        let same = q[i].eq(&p[i]);
        if !same {
            assert(q.deep_view().take(p.deep_view().len() as int)[i as int] != p.deep_view()[
                i as int
            ]);
            return false;
        }
        i = i + 1;
    }
    assert(q.deep_view().take(p.deep_view().len() as int) =~= p.deep_view());
    true
}

/// Whether the table at `p` exists in the document.
pub fn table_exists_exec(doc: &ConfigDoc, p: &Vec<String>) -> (r: bool)
    ensures
        r == table_exists(doc_view(*doc), p.deep_view()),
{
    if p.len() == 0 {
        return true;
    }
    let mut i: usize = 0;
    while i < doc.entries.len()
        invariant
            i <= doc.entries@.len(),
            forall|j: int|
                0 <= j < i ==> !((#[trigger] doc_view(*doc)[j]).0 == p.deep_view() && doc_view(
                    *doc,
                )[j].1 == GLeaf::Table || is_strict_desc(doc_view(*doc)[j].0, p.deep_view())),
        decreases doc.entries@.len() - i,
    {
        let e = &doc.entries[i];
        let here = path_eq(&e.path, p);
        let is_table = matches!(&e.value, LeafValue::Table);
        let below = is_strict_desc_exec(&e.path, p);
        if (here && is_table) || below {
            proof {
                assert((doc_view(*doc)[i as int]).0 == doc.entries@[i as int].path.deep_view());
            }
            return true;
        }
        i = i + 1;
    }
    false
}

/// Writes `value` at `path`.  Succeeds exactly when the table holding
/// the path's final key already exists; the result is then `doc_set` of
/// the old document.  The document never gains a table it did not have.
pub fn set_path(doc: &ConfigDoc, path: &Vec<String>, value: LeafValue) -> (r: Result<
    ConfigDoc,
    CloneError,
>)
    requires
        path@.len() > 0,
    ensures
        (r is Ok) == parent_exists(doc_view(*doc), path.deep_view()),
        r is Ok ==> doc_view(r->Ok_0) == doc_set(
            doc_view(*doc),
            path.deep_view(),
            leaf_view(value),
        ),
        r is Err ==> r->Err_0 == CloneError::UnknownConfigKey,
{
    let parent = prefix_of(path, path.len() - 1);
    if !table_exists_exec(doc, &parent) {
        proof {
            assert(parent.deep_view() =~= path.deep_view().take(path.deep_view().len() - 1));
        }
        return Err(CloneError::UnknownConfigKey);
    }
    proof {
        assert(parent.deep_view() =~= path.deep_view().take(path.deep_view().len() - 1));
    }

    // Keep everything that does not lie strictly below `path`.
    let mut kept: Vec<DocEntry> = Vec::new();
    let mut i: usize = 0;
    proof {
        assert(drop_desc(doc_view(*doc).take(0), path.deep_view()) =~= Seq::<
            (Seq<Seq<char>>, GLeaf),
        >::empty());
        assert(entries_view(kept@) =~= Seq::<(Seq<Seq<char>>, GLeaf)>::empty());
    }
    while i < doc.entries.len()
        invariant
            i <= doc.entries@.len(),
            entries_view(kept@) == drop_desc(doc_view(*doc).take(i as int), path.deep_view()),
        decreases doc.entries@.len() - i,
    {
        proof {
            assert(doc_view(*doc).take(i + 1).drop_last() =~= doc_view(*doc).take(i as int));
            assert(doc_view(*doc).take(i + 1).last() == doc_view(*doc)[i as int]);
        }
        let e = &doc.entries[i];
        let below = is_strict_desc_exec(&e.path, path);
        if !below {
            let ghost old_kept = entries_view(kept@);
            kept.push(copy_entry(e));
            proof {
                assert(entries_view(kept@) =~= old_kept.push(doc_view(*doc)[i as int]));
            }
        }
        i = i + 1;
    }
    proof {
        assert(doc_view(*doc).take(doc_view(*doc).len() as int) =~= doc_view(*doc));
    }
    let ghost kept_view = entries_view(kept@);

    // Replace the first entry at `path`, or append one.
    let mut idx: usize = 0;
    let mut found = false;
    while idx < kept.len() && !found
        invariant
            idx <= kept@.len(),
            forall|j: int| 0 <= j < idx ==> (#[trigger] kept_view[j]).0 != path.deep_view(),
            found ==> idx < kept@.len() && kept_view[idx as int].0 == path.deep_view(),
            entries_view(kept@) == kept_view,
        decreases kept@.len() - idx + (if found { 0int } else { 1int }),
    {
        let here = path_eq(&kept[idx].path, path);
        if here {
            found = true;
        } else {
            idx = idx + 1;
        }
    }
    proof {
        lemma_find_path(kept_view, path.deep_view());
    }
    if found {
        proof {
            assert(find_path(kept_view, path.deep_view()) == idx as int) by {
                let f = find_path(kept_view, path.deep_view());
                if f < 0 {
                    assert(kept_view[idx as int].0 != path.deep_view());
                } else if f < idx {
                    assert(kept_view[f].0 != path.deep_view());
                } else if f > idx {
                    assert(kept_view[idx as int].0 != path.deep_view());
                }
            }
        }
        let ghost old_kept = entries_view(kept@);
        let replacement = DocEntry { path: copy_path(path), value };
        kept.remove(idx);
        kept.insert(idx, replacement);
        proof {
            assert(entries_view(kept@) =~= old_kept.update(
                idx as int,
                (path.deep_view(), leaf_view(value)),
            ));
        }
        Ok(ConfigDoc { entries: kept })
    } else {
        proof {
            assert(idx == kept@.len());
            assert(find_path(kept_view, path.deep_view()) < 0) by {
                let f = find_path(kept_view, path.deep_view());
                if f >= 0 {
                    assert(kept_view[f].0 != path.deep_view());
                }
            }
        }
        let ghost old_kept = entries_view(kept@);
        kept.push(DocEntry { path: copy_path(path), value });
        proof {
            assert(entries_view(kept@) =~= old_kept.push(
                (path.deep_view(), leaf_view(value)),
            ));
        }
        Ok(ConfigDoc { entries: kept })
    }
}

/// The abstract form of a list of entries.
pub open spec fn entries_view(es: Seq<DocEntry>) -> Seq<(Seq<Seq<char>>, GLeaf)> {
    Seq::new(es.len(), |i: int| (es[i].path.deep_view(), leaf_view(es[i].value)))
}

/// The first `n` segments of a path.
pub fn prefix_of(p: &Vec<String>, n: usize) -> (r: Vec<String>)
    requires
        n <= p@.len(),
    ensures
        r.deep_view() == p.deep_view().take(n as int),
{
    let mut r: Vec<String> = Vec::new();
    let mut i: usize = 0;
    while i < n
        invariant
            i <= n <= p@.len(),
            r.len() == i,
            forall|j: int| 0 <= j < i ==> r.deep_view()[j] == p.deep_view()[j],
        decreases n - i,
    {
        r.push(p[i].clone());
        i = i + 1;
    }
    assert(r.deep_view() =~= p.deep_view().take(n as int));
    r
}

/// Looks up the first entry at `path`, returning its index.
pub fn find_entry(doc: &ConfigDoc, path: &Vec<String>) -> (r: Option<usize>)
    ensures
        match r {
            Some(i) => i < doc.entries@.len() && find_path(doc_view(*doc), path.deep_view())
                == i as int,
            None => find_path(doc_view(*doc), path.deep_view()) < 0,
        },
{
    let mut i: usize = 0;
    while i < doc.entries.len()
        invariant
            i <= doc.entries@.len(),
            forall|j: int| 0 <= j < i ==> (#[trigger] doc_view(*doc)[j]).0 != path.deep_view(),
        decreases doc.entries@.len() - i,
    {
        let here = path_eq(&doc.entries[i].path, path);
        if here {
            proof {
                lemma_find_path(doc_view(*doc), path.deep_view());
                let f = find_path(doc_view(*doc), path.deep_view());
                assert((doc_view(*doc)[i as int]).0 == path.deep_view());
                if f < 0 {
                    assert((doc_view(*doc)[i as int]).0 != path.deep_view());
                }
                if f != i as int {
                    if f < i {
                        assert((doc_view(*doc)[f]).0 != path.deep_view());
                    } else {
                        assert((doc_view(*doc)[i as int]).0 != path.deep_view());
                    }
                }
            }
            return Some(i);
        }
        i = i + 1;
    }
    proof {
        lemma_find_path(doc_view(*doc), path.deep_view());
        let f = find_path(doc_view(*doc), path.deep_view());
        if f >= 0 {
            assert((doc_view(*doc)[f]).0 != path.deep_view());
        }
    }
    None
}

/// What survives dropping descendants: exactly the entries not strictly
/// below `p`.
pub proof fn lemma_drop_desc_member(d: Seq<(Seq<Seq<char>>, GLeaf)>, p: Seq<Seq<char>>, x: (
    Seq<Seq<char>>,
    GLeaf,
))
    ensures
        drop_desc(d, p).contains(x) <==> (d.contains(x) && !is_strict_desc(x.0, p)),
    decreases d.len(),
{
    if d.len() > 0 {
        lemma_drop_desc_member(d.drop_last(), p, x);
        let rest = drop_desc(d.drop_last(), p);
        if !is_strict_desc(d.last().0, p) {
            assert(drop_desc(d, p) =~= rest.push(d.last()));
            crate::materialize_laws::lemma_push_contains(rest, d.last(), x);
        } else {
            assert(drop_desc(d, p) =~= rest);
        }
        if d.contains(x) && !is_strict_desc(x.0, p) {
            let i = choose|i: int| 0 <= i < d.len() && d[i] == x;
            if i < d.len() - 1 {
                assert(d.drop_last()[i] == x);
            }
        }
        if d.drop_last().contains(x) {
            let i = choose|i: int| 0 <= i < d.drop_last().len() && d.drop_last()[i] == x;
            assert(d[i] == x);
        }
    }
}

/// Everything in the written document was there before or is the new
/// entry.
pub proof fn lemma_doc_set_member(
    d: Seq<(Seq<Seq<char>>, GLeaf)>,
    p: Seq<Seq<char>>,
    v: GLeaf,
    x: (Seq<Seq<char>>, GLeaf),
)
    ensures
        doc_set(d, p, v).contains(x) ==> (d.contains(x) && !is_strict_desc(x.0, p)) || x == ((
            p,
            v,
        )),
        d.contains(x) && !is_strict_desc(x.0, p) && x.0 != p ==> doc_set(d, p, v).contains(x),
        doc_set(d, p, v).contains(((p, v))),
{
    let kept = drop_desc(d, p);
    let idx = find_path(kept, p);
    lemma_find_path(kept, p);
    if doc_set(d, p, v).contains(x) {
        let i = choose|i: int| 0 <= i < doc_set(d, p, v).len() && doc_set(d, p, v)[i] == x;
        if idx >= 0 {
            if i != idx {
                assert(kept[i] == x);
                lemma_drop_desc_member(d, p, x);
            }
        } else {
            if i < kept.len() {
                assert(kept[i] == x);
                lemma_drop_desc_member(d, p, x);
            }
        }
    }
    if d.contains(x) && !is_strict_desc(x.0, p) && x.0 != p {
        lemma_drop_desc_member(d, p, x);
        let i = choose|i: int| 0 <= i < kept.len() && kept[i] == x;
        if idx >= 0 {
            assert(i != idx);
            assert(doc_set(d, p, v)[i] == x);
        } else {
            assert(doc_set(d, p, v)[i] == x);
        }
    }
    if idx >= 0 {
        assert(doc_set(d, p, v)[idx] == ((p, v)));
    } else {
        assert(doc_set(d, p, v)[kept.len() as int] == ((p, v)));
    }
}

/// Every table that held a strict prefix of the written path exists in
/// the result, and so does the written path itself when a table was
/// written there.
pub proof fn lemma_doc_set_tables(d: Seq<(Seq<Seq<char>>, GLeaf)>, p: Seq<Seq<char>>, v: GLeaf)
    ensures
        forall|t: Seq<Seq<char>>|
            t.len() < p.len() && t == p.take(t.len() as int) ==> table_exists(
                #[trigger] doc_set(d, p, v),
                t,
            ),
        v == GLeaf::Table ==> table_exists(doc_set(d, p, v), p),
        forall|t: Seq<Seq<char>>|
            #[trigger] table_exists(d, t) && !is_strict_desc(t, p) && t != p ==> table_exists(
                doc_set(d, p, v),
                t,
            ),
{
    lemma_doc_set_member(d, p, v, ((p, v)));
    let res = doc_set(d, p, v);
    let k = choose|k: int| 0 <= k < res.len() && res[k] == ((p, v));
    assert forall|t: Seq<Seq<char>>|
        t.len() < p.len() && t == p.take(t.len() as int) implies table_exists(
        #[trigger] doc_set(d, p, v),
        t,
    ) by {
        assert(is_strict_desc(p, t));
        assert(res[k].0 == p);
    }
    assert forall|t: Seq<Seq<char>>|
        #[trigger] table_exists(d, t) && !is_strict_desc(t, p) && t != p implies table_exists(
        doc_set(d, p, v),
        t,
    ) by {
        if t.len() == 0 {
        } else {
            let i = choose|i: int|
                0 <= i < d.len() && ((#[trigger] d[i]).0 == t && d[i].1 == GLeaf::Table
                    || is_strict_desc(d[i].0, t));
            let w = d[i];
            assert(d.contains(w));
            if w.0 == p {
                // The entry at `p` is replaced, but the replacement has
                // the same path, so it still witnesses `t`.
                assert(is_strict_desc(w.0, t));
                assert(is_strict_desc(res[k].0, t));
            } else if is_strict_desc(w.0, p) {
                // The witness may be dropped, but then `p` itself lies
                // strictly below `t` and the new entry witnesses it.
                if w.0 == t {
                    assert(is_strict_desc(t, p) || t == p || is_strict_desc(p, t) || p == t) by {
                        assert(t == w.0.take(t.len() as int));
                    }
                    assert(false);
                } else {
                    assert(is_strict_desc(w.0, t));
                    assert(t == w.0.take(t.len() as int));
                    assert(p == w.0.take(p.len() as int));
                    if t.len() < p.len() {
                        assert(t =~= p.take(t.len() as int));
                        assert(is_strict_desc(p, t));
                        assert(res[k].0 == p);
                    } else if t.len() == p.len() {
                        assert(t =~= p);
                        assert(false);
                    } else {
                        assert(p =~= t.take(p.len() as int));
                        assert(is_strict_desc(t, p));
                        assert(false);
                    }
                }
            } else {
                lemma_doc_set_member(d, p, v, w);
                assert(res.contains(w));
                let m = choose|m: int| 0 <= m < res.len() && res[m] == w;
            }
        }
    }
}

/// Nothing new can witness a table that did not exist, unless the write
/// itself lies at or strictly below it.
pub proof fn lemma_doc_set_no_new_table(
    d: Seq<(Seq<Seq<char>>, GLeaf)>,
    p: Seq<Seq<char>>,
    v: GLeaf,
    t: Seq<Seq<char>>,
)
    requires
        !table_exists(d, t),
        p != t,
        !is_strict_desc(p, t),
    ensures
        !table_exists(doc_set(d, p, v), t),
{
    let res = doc_set(d, p, v);
    if table_exists(res, t) {
        assert(t.len() > 0);
        let i = choose|i: int|
            0 <= i < res.len() && ((#[trigger] res[i]).0 == t && res[i].1 == GLeaf::Table
                || is_strict_desc(res[i].0, t));
        let w = res[i];
        assert(res.contains(w));
        lemma_doc_set_member(d, p, v, w);
        if w == ((p, v)) {
            assert(false);
        } else {
            assert(d.contains(w));
            let m = choose|m: int| 0 <= m < d.len() && d[m] == w;
            assert(false);
        }
    }
}

/// Reading back the written path gives the written value.
pub proof fn lemma_doc_set_get(d: Seq<(Seq<Seq<char>>, GLeaf)>, p: Seq<Seq<char>>, v: GLeaf)
    ensures
        doc_get(doc_set(d, p, v), p) == Some(v),
{
    let kept = drop_desc(d, p);
    let idx = find_path(kept, p);
    lemma_find_path(kept, p);
    if idx >= 0 {
        lemma_get_of_update(kept, idx, p, v);
    } else {
        lemma_get_of_append(kept, p, v);
    }
}

/// Reading any other path that is not below the written one is
/// undisturbed.
pub proof fn lemma_doc_set_get_frame(
    d: Seq<(Seq<Seq<char>>, GLeaf)>,
    p: Seq<Seq<char>>,
    v: GLeaf,
    q: Seq<Seq<char>>,
)
    requires
        q != p,
        !is_strict_desc(q, p),
    ensures
        doc_get(doc_set(d, p, v), q) == doc_get(d, q),
{
    let kept = drop_desc(d, p);
    let idx = find_path(kept, p);
    lemma_find_path(kept, p);
    lemma_get_drop_desc(d, p, q);
    if idx >= 0 {
        lemma_get_update_frame(kept, idx, p, v, q);
    } else {
        lemma_get_append_frame(kept, p, v, q);
    }
}

/// `doc_get` at `q` ignores dropped descendants of `p` when `q` is not
/// one of them.
proof fn lemma_get_drop_desc(d: Seq<(Seq<Seq<char>>, GLeaf)>, p: Seq<Seq<char>>, q: Seq<
    Seq<char>,
>)
    requires
        !is_strict_desc(q, p),
    ensures
        doc_get(drop_desc(d, p), q) == doc_get(d, q),
    decreases d.len(),
{
    if d.len() > 0 {
        lemma_get_drop_desc(d.drop_last(), p, q);
        let rest = drop_desc(d.drop_last(), p);
        let r = doc_get(d.drop_last(), q);
        if is_strict_desc(d.last().0, p) {
            assert(d.last().0 != q);
            lemma_get_skip_last(d, q);
            assert(drop_desc(d, p) =~= rest);
        } else {
            lemma_get_extend(rest, d.last(), q, r);
            lemma_get_extend(d.drop_last(), d.last(), q, r);
            lemma_get_extend_src(d, q);
            assert(drop_desc(d, p) =~= rest.push(d.last()));
        }
    }
}

/// Reading a list that ends with an entry at a different path, or whose
/// earlier part already answers, is reading the earlier part -- stated
/// for a last entry that never shadows an earlier answer.
proof fn lemma_get_skip_last(d: Seq<(Seq<Seq<char>>, GLeaf)>, q: Seq<Seq<char>>)
    requires
        d.len() > 0,
        d.last().0 != q,
    ensures
        doc_get(d, q) == doc_get(d.drop_last(), q),
    decreases d.len(),
{
    if d.len() > 1 {
        assert(d.drop_first().last() == d.last());
        lemma_get_skip_last(d.drop_first(), q);
        assert(d.drop_first().drop_last() =~= d.drop_last().drop_first());
        assert(d.drop_last()[0] == d[0]);
        assert(d.drop_last().len() > 0);
        if d[0].0 == q {
            assert(doc_get(d, q) == Some(d[0].1));
            assert(doc_get(d.drop_last(), q) == Some(d[0].1));
        } else {
            assert(doc_get(d, q) == doc_get(d.drop_first(), q));
            assert(doc_get(d.drop_last(), q) == doc_get(d.drop_last().drop_first(), q));
        }
    } else {
        assert(d[0] == d.last());
        assert(d.drop_last() =~= Seq::<(Seq<Seq<char>>, GLeaf)>::empty());
        assert(doc_get(d.drop_last(), q) is None);
        assert(d.drop_first() =~= Seq::<(Seq<Seq<char>>, GLeaf)>::empty());
        assert(doc_get(d, q) is None);
    }
}

/// Appending an entry changes an answered read not at all, and an
/// unanswered read only at the appended path.
proof fn lemma_get_extend(d: Seq<(Seq<Seq<char>>, GLeaf)>, x: (Seq<Seq<char>>, GLeaf), q: Seq<
    Seq<char>,
>, r: Option<GLeaf>)
    requires
        doc_get(d, q) == r,
    ensures
        r is Some ==> doc_get(d.push(x), q) == r,
        r is None && x.0 == q ==> doc_get(d.push(x), q) == Some(x.1),
        r is None && x.0 != q ==> doc_get(d.push(x), q) is None,
    decreases d.len(),
{
    if d.len() == 0 {
        assert(d.push(x).len() == 1);
        assert(d.push(x)[0] == x);
        assert(d.push(x).drop_first() =~= Seq::<(Seq<Seq<char>>, GLeaf)>::empty());
        if x.0 == q {
            assert(doc_get(d.push(x), q) == Some(x.1));
        } else {
            assert(doc_get(d.push(x).drop_first(), q) is None);
            assert(doc_get(d.push(x), q) is None);
        }
    } else {
        lemma_get_extend(d.drop_first(), x, q, doc_get(d.drop_first(), q));
        assert(d.push(x).drop_first() =~= d.drop_first().push(x));
        assert(d.push(x)[0] == d[0]);
        if d[0].0 == q {
            assert(doc_get(d, q) == Some(d[0].1));
            assert(doc_get(d.push(x), q) == Some(d[0].1));
        } else {
            assert(doc_get(d, q) == doc_get(d.drop_first(), q));
            assert(doc_get(d.push(x), q) == doc_get(d.drop_first().push(x), q));
        }
    }
}

/// A list is its shorter part plus its last entry.
proof fn lemma_get_extend_src(d: Seq<(Seq<Seq<char>>, GLeaf)>, q: Seq<Seq<char>>)
    requires
        d.len() > 0,
    ensures
        doc_get(d, q) == doc_get(d.drop_last().push(d.last()), q),
{
    assert(d.drop_last().push(d.last()) =~= d);
}

/// Reading the path of an in-place update gives the new value, when the
/// updated position is the first at that path.
proof fn lemma_get_of_update(d: Seq<(Seq<Seq<char>>, GLeaf)>, idx: int, p: Seq<Seq<char>>, v: GLeaf)
    requires
        0 <= idx < d.len(),
        d[idx].0 == p,
        forall|j: int| 0 <= j < idx ==> (#[trigger] d[j]).0 != p,
    ensures
        doc_get(d.update(idx, (p, v)), p) == Some(v),
    decreases idx,
{
    if idx == 0 {
        assert(d.update(0, (p, v))[0] == ((p, v)));
    } else {
        assert(d.update(idx, (p, v))[0] == d[0]);
        assert(d.update(idx, (p, v)).drop_first() =~= d.drop_first().update(idx - 1, (p, v)));
        assert(forall|j: int| 0 <= j < idx - 1 ==> (#[trigger] d.drop_first()[j]).0 != p);
        lemma_get_of_update(d.drop_first(), idx - 1, p, v);
    }
}

/// Reading any other path through an in-place update is undisturbed.
proof fn lemma_get_update_frame(
    d: Seq<(Seq<Seq<char>>, GLeaf)>,
    idx: int,
    p: Seq<Seq<char>>,
    v: GLeaf,
    q: Seq<Seq<char>>,
)
    requires
        0 <= idx < d.len(),
        d[idx].0 == p,
        q != p,
    ensures
        doc_get(d.update(idx, (p, v)), q) == doc_get(d, q),
    decreases idx,
{
    if idx == 0 {
        assert(d.update(0, (p, v))[0] == ((p, v)));
        assert(d.update(0, (p, v)).drop_first() =~= d.drop_first());
    } else {
        assert(d.update(idx, (p, v))[0] == d[0]);
        assert(d.update(idx, (p, v)).drop_first() =~= d.drop_first().update(idx - 1, (p, v)));
        lemma_get_update_frame(d.drop_first(), idx - 1, p, v, q);
    }
}

/// Reading the path of an appended entry gives its value when nothing
/// earlier answered; other paths are undisturbed.
proof fn lemma_get_of_append(d: Seq<(Seq<Seq<char>>, GLeaf)>, p: Seq<Seq<char>>, v: GLeaf)
    requires
        forall|j: int| 0 <= j < d.len() ==> (#[trigger] d[j]).0 != p,
    ensures
        doc_get(d.push((p, v)), p) == Some(v),
    decreases d.len(),
{
    if d.len() == 0 {
        assert(d.push((p, v))[0] == ((p, v)));
    } else {
        assert(d.push((p, v))[0] == d[0]);
        assert(d.push((p, v)).drop_first() =~= d.drop_first().push((p, v)));
        assert(forall|j: int| 0 <= j < d.drop_first().len() ==> (#[trigger] d.drop_first()[j]).0
            != p);
        lemma_get_of_append(d.drop_first(), p, v);
    }
}

/// Reading another path past an appended entry is undisturbed.
proof fn lemma_get_append_frame(d: Seq<(Seq<Seq<char>>, GLeaf)>, p: Seq<Seq<char>>, v: GLeaf, q: Seq<
    Seq<char>,
>)
    requires
        q != p,
    ensures
        doc_get(d.push((p, v)), q) == doc_get(d, q),
{
    lemma_get_extend(d, (p, v), q, doc_get(d, q));
}


/// Writing at `p` clears every table strictly below `p`.
pub proof fn lemma_doc_set_clears_below(
    d: Seq<(Seq<Seq<char>>, GLeaf)>,
    p: Seq<Seq<char>>,
    v: GLeaf,
    t: Seq<Seq<char>>,
)
    requires
        p.len() < t.len(),
        t.take(p.len() as int) == p,
    ensures
        !table_exists(doc_set(d, p, v), t),
{
    let res = doc_set(d, p, v);
    if table_exists(res, t) {
        let i = choose|i: int|
            0 <= i < res.len() && ((#[trigger] res[i]).0 == t && res[i].1 == GLeaf::Table
                || is_strict_desc(res[i].0, t));
        let w = res[i];
        assert(res.contains(w));
        lemma_doc_set_member(d, p, v, w);
        if w == ((p, v)) {
            // The written entry lies at `p`, strictly above `t`.
            assert(!(w.0 == t));
            assert(!is_strict_desc(w.0, t));
            assert(false);
        } else {
            // A surviving witness would extend `t` and hence lie
            // strictly below `p` -- but those were dropped.
            assert(d.contains(w) && !is_strict_desc(w.0, p));
            if w.0 == t {
                assert(is_strict_desc(w.0, p)) by {
                    assert(w.0.take(p.len() as int) == p);
                }
            } else {
                assert(is_strict_desc(w.0, t));
                assert(w.0.take(t.len() as int) == t);
                assert(w.0.take(p.len() as int) =~= p) by {
                    assert(forall|k: int|
                        0 <= k < p.len() ==> w.0.take(t.len() as int)[k] == w.0[k]);
                }
                assert(is_strict_desc(w.0, p));
            }
            assert(false);
        }
    }
}

} // verus!

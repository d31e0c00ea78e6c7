//! The fetched source bundle: relative paths with file contents, the
//! classification of its top-level entries, and the listing the
//! materializer walks.

use vstd::prelude::*;
use vstd::string::*;
use crate::pathseg::{path_wf, path_wf_check, is_seg_prefix, is_seg_prefix_check, str_eq, first_char_is};

verus! {

/// One file of the fetched bundle: its path relative to the bundle root,
/// as segments, and its text.
#[derive(Debug, Clone)]
pub struct SourceFile {
    /// Path segments relative to the staged bundle directory.
    pub path: Vec<String>,
    /// The file's text.
    pub content: String,
}

/// The fetched source bundle.
#[derive(Debug, Clone)]
pub struct SourceTree {
    /// Every file of the bundle, in the order the metadata lists them.
    pub files: Vec<SourceFile>,
}

/// Well-formedness: every path is a nonempty sequence of well-formed
/// segments, and no file's path is a prefix of another's, as a filesystem
/// cannot hold a file and a directory of the same name.
pub open spec fn tree_wf(t: SourceTree) -> bool {
    &&& forall|i: int|
        0 <= i < t.files@.len() ==> path_wf(#[trigger] t.files@[i].path.deep_view())
    &&& forall|i: int, j: int|
        0 <= i < t.files@.len() && 0 <= j < t.files@.len() && i != j ==> !is_seg_prefix(
            t.files@[i].path.deep_view(),
            t.files@[j].path.deep_view(),
        )
}

/// What a top-level entry of the staged bundle is, by its name.  The
/// membership of this set is part of the public contract: it decides both
/// whether the bundle is reorganized at all and where each entry goes.
#[derive(Debug, Clone, Copy, PartialEq, Eq, Structural)]
pub enum EntryClass {
    /// Named exactly `src`.
    SrcLike,
    /// Named exactly `contracts`.
    ContractsLike,
    /// Named exactly `lib`.
    LibLike,
    /// Named exactly `node_modules`.
    NodeModulesLike,
    /// A well-known scaffolding directory: `hardhat` or `forge-std`.
    WellKnown,
    /// A scope-prefixed directory: the name begins with `@`.
    Scoped,
    /// Anything else; its presence disables reorganization.
    Other,
}

/// The class of a top-level entry name.
pub open spec fn classify_spec(name: Seq<char>) -> EntryClass {
    if name == "src"@ {
        EntryClass::SrcLike
    } else if name == "contracts"@ {
        EntryClass::ContractsLike
    } else if name == "lib"@ {
        EntryClass::LibLike
    } else if name == "node_modules"@ {
        EntryClass::NodeModulesLike
    } else if name == "hardhat"@ || name == "forge-std"@ {
        EntryClass::WellKnown
    } else if name.len() > 0 && name[0] == '@' {
        EntryClass::Scoped
    } else {
        EntryClass::Other
    }
}

/// A recognized entry takes part in reorganization; an `Other` entry
/// disables it.
pub open spec fn recognized(c: EntryClass) -> bool {
    c != EntryClass::Other
}

/// Entries of these classes are flattened: their immediate children are
/// moved one by one.
pub open spec fn flattened(c: EntryClass) -> bool {
    c == EntryClass::SrcLike || c == EntryClass::ContractsLike || c == EntryClass::LibLike || c
        == EntryClass::NodeModulesLike
}

/// Classifies a top-level entry name.
pub fn classify(name: &str) -> (c: EntryClass)
    ensures
        c == classify_spec(name@),
{
    if str_eq(name, "src") {
        EntryClass::SrcLike
    } else if str_eq(name, "contracts") {
        EntryClass::ContractsLike
    } else if str_eq(name, "lib") {
        EntryClass::LibLike
    } else if str_eq(name, "node_modules") {
        EntryClass::NodeModulesLike
    } else if str_eq(name, "hardhat") || str_eq(name, "forge-std") {
        EntryClass::WellKnown
    } else if first_char_is(name, '@') {
        EntryClass::Scoped
    } else {
        EntryClass::Other
    }
}

/// The first segment of each file's path, in file order.
pub open spec fn firsts(files: Seq<SourceFile>) -> Seq<Seq<char>> {
    Seq::new(files.len(), |i: int| files[i].path.deep_view()[0])
}

/// The second segment of each file lying under `top`, in file order.
pub open spec fn seconds(files: Seq<SourceFile>, top: Seq<char>) -> Seq<Seq<char>>
    decreases files.len(),
{
    if files.len() == 0 {
        Seq::empty()
    } else {
        seconds(files.drop_last(), top) + (if files.last().path.deep_view().len() >= 2
            && files.last().path.deep_view()[0] == top {
            seq![files.last().path.deep_view()[1]]
        } else {
            Seq::empty()
        })
    }
}

/// Keeps the first occurrence of each name, in order.
pub open spec fn dedup_keep_first(s: Seq<Seq<char>>) -> Seq<Seq<char>>
    decreases s.len(),
{
    if s.len() == 0 {
        Seq::empty()
    } else {
        let rest = dedup_keep_first(s.drop_last());
        if rest.contains(s.last()) {
            rest
        } else {
            rest.push(s.last())
        }
    }
}

/// Deduplication never invents a name and never loses one.
pub proof fn lemma_dedup_same_members(s: Seq<Seq<char>>)
    ensures
        forall|x: Seq<char>| dedup_keep_first(s).contains(x) <==> s.contains(x),
    decreases s.len(),
{
    if s.len() > 0 {
        lemma_dedup_same_members(s.drop_last());
        let rest = dedup_keep_first(s.drop_last());
        assert forall|x: Seq<char>| dedup_keep_first(s).contains(x) implies s.contains(x) by {
            if rest.contains(x) {
                assert(s.drop_last().contains(x));
                let i = choose|i: int| 0 <= i < s.drop_last().len() && s.drop_last()[i] == x;
                assert(s[i] == x);
            } else {
                assert(dedup_keep_first(s) == rest.push(s.last()));
                let j = choose|j: int|
                    0 <= j < rest.push(s.last()).len() && rest.push(s.last())[j] == x;
                if j < rest.len() {
                    assert(rest[j] == x);
                }
                assert(x == s.last());
                assert(s[s.len() - 1] == x);
            }
        }
        assert forall|x: Seq<char>| s.contains(x) implies dedup_keep_first(s).contains(x) by {
            let i = choose|i: int| 0 <= i < s.len() && s[i] == x;
            if i < s.len() - 1 {
                assert(s.drop_last()[i] == x);
                assert(s.drop_last().contains(x));
                let j = choose|j: int| 0 <= j < rest.len() && rest[j] == x;
                if !rest.contains(s.last()) {
                    assert(rest.push(s.last())[j] == x);
                }
            } else {
                if rest.contains(x) {
                } else {
                    assert(rest.push(s.last())[rest.len() as int] == x);
                }
            }
        }
    }
}

/// The deduplicated listing holds each name at most once.
pub proof fn lemma_dedup_distinct(s: Seq<Seq<char>>)
    ensures
        forall|i: int, j: int|
            0 <= i < j < dedup_keep_first(s).len() ==> dedup_keep_first(s)[i]
                != dedup_keep_first(s)[j],
    decreases s.len(),
{
    if s.len() > 0 {
        lemma_dedup_distinct(s.drop_last());
        let rest = dedup_keep_first(s.drop_last());
        if !rest.contains(s.last()) {
            assert(forall|i: int| 0 <= i < rest.len() ==> rest[i] != s.last()) by {
                assert(forall|i: int|
                    0 <= i < rest.len() && rest[i] == s.last() ==> rest.contains(s.last()));
            }
            assert(forall|i: int, j: int|
                0 <= i < j < rest.push(s.last()).len() ==> rest.push(s.last())[i] != rest.push(
                    s.last(),
                )[j]);
        }
    }
}

/// Whether a vector of strings holds `s`.
pub fn vec_contains_string(v: &Vec<String>, s: &String) -> (r: bool)
    ensures
        r == v.deep_view().contains(s@),
{
    let mut i: usize = 0;
    while i < v.len()
        invariant
            i <= v.len(),
            forall|j: int| 0 <= j < i ==> v.deep_view()[j] != s@,
        decreases v.len() - i,
    {
        let hit = v[i].eq(s);
        if hit {
            assert(v.deep_view()[i as int] == s@);
            return true;
        }
        i = i + 1;
    }
    assert(forall|j: int| 0 <= j < v.deep_view().len() ==> v.deep_view()[j] != s@);
    false
}

/// The distinct top-level entry names of the bundle, each at its first
/// appearance.
pub fn top_level_names(tree: &SourceTree) -> (r: Vec<String>)
    requires
        tree_wf(*tree),
    ensures
        r.deep_view() == dedup_keep_first(firsts(tree.files@)),
        forall|i: int, j: int|
            0 <= i < j < r.deep_view().len() ==> r.deep_view()[i] != r.deep_view()[j],
{
    proof {
        lemma_dedup_distinct(firsts(tree.files@));
    }
    let mut r: Vec<String> = Vec::new();
    let mut i: usize = 0;
    proof {
        assert(firsts(tree.files@.take(0)) =~= Seq::<Seq<char>>::empty());
    }
    while i < tree.files.len()
        invariant
            tree_wf(*tree),
            i <= tree.files.len(),
            r.deep_view() == dedup_keep_first(firsts(tree.files@.take(i as int))),
        decreases tree.files.len() - i,
    {
        proof {
            assert(path_wf(tree.files@[i as int].path.deep_view()));
        }
        let name = &tree.files[i].path[0];
        let present = vec_contains_string(&r, name);
        proof {
            assert(firsts(tree.files@.take(i + 1)).drop_last() =~= firsts(
                tree.files@.take(i as int),
            ));
            assert(firsts(tree.files@.take(i + 1)).last() == name@);
        }
        if !present {
            let copy = name.clone();
            r.push(copy);
            proof {
                assert(r.deep_view() =~= dedup_keep_first(firsts(tree.files@.take(i as int))).push(
                    name@,
                ));
            }
        }
        i = i + 1;
    }
    proof {
        assert(tree.files@.take(tree.files@.len() as int) =~= tree.files@);
    }
    r
}

/// The distinct immediate children of top-level entry `top`, each at its
/// first appearance.
pub fn children_of(tree: &SourceTree, top: &String) -> (r: Vec<String>)
    requires
        tree_wf(*tree),
    ensures
        r.deep_view() == dedup_keep_first(seconds(tree.files@, top@)),
        forall|i: int, j: int|
            0 <= i < j < r.deep_view().len() ==> r.deep_view()[i] != r.deep_view()[j],
{
    proof {
        lemma_dedup_distinct(seconds(tree.files@, top@));
    }
    let mut r: Vec<String> = Vec::new();
    let mut i: usize = 0;
    proof {
        assert(seconds(tree.files@.take(0), top@) =~= Seq::<Seq<char>>::empty());
    }
    while i < tree.files.len()
        invariant
            tree_wf(*tree),
            i <= tree.files.len(),
            r.deep_view() == dedup_keep_first(seconds(tree.files@.take(i as int), top@)),
        decreases tree.files.len() - i,
    {
        proof {
            assert(tree.files@.take(i + 1).drop_last() =~= tree.files@.take(i as int));
            assert(tree.files@.take(i + 1).last() == tree.files@[i as int]);
        }
        proof {
            assert(path_wf(tree.files@[i as int].path.deep_view()));
        }
        let under = tree.files[i].path[0].eq(top);
        let deep = tree.files[i].path.len() >= 2;
        if under && deep {
            let child = &tree.files[i].path[1];
            let present = vec_contains_string(&r, child);
            proof {
                assert(seconds(tree.files@.take(i + 1), top@) =~= seconds(
                    tree.files@.take(i as int),
                    top@,
                ).push(child@));
                assert(seconds(tree.files@.take(i + 1), top@).drop_last() =~= seconds(
                    tree.files@.take(i as int),
                    top@,
                ));
                assert(seconds(tree.files@.take(i + 1), top@).last() == child@);
            }
            if !present {
                let copy = child.clone();
                r.push(copy);
                proof {
                    assert(r.deep_view() =~= dedup_keep_first(
                        seconds(tree.files@.take(i as int), top@),
                    ).push(child@));
                }
            }
        } else {
            proof {
                assert(seconds(tree.files@.take(i + 1), top@) =~= seconds(
                    tree.files@.take(i as int),
                    top@,
                ));
            }
        }
        i = i + 1;
    }
    proof {
        assert(tree.files@.take(tree.files@.len() as int) =~= tree.files@);
    }
    r
}


/// Whether a bundle is well-formed, as `tree_wf` asks: every path a
/// nonempty sequence of well-formed segments, no path a prefix of
/// another.
#[verifier::loop_isolation(false)]
pub fn tree_wf_check(t: &SourceTree) -> (r: bool)
    ensures
        r == tree_wf(*t),
{
    let mut i: usize = 0;
    while i < t.files.len()
        invariant
            i <= t.files@.len(),
            forall|j: int| 0 <= j < i ==> path_wf(#[trigger] t.files@[j].path.deep_view()),
        decreases t.files@.len() - i,
    {
        let ok = path_wf_check(&t.files[i].path);
        if !ok {
            assert(!path_wf(t.files@[i as int].path.deep_view()));
            return false;
        }
        i = i + 1;
    }
    let mut a: usize = 0;
    while a < t.files.len()
        invariant
            a <= t.files@.len(),
            forall|x: int, y: int|
                0 <= x < a && 0 <= y < t.files@.len() && x != y ==> !is_seg_prefix(
                    t.files@[x].path.deep_view(),
                    t.files@[y].path.deep_view(),
                ),
        decreases t.files@.len() - a,
    {
        let mut b: usize = 0;
        while b < t.files.len()
            invariant
                a < t.files@.len(),
                b <= t.files@.len(),
                forall|y: int|
                    0 <= y < b && y != a ==> !is_seg_prefix(
                        t.files@[a as int].path.deep_view(),
                        t.files@[y].path.deep_view(),
                    ),
            decreases t.files@.len() - b,
        {
            if b != a {
                let bad = is_seg_prefix_check(&t.files[a].path, &t.files[b].path);
                if bad {
                    return false;
                }
            }
            b = b + 1;
        }
        a = a + 1;
    }
    true
}

} // verus!

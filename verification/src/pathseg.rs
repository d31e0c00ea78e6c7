//! Relative paths as sequences of separator-free segments, and their
//! rendered `a/b/c` form.

use vstd::prelude::*;
use vstd::string::*;

verus! {

/// A well-formed path segment: nonempty and free of the separator.
pub open spec fn seg_wf(s: Seq<char>) -> bool {
    s.len() > 0 && (forall|i: int| 0 <= i < s.len() ==> s[i] != '/')
}

/// A well-formed relative path: at least one segment, all well-formed.
pub open spec fn path_wf(p: Seq<Seq<char>>) -> bool {
    p.len() > 0 && (forall|i: int| 0 <= i < p.len() ==> seg_wf(#[trigger] p[i]))
}

/// The segments joined with `/`.
pub open spec fn join_path(p: Seq<Seq<char>>) -> Seq<char>
    decreases p.len(),
{
    if p.len() == 0 {
        Seq::empty()
    } else if p.len() == 1 {
        p[0]
    } else {
        p[0] + seq!['/'] + join_path(p.drop_first())
    }
}

/// Joining after appending one more segment extends the rendered form at
/// its end.
pub proof fn lemma_join_push(p: Seq<Seq<char>>, x: Seq<char>)
    ensures
        p.len() == 0 ==> join_path(p.push(x)) == x,
        p.len() > 0 ==> join_path(p.push(x)) == join_path(p) + seq!['/'] + x,
    decreases p.len(),
{
    if p.len() == 0 {
        assert(p.push(x)[0] == x);
    } else if p.len() == 1 {
        assert(p.push(x).drop_first() =~= seq![x]);
        assert(join_path(seq![x]) == x);
        assert(join_path(p.push(x)) =~= p[0] + seq!['/'] + x);
    } else {
        lemma_join_push(p.drop_first(), x);
        assert(p.push(x).drop_first() =~= p.drop_first().push(x));
        assert(join_path(p) + seq!['/'] + x =~= p[0] + seq!['/'] + (join_path(p.drop_first())
            + seq!['/'] + x));
    }
}

/// A nonempty well-formed path renders to a string that starts with the
/// first character of its first segment; in particular it does not start
/// with `/`.
pub proof fn lemma_join_first_char(p: Seq<Seq<char>>)
    requires
        path_wf(p),
    ensures
        join_path(p).len() > 0,
        join_path(p)[0] == p[0][0],
    decreases p.len(),
{
    if p.len() > 1 {
        assert(seg_wf(p[0]));
        assert((p[0] + seq!['/'] + join_path(p.drop_first()))[0] == p[0][0]);
    }
}

/// Two strings are equal.
pub fn str_eq(a: &str, b: &str) -> (r: bool)
    ensures
        r == (a@ == b@),
{
    let sa = a.to_owned();
    let sb = b.to_owned();
    sa == sb
}

/// Whether the first character of `s` is `c`.
pub fn first_char_is(s: &str, c: char) -> (r: bool)
    ensures
        r == (s@.len() > 0 && s@[0] == c),
{
    let n = s.unicode_len();
    if n == 0 {
        false
    } else {
        s.get_char(0) == c
    }
}

/// Whether `s` starts with the string `pre`.
pub fn starts_with(s: &str, pre: &str) -> (r: bool)
    ensures
        r == (pre@.len() <= s@.len() && s@.subrange(0, pre@.len() as int) == pre@),
{
    let n = s.unicode_len();
    let m = pre.unicode_len();
    if m > n {
        return false;
    }
    let mut i: usize = 0;
    while i < m
        invariant
            m == pre@.len(),
            n == s@.len(),
            m <= n,
            i <= m,
            forall|j: int| 0 <= j < i ==> s@[j] == pre@[j],
        decreases m - i,
    {
        if s.get_char(i) != pre.get_char(i) {
            assert(s@.subrange(0, m as int)[i as int] != pre@[i as int]);
            return false;
        }
        i = i + 1;
    }
    assert(s@.subrange(0, m as int) =~= pre@);
    true
}

/// Whether `s` ends with the string `suf`.
pub fn ends_with(s: &str, suf: &str) -> (r: bool)
    ensures
        r == (suf@.len() <= s@.len() && s@.subrange(
            s@.len() - suf@.len(),
            s@.len() as int,
        ) == suf@),
{
    let n = s.unicode_len();
    let m = suf.unicode_len();
    if m > n {
        return false;
    }
    let mut i: usize = 0;
    while i < m
        invariant
            m == suf@.len(),
            n == s@.len(),
            m <= n,
            i <= m,
            forall|j: int| 0 <= j < i ==> s@[n - m + j] == suf@[j],
        decreases m - i,
    {
        if s.get_char(n - m + i) != suf.get_char(i) {
            assert(s@.subrange(n - m, n as int)[i as int] != suf@[i as int]);
            return false;
        }
        i = i + 1;
    }
    assert(s@.subrange(n - m, n as int) =~= suf@);
    true
}

/// Whether `pre` is a (segment-wise) prefix of `p`.
pub open spec fn is_seg_prefix(pre: Seq<Seq<char>>, p: Seq<Seq<char>>) -> bool {
    pre.len() <= p.len() && pre == p.subrange(0, pre.len() as int)
}

/// Two segment paths are equal.
pub fn path_eq(a: &Vec<String>, b: &Vec<String>) -> (r: bool)
    ensures
        r == (a.deep_view() == b.deep_view()),
{
    if a.len() != b.len() {
        assert(a.deep_view().len() != b.deep_view().len());
        return false;
    }
    let mut i: usize = 0;
    while i < a.len()
        invariant
            a.len() == b.len(),
            i <= a.len(),
            forall|j: int| 0 <= j < i ==> a.deep_view()[j] == b.deep_view()[j],
        decreases a.len() - i,
    {
        let same = a[i].eq(&b[i]);
        if !same {
            assert(a.deep_view()[i as int] != b.deep_view()[i as int]);
            return false;
        }
        i = i + 1;
    }
    assert(a.deep_view() =~= b.deep_view());
    true
}

/// Whether a list of segment paths holds `p`.
pub fn paths_contain(v: &Vec<Vec<String>>, p: &Vec<String>) -> (r: bool)
    ensures
        r == v.deep_view().contains(p.deep_view()),
{
    let mut i: usize = 0;
    while i < v.len()
        invariant
            i <= v.len(),
            forall|j: int| 0 <= j < i ==> v.deep_view()[j] != p.deep_view(),
        decreases v.len() - i,
    {
        let hit = path_eq(&v[i], p);
        if hit {
            assert(v.deep_view()[i as int] == p.deep_view());
            return true;
        }
        i = i + 1;
    }
    assert(forall|j: int| 0 <= j < v.deep_view().len() ==> v.deep_view()[j] != p.deep_view());
    false
}

/// A copy of a byte string with the same view.
pub fn copy_bytes(b: &Vec<u8>) -> (r: Vec<u8>)
    ensures
        r@ == b@,
{
    let mut r: Vec<u8> = Vec::new();
    let mut i: usize = 0;
    while i < b.len()
        invariant
            i <= b.len(),
            r@ == b@.take(i as int),
        decreases b.len() - i,
    {
        r.push(b[i]);
        proof {
            assert(r@ =~= b@.take(i + 1));
        }
        i = i + 1;
    }
    proof {
        assert(b@.take(b@.len() as int) =~= b@);
    }
    r
}

/// A copy of a segment path with the same view.
pub fn copy_path(p: &Vec<String>) -> (r: Vec<String>)
    ensures
        r.deep_view() == p.deep_view(),
{
    let mut r: Vec<String> = Vec::new();
    let mut i: usize = 0;
    while i < p.len()
        invariant
            i <= p.len(),
            r.len() == i,
            forall|j: int| 0 <= j < i ==> r.deep_view()[j] == p.deep_view()[j],
        decreases p.len() - i,
    {
        r.push(p[i].clone());
        i = i + 1;
    }
    assert(r.deep_view() =~= p.deep_view());
    r
}

/// A copy of a list of segment paths with the same view.
pub fn copy_paths(v: &Vec<Vec<String>>) -> (r: Vec<Vec<String>>)
    ensures
        r.deep_view() == v.deep_view(),
{
    let mut r: Vec<Vec<String>> = Vec::new();
    let mut i: usize = 0;
    while i < v.len()
        invariant
            i <= v.len(),
            r.len() == i,
            forall|j: int| 0 <= j < i ==> r.deep_view()[j] == v.deep_view()[j],
        decreases v.len() - i,
    {
        r.push(copy_path(&v[i]));
        i = i + 1;
    }
    assert(r.deep_view() =~= v.deep_view());
    r
}

/// The rendered `a/b/c` form of a segment path.
pub fn render_path(p: &Vec<String>) -> (r: String)
    ensures
        r@ == join_path(p.deep_view()),
{
    let mut r = String::new();
    let mut i: usize = 0;
    proof {
        assert(p.deep_view().take(0) =~= Seq::<Seq<char>>::empty());
    }
    while i < p.len()
        invariant
            i <= p.len(),
            r@ == join_path(p.deep_view().take(i as int)),
        decreases p.len() - i,
    {
        if i > 0 {
            r.append("/");
            proof {
                reveal_strlit("/");
                assert("/"@ =~= seq!['/']);
            }
        }
        r.append(p[i].as_str());
        proof {
            lemma_join_push(p.deep_view().take(i as int), p.deep_view()[i as int]);
            assert(p.deep_view().take(i as int).push(p.deep_view()[i as int]) =~= p.deep_view()
                .take(i + 1));
            assert(p[i as int]@ == p.deep_view()[i as int]);
        }
        i = i + 1;
    }
    proof {
        assert(p.deep_view().take(p.len() as int) =~= p.deep_view());
    }
    r
}


/// The lines joined with a newline, no trailing newline.
pub open spec fn join_lines(v: Seq<Seq<char>>) -> Seq<char>
    decreases v.len(),
{
    if v.len() == 0 {
        Seq::empty()
    } else if v.len() == 1 {
        v[0]
    } else {
        v[0] + seq!['\n'] + join_lines(v.drop_first())
    }
}

/// Joining after appending one more line extends the text at its end.
pub proof fn lemma_join_lines_push(v: Seq<Seq<char>>, x: Seq<char>)
    ensures
        v.len() == 0 ==> join_lines(v.push(x)) == x,
        v.len() > 0 ==> join_lines(v.push(x)) == join_lines(v) + seq!['\n'] + x,
    decreases v.len(),
{
    if v.len() == 0 {
        assert(v.push(x)[0] == x);
    } else if v.len() == 1 {
        assert(v.push(x).drop_first() =~= seq![x]);
        assert(join_lines(seq![x]) == x);
        assert(join_lines(v.push(x)) =~= v[0] + seq!['\n'] + x);
    } else {
        lemma_join_lines_push(v.drop_first(), x);
        assert(v.push(x).drop_first() =~= v.drop_first().push(x));
        assert(join_lines(v) + seq!['\n'] + x =~= v[0] + seq!['\n'] + (join_lines(
            v.drop_first(),
        ) + seq!['\n'] + x));
    }
}

/// Renders lines joined with newlines.
pub fn render_lines(v: &Vec<String>) -> (r: String)
    ensures
        r@ == join_lines(v.deep_view()),
{
    let mut r = String::new();
    let mut i: usize = 0;
    proof {
        assert(v.deep_view().take(0) =~= Seq::<Seq<char>>::empty());
    }
    while i < v.len()
        invariant
            i <= v.len(),
            r@ == join_lines(v.deep_view().take(i as int)),
        decreases v.len() - i,
    {
        if i > 0 {
            r.append("\n");
            proof {
                reveal_strlit("\n");
                assert("\n"@ =~= seq!['\n']);
            }
        }
        r.append(v[i].as_str());
        proof {
            lemma_join_lines_push(v.deep_view().take(i as int), v.deep_view()[i as int]);
            assert(v.deep_view().take(i as int).push(v.deep_view()[i as int]) =~= v.deep_view()
                .take(i + 1));
            assert(v[i as int]@ == v.deep_view()[i as int]);
        }
        i = i + 1;
    }
    proof {
        assert(v.deep_view().take(v.len() as int) =~= v.deep_view());
    }
    r
}


/// Whether a segment is well-formed: nonempty and free of the separator.
pub fn seg_wf_check(s: &str) -> (r: bool)
    ensures
        r == seg_wf(s@),
{
    let n = s.unicode_len();
    if n == 0 {
        return false;
    }
    let mut i: usize = 0;
    while i < n
        invariant
            n == s@.len(),
            i <= n,
            forall|j: int| 0 <= j < i ==> s@[j] != '/',
        decreases n - i,
    {
        if s.get_char(i) == '/' {
            return false;
        }
        i = i + 1;
    }
    true
}

/// Whether a path is well-formed: nonempty, all segments well-formed.
pub fn path_wf_check(p: &Vec<String>) -> (r: bool)
    ensures
        r == path_wf(p.deep_view()),
{
    if p.len() == 0 {
        return false;
    }
    let mut i: usize = 0;
    while i < p.len()
        invariant
            p.len() > 0,
            i <= p.len(),
            forall|j: int| 0 <= j < i ==> seg_wf(#[trigger] p.deep_view()[j]),
        decreases p.len() - i,
    {
        let ok = seg_wf_check(p[i].as_str());
        if !ok {
            assert(!seg_wf(p.deep_view()[i as int]));
            return false;
        }
        i = i + 1;
    }
    true
}

/// Whether `pre` is a segment-wise prefix of `p`, on exec paths.
pub fn is_seg_prefix_check(pre: &Vec<String>, p: &Vec<String>) -> (r: bool)
    ensures
        r == is_seg_prefix(pre.deep_view(), p.deep_view()),
{
    if pre.len() > p.len() {
        return false;
    }
    let mut i: usize = 0;
    while i < pre.len()
        invariant
            pre.len() <= p.len(),
            i <= pre.len(),
            forall|j: int| 0 <= j < i ==> pre.deep_view()[j] == p.deep_view()[j],
        decreases pre.len() - i,
    {
        let same = pre[i].eq(&p[i]);
        if !same {
            assert(p.deep_view().subrange(0, pre.deep_view().len() as int)[i as int]
                != pre.deep_view()[i as int]);
            return false;
        }
        i = i + 1;
    }
    assert(pre.deep_view() =~= p.deep_view().subrange(0, pre.deep_view().len() as int));
    true
}

} // verus!

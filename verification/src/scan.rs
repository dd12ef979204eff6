//! Placeholder extraction: the specification of the `@[name]@` marker
//! grammar and the verified scanner that collects the distinct placeholder
//! names of a template text.
//!
//! A marker is the literal `@[`, followed by one or more characters none of
//! which is `]`, followed by the literal `]@`.  Markers are found by a
//! left-to-right, non-overlapping scan; the captured name is trimmed of
//! surrounding whitespace, and duplicate names collapse to their first
//! occurrence.

use vstd::prelude::*;
use crate::text::{trim_spec, trim_range};

verus! {

/// The views of a sequence of character vectors.
pub open spec fn views_of(s: Seq<Vec<char>>) -> Seq<Seq<char>> {
    s.map_values(|v: Vec<char>| v@)
}

/// The index of the first `]` at or after position `i`, or `s.len()` if
/// there is none.
pub open spec fn first_close(s: Seq<char>, i: int) -> int
    decreases s.len() - i,
{
    if i < 0 || i >= s.len() {
        s.len() as int
    } else if s[i] == ']' {
        i
    } else {
        first_close(s, i + 1)
    }
}

/// Whether a complete placeholder marker starts at position `i`.
pub open spec fn marker_at(s: Seq<char>, i: int) -> bool {
    if 0 <= i && i + 2 <= s.len() && s[i] == '@' && s[i + 1] == '[' {
        let k = first_close(s, i + 2);
        i + 2 < k && k + 1 < s.len() && s[k + 1] == '@'
    } else {
        false
    }
}

/// The trimmed name captured by the marker starting at position `i`.
pub open spec fn marker_name(s: Seq<char>, i: int) -> Seq<char> {
    trim_spec(s.subrange(i + 2, first_close(s, i + 2)))
}

/// The position just after the marker starting at position `i`.
pub open spec fn marker_end(s: Seq<char>, i: int) -> int {
    first_close(s, i + 2) + 2
}

/// The names of all markers found by scanning from position `i`, in order
/// of occurrence, duplicates included.
pub open spec fn scan_names(s: Seq<char>, i: int) -> Seq<Seq<char>>
    decreases s.len() - i,
{
    if i < 0 || i >= s.len() {
        Seq::empty()
    } else if marker_at(s, i) {
        seq![marker_name(s, i)] + scan_names(s, marker_end(s, i))
    } else {
        scan_names(s, i + 1)
    }
}

/// The sequence with later duplicates removed: each value keeps its first
/// occurrence only.
pub open spec fn dedup_first(ns: Seq<Seq<char>>) -> Seq<Seq<char>>
    decreases ns.len(),
{
    if ns.len() == 0 {
        Seq::empty()
    } else if ns.drop_last().contains(ns.last()) {
        dedup_first(ns.drop_last())
    } else {
        dedup_first(ns.drop_last()).push(ns.last())
    }
}

/// Deduplication keeps membership unchanged.
pub proof fn lemma_dedup_contains(ns: Seq<Seq<char>>, x: Seq<char>)
    ensures
        dedup_first(ns).contains(x) <==> ns.contains(x),
    decreases ns.len(),
{
    if ns.len() == 0 {
    } else {
        let pre = ns.drop_last();
        let l = ns.last();
        lemma_dedup_contains(pre, x);
        if ns.contains(x) {
            let i = choose|i: int| 0 <= i < ns.len() && ns[i] == x;
            if i < ns.len() - 1 {
                assert(pre[i] == x);
                assert(pre.contains(x));
            } else {
                assert(l == x);
            }
            if pre.contains(l) {
                if l == x {
                    assert(pre.contains(x));
                }
                assert(dedup_first(pre).contains(x));
            } else {
                let d = dedup_first(pre);
                if l == x {
                    assert(d.push(l)[d.len() as int] == x);
                } else {
                    assert(pre.contains(x));
                    let j = choose|j: int| 0 <= j < d.len() && d[j] == x;
                    assert(d.push(l)[j] == x);
                }
                assert(dedup_first(ns).contains(x));
            }
        }
        if dedup_first(ns).contains(x) {
            if pre.contains(l) {
                assert(dedup_first(pre).contains(x));
                let i = choose|i: int| 0 <= i < pre.len() && pre[i] == x;
                assert(ns[i] == x);
                assert(ns.contains(x));
            } else {
                let d = dedup_first(pre);
                let j = choose|j: int| 0 <= j < d.push(l).len() && d.push(l)[j] == x;
                if j < d.len() {
                    assert(d[j] == x);
                    assert(d.contains(x));
                    let i = choose|i: int| 0 <= i < pre.len() && pre[i] == x;
                    assert(ns[i] == x);
                } else {
                    assert(x == l);
                    assert(ns[ns.len() - 1] == x);
                }
                assert(ns.contains(x));
            }
        }
    }
}

/// Deduplication leaves no repeated values.
pub proof fn lemma_dedup_distinct(ns: Seq<Seq<char>>)
    ensures
        forall|p: int, q: int|
            0 <= p < q < dedup_first(ns).len() ==> dedup_first(ns)[p] != dedup_first(ns)[q],
    decreases ns.len(),
{
    if ns.len() == 0 {
    } else {
        let pre = ns.drop_last();
        let l = ns.last();
        lemma_dedup_distinct(pre);
        if !pre.contains(l) {
            let d = dedup_first(pre);
            lemma_dedup_contains(pre, l);
            assert forall|p: int, q: int|
                0 <= p < q < d.push(l).len() implies d.push(l)[p] != d.push(l)[q] by {
                if q < d.len() {
                    assert(d.push(l)[p] == d[p] && d.push(l)[q] == d[q]);
                } else {
                    assert(d.push(l)[q] == l);
                    assert(d.push(l)[p] == d[p]);
                    if d[p] == l {
                        assert(d.contains(l));
                    }
                }
            }
        }
    }
}

/// The index of the first `]` at or after `from`, or the vector's length
/// if there is none.
pub fn find_close(v: &Vec<char>, from: usize) -> (k: usize)
    requires
        from <= v@.len(),
    ensures
        k == first_close(v@, from as int),
        k <= v@.len(),
{
    let mut k: usize = from;
    while k < v.len() && v[k] != ']'
        invariant
            from <= k <= v@.len(),
            first_close(v@, from as int) == first_close(v@, k as int),
        decreases v@.len() - k,
    {
        k = k + 1;
    }
    k
}

/// Whether any vector in `names` holds the same characters as `x`.
pub fn contains_chars(names: &Vec<Vec<char>>, x: &Vec<char>) -> (r: bool)
    ensures
        r == views_of(names@).contains(x@),
{
    let mut i: usize = 0;
    while i < names.len()
        invariant
            i <= names@.len(),
            forall|j: int| 0 <= j < i ==> views_of(names@)[j] != x@,
        decreases names@.len() - i,
    {
        if crate::text::chars_eq(&names[i], x) {
            proof {
                assert(views_of(names@)[i as int] == x@);
            }
            return true;
        }
        i = i + 1;
    }
    proof {
        if views_of(names@).contains(x@) {
            let j = choose|j: int| 0 <= j < views_of(names@).len() && views_of(names@)[j] == x@;
            assert(views_of(names@)[j] != x@);
        }
    }
    false
}

/// The distinct placeholder names of `content`, trimmed, in order of first
/// occurrence.
pub fn extract_names(content: &Vec<char>) -> (names: Vec<Vec<char>>)
    ensures
        views_of(names@) == dedup_first(scan_names(content@, 0)),
{
    let ghost s = content@;
    let n = content.len();
    let mut names: Vec<Vec<char>> = Vec::new();
    let ghost mut seen: Seq<Seq<char>> = Seq::empty();
    let mut i: usize = 0;
    proof {
        assert(seen + scan_names(s, 0) =~= scan_names(s, 0));
    }
    while i < n
        invariant
            n == s.len(),
            s == content@,
            i <= n,
            scan_names(s, 0) == seen + scan_names(s, i as int),
            views_of(names@) == dedup_first(seen),
        decreases n - i,
    {
        let mut is_marker = false;
        let mut k: usize = 0;
        if content[i] == '@' && i + 1 < n && content[i + 1] == '[' {
            k = find_close(content, i + 2);
            if k > i + 2 && k < n && n - k > 1 && content[k + 1] == '@' {
                is_marker = true;
            }
        }
        proof {
            assert(is_marker == marker_at(s, i as int));
        }
        if is_marker {
            let name = trim_range(content, i + 2, k);
            proof {
                assert(name@ == marker_name(s, i as int));
            }
            let already = contains_chars(&names, &name);
            proof {
                lemma_dedup_contains(seen, name@);
            }
            if !already {
                names.push(name);
            }
            proof {
                let seen2 = seen.push(name@);
                assert(seen2.drop_last() =~= seen);
                assert(seen2.last() == name@);
                if seen.contains(name@) {
                    assert(dedup_first(seen2) == dedup_first(seen));
                } else {
                    assert(dedup_first(seen2) == dedup_first(seen).push(name@));
                    assert(views_of(names@) =~= dedup_first(seen).push(name@));
                }
                assert(scan_names(s, i as int) == seq![marker_name(s, i as int)] + scan_names(
                    s,
                    marker_end(s, i as int),
                ));
                assert(seen2 + scan_names(s, k + 2) =~= seen + scan_names(s, i as int));
                seen = seen2;
            }
            i = k + 2;
        } else {
            proof {
                assert(scan_names(s, i as int) == scan_names(s, i + 1));
            }
            i = i + 1;
        }
    }
    proof {
        assert(scan_names(s, n as int) =~= Seq::<Seq<char>>::empty());
        assert(seen + scan_names(s, n as int) =~= seen);
    }
    names
}

} // verus!

//! Literal substitution: the specification of leftmost, non-overlapping
//! replacement of one character sequence by another, and its verified
//! implementation.  Rendering a template folds one replacement per
//! placeholder over the template text.

use vstd::prelude::*;

verus! {

/// `s` with every literal occurrence of `pat` replaced by `val`.
///
/// Occurrences are found left to right and do not overlap; replaced text
/// is not rescanned.  An empty pattern replaces nothing.
pub open spec fn replace_spec(s: Seq<char>, pat: Seq<char>, val: Seq<char>) -> Seq<char>
    decreases s.len(),
{
    if pat.len() == 0 || s.len() < pat.len() {
        s
    } else if s.take(pat.len() as int) == pat {
        val + replace_spec(s.skip(pat.len() as int), pat, val)
    } else {
        seq![s[0]] + replace_spec(s.skip(1), pat, val)
    }
}

/// The literal marker text for a placeholder name: `@[name]@`.
pub open spec fn marker_seq(name: Seq<char>) -> Seq<char> {
    seq!['@', '['] + name + seq![']', '@']
}

/// The result of substituting every `(name, value)` pair into `content`,
/// in order: each step replaces all occurrences of `@[name]@` by the
/// bound value.
pub open spec fn apply_all(content: Seq<char>, pairs: Seq<(Seq<char>, Seq<char>)>) -> Seq<char>
    decreases pairs.len(),
{
    if pairs.len() == 0 {
        content
    } else {
        apply_all(replace_spec(content, marker_seq(pairs[0].0), pairs[0].1), pairs.skip(1))
    }
}

/// The marker text `@[name]@` for a placeholder name.
pub fn marker_of(name: &Vec<char>) -> (r: Vec<char>)
    ensures
        r@ == marker_seq(name@),
{
    let mut r: Vec<char> = Vec::new();
    r.push('@');
    r.push('[');
    proof {
        assert(r@ =~= seq!['@', '['] + name@.take(0));
    }
    let mut i: usize = 0;
    while i < name.len()
        invariant
            i <= name@.len(),
            r@ == seq!['@', '['] + name@.take(i as int),
        decreases name@.len() - i,
    {
        r.push(name[i]);
        proof {
            assert(r@ =~= seq!['@', '['] + name@.take(i + 1));
        }
        i = i + 1;
    }
    proof {
        assert(name@.take(name@.len() as int) =~= name@);
    }
    r.push(']');
    r.push('@');
    proof {
        assert(r@ =~= marker_seq(name@));
    }
    r
}

/// Appends all characters of `v` to `out`.
pub fn append_chars(out: &mut Vec<char>, v: &Vec<char>)
    ensures
        final(out)@ == old(out)@ + v@,
{
    proof {
        assert(old(out)@ + v@.take(0) =~= old(out)@);
    }
    let mut j: usize = 0;
    while j < v.len()
        invariant
            j <= v@.len(),
            out@ == old(out)@ + v@.take(j as int),
        decreases v@.len() - j,
    {
        out.push(v[j]);
        proof {
            assert(out@ =~= old(out)@ + v@.take(j + 1));
        }
        j = j + 1;
    }
    proof {
        assert(old(out)@ + v@.take(v@.len() as int) =~= old(out)@ + v@);
    }
}

/// Whether `pat` occurs in `s` starting exactly at position `i`.
fn matches_at(s: &Vec<char>, i: usize, pat: &Vec<char>) -> (r: bool)
    requires
        i <= s@.len(),
    ensures
        r == (i + pat@.len() <= s@.len() && s@.subrange(i as int, i + pat@.len()) == pat@),
{
    let n = s.len();
    if n - i < pat.len() {
        return false;
    }
    let mut j: usize = 0;
    while j < pat.len()
        invariant
            n == s@.len(),
            i + pat@.len() <= n,
            j <= pat@.len(),
            forall|t: int| 0 <= t < j ==> s@[i + t] == pat@[t],
        decreases pat@.len() - j,
    {
        if s[i + j] != pat[j] {
            proof {
                assert(s@.subrange(i as int, i + pat@.len())[j as int] == s@[i + j]);
            }
            return false;
        }
        j = j + 1;
    }
    proof {
        assert(s@.subrange(i as int, i + pat@.len()) =~= pat@);
    }
    true
}

/// `s` with every occurrence of `pat` replaced by `val`.
pub fn replace_chars(s: &Vec<char>, pat: &Vec<char>, val: &Vec<char>) -> (out: Vec<char>)
    requires
        pat@.len() > 0,
    ensures
        out@ == replace_spec(s@, pat@, val@),
{
    let mut out: Vec<char> = Vec::new();
    proof {
        assert(s@.skip(0) =~= s@);
        assert(Seq::<char>::empty() + replace_spec(s@, pat@, val@) =~= replace_spec(
            s@,
            pat@,
            val@,
        ));
    }
    let mut i: usize = 0;
    while i < s.len()
        invariant
            i <= s@.len(),
            pat@.len() > 0,
            replace_spec(s@, pat@, val@) == out@ + replace_spec(s@.skip(i as int), pat@, val@),
        decreases s@.len() - i,
    {
        let ghost out0 = out@;
        let ghost sk = s@.skip(i as int);
        if matches_at(s, i, pat) {
            append_chars(&mut out, val);
            proof {
                assert(sk.take(pat@.len() as int) =~= s@.subrange(i as int, i + pat@.len()));
                assert(replace_spec(sk, pat@, val@) == val@ + replace_spec(
                    sk.skip(pat@.len() as int),
                    pat@,
                    val@,
                ));
                assert(sk.skip(pat@.len() as int) =~= s@.skip(i + pat@.len()));
                assert((out0 + val@) + replace_spec(s@.skip(i + pat@.len()), pat@, val@) =~= out0
                    + replace_spec(sk, pat@, val@));
            }
            i = i + pat.len();
        } else {
            out.push(s[i]);
            proof {
                assert(sk[0] == s@[i as int]);
                assert(sk.skip(1) =~= s@.skip(i + 1));
                if sk.len() < pat@.len() {
                    assert(replace_spec(sk, pat@, val@) == sk);
                    assert(s@.skip(i + 1).len() < pat@.len());
                    assert(replace_spec(s@.skip(i + 1), pat@, val@) == s@.skip(i + 1));
                    assert(sk =~= seq![s@[i as int]] + s@.skip(i + 1));
                } else {
                    assert(sk.take(pat@.len() as int) =~= s@.subrange(i as int, i + pat@.len()));
                    assert(sk.take(pat@.len() as int) != pat@);
                    assert(replace_spec(sk, pat@, val@) == seq![sk[0]] + replace_spec(
                        sk.skip(1),
                        pat@,
                        val@,
                    ));
                }
                assert((out0 + seq![s@[i as int]]) + replace_spec(s@.skip(i + 1), pat@, val@)
                    =~= out0 + (seq![s@[i as int]] + replace_spec(s@.skip(i + 1), pat@, val@)));
                assert(out@ + replace_spec(s@.skip(i + 1), pat@, val@) =~= out0 + replace_spec(
                    sk,
                    pat@,
                    val@,
                ));
            }
            i = i + 1;
        }
    }
    proof {
        assert(s@.skip(s@.len() as int).len() == 0);
        assert(replace_spec(s@.skip(s@.len() as int), pat@, val@) =~= Seq::<char>::empty());
        assert(out@ + Seq::<char>::empty() =~= out@);
    }
    out
}

} // verus!

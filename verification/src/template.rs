//! The template type: raw text plus the placeholder bindings derived from
//! it, with binding and rendering.
//!
//! A template's placeholder table is fixed at construction: its keys are
//! exactly the distinct trimmed names found in the text, in order of first
//! occurrence, and binding never adds or removes a key.  A value equal to
//! the empty string means "unbound"; rendering fails while any placeholder
//! is unbound, and otherwise substitutes every binding into the text, in
//! table order.

use vstd::prelude::*;
use crate::text::{chars_of, chars_to_string, chars_eq, copy_chars};
use crate::scan::{views_of, dedup_first, scan_names, extract_names};
use crate::replace::{apply_all, replace_spec, marker_seq, marker_of, replace_chars};

verus! {

/// The failures the engine and its collaborators can report.
///
/// Only `MissingPlaceholder` arises from the core: a bind that names an
/// undeclared placeholder, or a render while a placeholder is unbound.
/// The other kinds carry failures of the text source and of the external
/// execution collaborator.
#[derive(Debug)]
pub enum TronError {
    /// The template text source could not be read.
    Io(String),
    /// The text could not be parsed.
    Parse(String),
    /// A bind or render named the placeholder that the payload holds while
    /// the template does not declare it, or declares it unbound.
    MissingPlaceholder(String),
    /// The text is not a valid template.
    InvalidSyntax(String),
    /// The external execution collaborator failed.
    ExecutionError(String),
}

/// The index of the first occurrence of `x` in `keys` (the sequence's
/// length if `x` does not occur).
pub open spec fn first_index(keys: Seq<Seq<char>>, x: Seq<char>) -> int
    decreases keys.len(),
{
    if keys.len() == 0 {
        0
    } else if keys[0] == x {
        0
    } else {
        1 + first_index(keys.skip(1), x)
    }
}

/// `first_index` returns the position of the first occurrence.
pub proof fn lemma_first_index_is(keys: Seq<Seq<char>>, x: Seq<char>, i: int)
    requires
        0 <= i < keys.len(),
        keys[i] == x,
        forall|j: int| 0 <= j < i ==> keys[j] != x,
    ensures
        first_index(keys, x) == i,
    decreases i,
{
    if i == 0 {
    } else {
        lemma_first_index_is(keys.skip(1), x, i - 1);
    }
}

/// When `x` occurs in `keys`, `first_index` is in range and lands on an
/// occurrence of `x`.
pub proof fn lemma_first_index_in_range(keys: Seq<Seq<char>>, x: Seq<char>)
    requires
        keys.contains(x),
    ensures
        0 <= first_index(keys, x) < keys.len(),
        keys[first_index(keys, x)] == x,
    decreases keys.len(),
{
    if keys[0] == x {
    } else {
        assert(keys.skip(1).contains(x)) by {
            let j = choose|j: int| 0 <= j < keys.len() && keys[j] == x;
            assert(keys.skip(1)[j - 1] == x);
        }
        lemma_first_index_in_range(keys.skip(1), x);
    }
}

/// The index of the first empty value in `vals` (the sequence's length if
/// every value is non-empty).
pub open spec fn first_empty(vals: Seq<Seq<char>>) -> int
    decreases vals.len(),
{
    if vals.len() == 0 {
        0
    } else if vals[0].len() == 0 {
        0
    } else {
        1 + first_empty(vals.skip(1))
    }
}

/// `first_empty` returns the position of the first empty value.
pub proof fn lemma_first_empty_is(vals: Seq<Seq<char>>, i: int)
    requires
        0 <= i < vals.len(),
        vals[i].len() == 0,
        forall|j: int| 0 <= j < i ==> vals[j].len() > 0,
    ensures
        first_empty(vals) == i,
    decreases i,
{
    if i == 0 {
    } else {
        lemma_first_empty_is(vals.skip(1), i - 1);
    }
}

/// A template: immutable raw text and one value per declared placeholder.
pub struct TronTemplate {
    text: Vec<char>,
    names: Vec<Vec<char>>,
    values: Vec<Vec<char>>,
}

/// How a successful bind changes a template: same text, same keys, and the
/// value at `name`'s position overwritten by `v`.
pub open spec fn set_result(t0: TronTemplate, t1: TronTemplate, name: Seq<char>, v: Seq<char>) -> bool {
    &&& t1.content() == t0.content()
    &&& t1.keys() == t0.keys()
    &&& t1.vals() == t0.vals().update(first_index(t0.keys(), name), v)
}

impl TronTemplate {
    /// The raw template text.
    pub closed spec fn content(&self) -> Seq<char> {
        self.text@
    }

    /// The declared placeholder names, in order of first occurrence.
    pub closed spec fn keys(&self) -> Seq<Seq<char>> {
        views_of(self.names@)
    }

    /// The bound values, positionally matching `keys`; an empty value
    /// means "unbound".
    pub closed spec fn vals(&self) -> Seq<Seq<char>> {
        views_of(self.values@)
    }

    /// The placeholder table as ordered `(name, value)` pairs.
    pub open spec fn pairs(&self) -> Seq<(Seq<char>, Seq<char>)> {
        Seq::new(self.keys().len(), |i: int| (self.keys()[i], self.vals()[i]))
    }

    /// Structural invariant: one value per key, and the keys are exactly
    /// the distinct placeholder names scanned from the text.
    pub open spec fn wf(&self) -> bool {
        &&& self.vals().len() == self.keys().len()
        &&& self.keys() == dedup_first(scan_names(self.content(), 0))
    }

    /// Whether the template declares a placeholder named `name`.
    pub open spec fn declares(&self, name: Seq<char>) -> bool {
        self.keys().contains(name)
    }

    /// Whether every placeholder is bound to a non-empty value, so that
    /// rendering succeeds.
    pub open spec fn render_ok(&self) -> bool {
        forall|i: int| 0 <= i < self.vals().len() ==> self.vals()[i].len() > 0
    }

    /// The rendered text: every binding substituted into the content, in
    /// table order.
    pub open spec fn rendered(&self) -> Seq<char> {
        apply_all(self.content(), self.pairs())
    }

    /// The name a failing render reports: the first placeholder, in table
    /// order, still at the empty-string sentinel.
    pub open spec fn unbound_name(&self) -> Seq<char> {
        self.keys()[first_empty(self.vals())]
    }

    /// Creates a template from text, extracting its placeholders.
    ///
    /// Every distinct trimmed `@[name]@` marker name becomes a key with
    /// the empty (unbound) value.  Text without markers is a valid
    /// template; malformed marker fragments are not matched and are not an
    /// error, so construction always succeeds.
    pub fn new(content: &str) -> (r: Result<TronTemplate, TronError>)
        ensures
            r is Ok,
            r matches Ok(t) ==> {
                &&& t.wf()
                &&& t.content() == content@
                &&& forall|i: int| 0 <= i < t.vals().len() ==> t.vals()[i] == Seq::<char>::empty()
            },
    {
        let text = chars_of(content);
        let names = extract_names(&text);
        let mut values: Vec<Vec<char>> = Vec::new();
        let n = names.len();
        let mut i: usize = 0;
        while i < n
            invariant
                i <= n,
                values@.len() == i,
                forall|j: int| 0 <= j < i ==> values@[j]@ == Seq::<char>::empty(),
            decreases n - i,
        {
            let empty: Vec<char> = Vec::new();
            values.push(empty);
            i = i + 1;
        }
        let t = TronTemplate { text, names, values };
        proof {
            assert(forall|j: int|
                0 <= j < t.vals().len() ==> t.vals()[j] == t.values@[j]@);
        }
        Ok(t)
    }

    /// Whether the template declares a placeholder named `placeholder`.
    pub fn has_placeholder(&self, placeholder: &str) -> (r: bool)
        ensures
            r == self.declares(placeholder@),
    {
        let p = chars_of(placeholder);
        crate::scan::contains_chars(&self.names, &p)
    }

    /// Binds `value` to the placeholder named `placeholder`.
    ///
    /// Fails with `MissingPlaceholder` — leaving the template unchanged —
    /// if the name is not declared; binding is closed-world.  On success
    /// the value is overwritten, so rebinding is permitted and the last
    /// write wins.
    pub fn set(&mut self, placeholder: &str, value: &str) -> (r: Result<(), TronError>)
        requires
            old(self).wf(),
        ensures
            final(self).wf(),
            old(self).declares(placeholder@) ==> (r matches Ok(()) && set_result(
                *old(self),
                *final(self),
                placeholder@,
                value@,
            )),
            !old(self).declares(placeholder@) ==> (r matches Err(e) && e matches
                TronError::MissingPlaceholder(nm) && nm@ == placeholder@) && *final(self) == *old(
                self,
            ),
    {
        let p = chars_of(placeholder);
        let n = self.names.len();
        let mut i: usize = 0;
        while i < n
            invariant
                old(self).wf(),
                *self == *old(self),
                n == self.names@.len(),
                self.values@.len() == n,
                i <= n,
                p@ == placeholder@,
                forall|j: int| 0 <= j < i ==> views_of(self.names@)[j] != p@,
            decreases n - i,
        {
            if chars_eq(&self.names[i], &p) {
                proof {
                    assert(views_of(self.names@)[i as int] == p@);
                    assert(self.keys().contains(p@));
                    lemma_first_index_is(self.keys(), p@, i as int);
                }
                let v = chars_of(value);
                self.values[i] = v;
                proof {
                    assert(views_of(self.values@) =~= views_of(old(self).values@).update(
                        i as int,
                        value@,
                    ));
                }
                return Ok(());
            }
            i = i + 1;
        }
        proof {
            if old(self).declares(placeholder@) {
                let j = choose|j: int|
                    0 <= j < old(self).keys().len() && old(self).keys()[j] == placeholder@;
                assert(views_of(self.names@)[j] != p@);
            }
        }
        Err(TronError::MissingPlaceholder(placeholder.to_owned()))
    }

    /// Renders the template.
    ///
    /// Fails with `MissingPlaceholder` naming the first unbound
    /// placeholder in table order (order of first occurrence in the
    /// text); otherwise returns the text with every binding substituted.
    /// Rendering never changes the template.
    pub fn render(&self) -> (r: Result<String, TronError>)
        requires
            self.wf(),
        ensures
            r is Ok <==> self.render_ok(),
            r matches Ok(s) ==> s@ == self.rendered(),
            r matches Err(e) ==> (e matches TronError::MissingPlaceholder(nm) && nm@
                == self.unbound_name()),
    {
        let mut cur = copy_chars(&self.text);
        proof {
            assert(self.pairs().skip(0) =~= self.pairs());
        }
        let n = self.names.len();
        let mut j: usize = 0;
        while j < n
            invariant
                self.wf(),
                n == self.names@.len(),
                self.values@.len() == n,
                j <= n,
                apply_all(self.content(), self.pairs()) == apply_all(
                    cur@,
                    self.pairs().skip(j as int),
                ),
                forall|t: int| 0 <= t < j ==> self.vals()[t].len() > 0,
            decreases n - j,
        {
            if self.values[j].len() == 0 {
                proof {
                    assert(self.vals()[j as int].len() == 0);
                    lemma_first_empty_is(self.vals(), j as int);
                }
                return Err(TronError::MissingPlaceholder(chars_to_string(&self.names[j])));
            }
            let marker = marker_of(&self.names[j]);
            let ghost cur0 = cur@;
            let next = replace_chars(&cur, &marker, &self.values[j]);
            cur = next;
            proof {
                let psj = self.pairs().skip(j as int);
                assert(psj[0] == self.pairs()[j as int]);
                assert(apply_all(cur0, psj) == apply_all(
                    replace_spec(cur0, marker_seq(self.keys()[j as int]), self.vals()[j as int]),
                    psj.skip(1),
                ));
                assert(psj.skip(1) =~= self.pairs().skip(j + 1));
            }
            j = j + 1;
        }
        proof {
            assert(self.pairs().skip(n as int).len() == 0);
        }
        Ok(chars_to_string(&cur))
    }
}

/// A fresh vector of fresh character vectors with the same contents.
fn copy_vec_chars(v: &Vec<Vec<char>>) -> (r: Vec<Vec<char>>)
    ensures
        views_of(r@) == views_of(v@),
{
    let mut r: Vec<Vec<char>> = Vec::new();
    let mut i: usize = 0;
    while i < v.len()
        invariant
            i <= v@.len(),
            r@.len() == i,
            forall|j: int| 0 <= j < i ==> r@[j]@ == v@[j]@,
        decreases v@.len() - i,
    {
        let c = copy_chars(&v[i]);
        r.push(c);
        i = i + 1;
    }
    proof {
        assert(views_of(r@) =~= views_of(v@));
    }
    r
}

impl Clone for TronTemplate {
    /// A deep copy: same text, same keys, same values.
    fn clone(&self) -> (r: Self)
        ensures
            r.content() == self.content(),
            r.keys() == self.keys(),
            r.vals() == self.vals(),
    {
        TronTemplate {
            text: copy_chars(&self.text),
            names: copy_vec_chars(&self.names),
            values: copy_vec_chars(&self.values),
        }
    }
}

} // verus!

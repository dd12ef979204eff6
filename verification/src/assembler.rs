//! The assembler: an ordered collection of template handles with
//! best-effort broadcast binding and aggregate rendering.
//!
//! Broadcast binds apply to every handle that declares the given
//! placeholder and silently skip the handles that do not.  Aggregate
//! rendering concatenates every handle's render, in insertion order, each
//! followed by a newline, and stops at the first failure.

use vstd::prelude::*;
use vstd::string::StringExecFns;
use crate::handle::TronRef;
use crate::template::{TronError, set_result};

verus! {

/// Whether every handle in the sequence renders successfully.
pub open spec fn all_render_ok(hs: Seq<TronRef>) -> bool {
    forall|i: int| 0 <= i < hs.len() ==> (#[trigger] hs[i]).spec_inner().render_ok()
}

/// The concatenation of every handle's render, each followed by a
/// newline.
pub open spec fn concat_renders(hs: Seq<TronRef>) -> Seq<char>
    decreases hs.len(),
{
    if hs.len() == 0 {
        Seq::empty()
    } else {
        hs[0].spec_inner().rendered() + seq!['\n'] + concat_renders(hs.skip(1))
    }
}

/// The index of the first handle whose render fails (the sequence's
/// length if every render succeeds).
pub open spec fn first_render_fail(hs: Seq<TronRef>) -> int
    decreases hs.len(),
{
    if hs.len() == 0 {
        0
    } else if !hs[0].spec_inner().render_ok() {
        0
    } else {
        1 + first_render_fail(hs.skip(1))
    }
}

/// `first_render_fail` returns the position of the first failing handle.
pub proof fn lemma_first_render_fail_is(hs: Seq<TronRef>, i: int)
    requires
        0 <= i < hs.len(),
        !hs[i].spec_inner().render_ok(),
        forall|j: int| 0 <= j < i ==> (#[trigger] hs[j]).spec_inner().render_ok(),
    ensures
        first_render_fail(hs) == i,
    decreases i,
{
    if i == 0 {
    } else {
        lemma_first_render_fail_is(hs.skip(1), i - 1);
    }
}

/// Appending a handle appends its render and a newline to the
/// concatenation.
pub proof fn lemma_concat_snoc(hs: Seq<TronRef>, h: TronRef)
    ensures
        concat_renders(hs.push(h)) == concat_renders(hs) + h.spec_inner().rendered()
            + seq!['\n'],
    decreases hs.len(),
{
    let hp = hs.push(h);
    if hs.len() == 0 {
        assert(hp[0] == h);
        assert(hp.skip(1) =~= Seq::<TronRef>::empty());
        assert(concat_renders(hp.skip(1)) == Seq::<char>::empty());
        assert(concat_renders(hp) == hp[0].spec_inner().rendered() + seq!['\n'] + concat_renders(
            hp.skip(1),
        ));
        assert(concat_renders(hs) == Seq::<char>::empty());
        assert(concat_renders(hp) =~= concat_renders(hs) + h.spec_inner().rendered() + seq!['\n']);
    } else {
        lemma_concat_snoc(hs.skip(1), h);
        assert(hp[0] == hs[0]);
        assert(hp.skip(1) =~= hs.skip(1).push(h));
        assert(concat_renders(hp) == hp[0].spec_inner().rendered() + seq!['\n'] + concat_renders(
            hp.skip(1),
        ));
        assert(concat_renders(hs) == hs[0].spec_inner().rendered() + seq!['\n'] + concat_renders(
            hs.skip(1),
        ));
        assert(concat_renders(hp) =~= concat_renders(hs) + h.spec_inner().rendered() + seq!['\n']);
    }
}

/// How one broadcast bind leaves one handle: bound if it declares the
/// name, untouched otherwise.
pub open spec fn broadcast_set_ok(h0: TronRef, h1: TronRef, name: Seq<char>, v: Seq<char>) -> bool {
    if h0.spec_inner().declares(name) {
        &&& set_result(h0.spec_inner(), h1.spec_inner(), name, v)
        &&& h1.deps() == h0.deps()
    } else {
        h1 == h0
    }
}

/// How one broadcast composition leaves one handle: composed with the
/// child's render and dependencies if it declares the name, untouched
/// otherwise.
pub open spec fn broadcast_ref_ok(h0: TronRef, h1: TronRef, name: Seq<char>, child: TronRef) -> bool {
    if h0.spec_inner().declares(name) {
        &&& set_result(h0.spec_inner(), h1.spec_inner(), name, child.spec_inner().rendered())
        &&& h1.deps() == h0.deps() + child.deps()
    } else {
        h1 == h0
    }
}

/// An ordered collection of template handles rendered as one document.
pub struct TronAssembler {
    templates: Vec<TronRef>,
}

impl TronAssembler {
    /// The handles, in insertion order.
    pub closed spec fn handles(&self) -> Seq<TronRef> {
        self.templates@
    }

    /// Structural invariant: every handle is well formed.
    pub open spec fn wf(&self) -> bool {
        forall|i: int| 0 <= i < self.handles().len() ==> (#[trigger] self.handles()[i]).wf()
    }

    /// An assembler with no handles.
    pub fn new() -> (r: TronAssembler)
        ensures
            r.wf(),
            r.handles() == Seq::<TronRef>::empty(),
    {
        TronAssembler { templates: Vec::new() }
    }

    /// Appends a handle to the end of the list.
    pub fn add_template(&mut self, template: TronRef)
        requires
            old(self).wf(),
            template.wf(),
        ensures
            final(self).wf(),
            final(self).handles() == old(self).handles().push(template),
    {
        self.templates.push(template);
    }

    /// Binds `value` to `placeholder` on every handle that declares it.
    ///
    /// Handles that do not declare the placeholder are skipped, not an
    /// error: this broadcast is best-effort, and always succeeds.
    pub fn set_global(&mut self, placeholder: &str, value: &str) -> (r: Result<(), TronError>)
        requires
            old(self).wf(),
        ensures
            final(self).wf(),
            r matches Ok(()),
            final(self).handles().len() == old(self).handles().len(),
            forall|i: int|
                0 <= i < old(self).handles().len() ==> #[trigger] broadcast_set_ok(
                    old(self).handles()[i],
                    final(self).handles()[i],
                    placeholder@,
                    value@,
                ),
    {
        let n = self.templates.len();
        let mut i: usize = 0;
        while i < n
            invariant
                n == self.templates@.len(),
                old(self).handles().len() == n,
                i <= n,
                forall|j: int| 0 <= j < n ==> (#[trigger] self.templates@[j]).wf(),
                forall|j: int| i <= j < n ==> self.templates@[j] == old(self).handles()[j],
                forall|j: int|
                    0 <= j < i ==> #[trigger] broadcast_set_ok(
                        old(self).handles()[j],
                        self.templates@[j],
                        placeholder@,
                        value@,
                    ),
            decreases n - i,
        {
            let declared = self.templates[i].inner().has_placeholder(placeholder);
            if declared {
                let h = &mut self.templates[i];
                match h.set(placeholder, value) {
                    Ok(()) => {},
                    Err(e) => {
                        return Err(e);
                    },
                }
            }
            i = i + 1;
        }
        Ok(())
    }

    /// Composes `template_ref` into `placeholder` on every handle that
    /// declares it, each target getting its own copy of the rendered
    /// child and of its dependency list.
    ///
    /// Handles that do not declare the placeholder are skipped.  If the
    /// child cannot be rendered and some handle does declare the
    /// placeholder, the child's render error is returned and no handle is
    /// changed.
    pub fn set_ref_global(&mut self, placeholder: &str, template_ref: TronRef) -> (r: Result<
        (),
        TronError,
    >)
        requires
            old(self).wf(),
            template_ref.wf(),
        ensures
            final(self).wf(),
            template_ref.spec_inner().render_ok() ==> (r matches Ok(())
                && final(self).handles().len() == old(self).handles().len()
                && (forall|i: int|
                    0 <= i < old(self).handles().len() ==> #[trigger] broadcast_ref_ok(
                        old(self).handles()[i],
                        final(self).handles()[i],
                        placeholder@,
                        template_ref,
                    ))),
            !template_ref.spec_inner().render_ok() ==> (final(self).handles() == old(self).handles()
                && ((exists|i: int|
                    0 <= i < old(self).handles().len()
                        && (#[trigger] old(self).handles()[i]).spec_inner().declares(placeholder@))
                    ==> (r matches Err(e) && e matches TronError::MissingPlaceholder(nm) && nm@
                        == template_ref.spec_inner().unbound_name()))
                && (!(exists|i: int|
                    0 <= i < old(self).handles().len()
                        && (#[trigger] old(self).handles()[i]).spec_inner().declares(placeholder@))
                    ==> r matches Ok(()))),
    {
        let ghost child = template_ref.spec_inner();
        let n = self.templates.len();
        let mut i: usize = 0;
        while i < n
            invariant
                template_ref.wf(),
                child == template_ref.spec_inner(),
                n == self.templates@.len(),
                old(self).handles().len() == n,
                i <= n,
                forall|j: int| 0 <= j < n ==> (#[trigger] self.templates@[j]).wf(),
                forall|j: int| i <= j < n ==> self.templates@[j] == old(self).handles()[j],
                child.render_ok() ==> forall|j: int|
                    0 <= j < i ==> #[trigger] broadcast_ref_ok(
                        old(self).handles()[j],
                        self.templates@[j],
                        placeholder@,
                        template_ref,
                    ),
                !child.render_ok() ==> (self.templates@ == old(self).templates@ && forall|j: int|
                    0 <= j < i ==> !(#[trigger] old(self).handles()[j]).spec_inner().declares(
                        placeholder@,
                    )),
            decreases n - i,
        {
            let declared = self.templates[i].inner().has_placeholder(placeholder);
            if declared {
                let copy = template_ref.clone();
                proof {
                    assert(copy.spec_inner().pairs() =~= child.pairs());
                }
                let h = &mut self.templates[i];
                match h.set_ref(placeholder, copy) {
                    Ok(()) => {},
                    Err(e) => {
                        proof {
                            assert(self.templates@ =~= old(self).templates@);
                        }
                        return Err(e);
                    },
                }
            }
            i = i + 1;
        }
        Ok(())
    }

    /// Renders every handle in insertion order, concatenating each render
    /// followed by a newline; the first render failure is returned and
    /// nothing after it is rendered.
    pub fn render_all(&self) -> (r: Result<String, TronError>)
        requires
            self.wf(),
        ensures
            r is Ok <==> all_render_ok(self.handles()),
            r matches Ok(s) ==> s@ == concat_renders(self.handles()),
            r matches Err(e) ==> (e matches TronError::MissingPlaceholder(nm) && nm@ == self.handles()[
                first_render_fail(self.handles())
            ].spec_inner().unbound_name()),
    {
        let mut result = String::new();
        proof {
            assert(self.handles().take(0) =~= Seq::<TronRef>::empty());
        }
        let n = self.templates.len();
        let mut i: usize = 0;
        while i < n
            invariant
                self.wf(),
                n == self.templates@.len(),
                i <= n,
                result@ == concat_renders(self.handles().take(i as int)),
                forall|j: int| 0 <= j < i ==> (#[trigger] self.handles()[j]).spec_inner().render_ok(),
            decreases n - i,
        {
            proof {
                assert(self.handles()[i as int].wf());
            }
            match self.templates[i].render() {
                Ok(s) => {
                    result.append(s.as_str());
                    result.append("\n");
                    proof {
                        reveal_strlit("\n");
                        assert(("\n")@ =~= seq!['\n']);
                        lemma_concat_snoc(self.handles().take(i as int), self.handles()[i as int]);
                        assert(self.handles().take(i + 1) =~= self.handles().take(i as int).push(
                            self.handles()[i as int],
                        ));
                    }
                },
                Err(e) => {
                    proof {
                        lemma_first_render_fail_is(self.handles(), i as int);
                    }
                    return Err(e);
                },
            }
            i = i + 1;
        }
        proof {
            assert(self.handles().take(n as int) =~= self.handles());
        }
        Ok(result)
    }
}

} // verus!

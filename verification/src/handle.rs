//! The template handle: a template together with an ordered list of
//! dependency declarations, and composition of one handle's rendered
//! output into another's placeholder.
//!
//! Dependency declarations are opaque strings, append-only; composing a
//! handle into another appends the composed handle's dependencies after
//! the host's existing ones.  Composition copies the child's rendered
//! output, so the child cannot affect the parent afterwards.

use vstd::prelude::*;
use crate::template::{TronTemplate, TronError, set_result};

verus! {

/// The views of a sequence of strings.
pub open spec fn str_views(s: Seq<String>) -> Seq<Seq<char>> {
    s.map_values(|x: String| x@)
}

/// A reference to a template that can be composed into other templates.
pub struct TronRef {
    template: TronTemplate,
    dependencies: Vec<String>,
}

impl TronRef {
    /// The wrapped template.
    pub closed spec fn spec_inner(&self) -> TronTemplate {
        self.template
    }

    /// The dependency declarations, in the order they were added.
    pub closed spec fn deps(&self) -> Seq<Seq<char>> {
        str_views(self.dependencies@)
    }

    /// Structural invariant: the wrapped template is well formed.
    pub open spec fn wf(&self) -> bool {
        self.spec_inner().wf()
    }

    /// Wraps a template with an empty dependency list.
    pub fn new(template: TronTemplate) -> (r: TronRef)
        ensures
            r.spec_inner() == template,
            r.deps() == Seq::<Seq<char>>::empty(),
    {
        let r = TronRef { template, dependencies: Vec::new() };
        proof {
            assert(r.deps() =~= Seq::<Seq<char>>::empty());
        }
        r
    }

    /// Appends a dependency declaration; the order of calls is kept.
    pub fn with_dependency(self, dependency: &str) -> (r: TronRef)
        ensures
            r.spec_inner() == self.spec_inner(),
            r.deps() == self.deps().push(dependency@),
    {
        let ghost d0 = self.deps();
        let mut s = self;
        s.dependencies.push(dependency.to_owned());
        proof {
            assert(s.deps() =~= d0.push(dependency@));
        }
        s
    }

    /// A reference to the wrapped template.
    pub fn inner(&self) -> (r: &TronTemplate)
        ensures
            *r == self.spec_inner(),
    {
        &self.template
    }

    /// A mutable reference to the wrapped template.
    pub fn inner_mut(&mut self) -> (r: &mut TronTemplate)
        ensures
            *r == old(self).spec_inner(),
            final(self).spec_inner() == *final(r),
            final(self).deps() == old(self).deps(),
    {
        &mut self.template
    }

    /// The dependency declarations, in the order they were added.
    pub fn dependencies(&self) -> (r: &Vec<String>)
        ensures
            str_views(r@) == self.deps(),
    {
        &self.dependencies
    }

    /// Binds a value on the wrapped template; see `TronTemplate::set`.
    pub fn set(&mut self, placeholder: &str, value: &str) -> (r: Result<(), TronError>)
        requires
            old(self).wf(),
        ensures
            final(self).wf(),
            final(self).deps() == old(self).deps(),
            old(self).spec_inner().declares(placeholder@) ==> (r matches Ok(()) && set_result(
                old(self).spec_inner(),
                final(self).spec_inner(),
                placeholder@,
                value@,
            )),
            !old(self).spec_inner().declares(placeholder@) ==> ((r matches Err(e) && e matches
                TronError::MissingPlaceholder(nm) && nm@ == placeholder@) && *final(self) == *old(
                self,
            )),
    {
        self.template.set(placeholder, value)
    }

    /// Composes another handle into the placeholder named `placeholder`.
    ///
    /// The composed handle is first rendered fully (a failure of that
    /// render fails this call); the rendered string is bound as the
    /// placeholder's value; on success the composed handle's dependencies
    /// are appended after this handle's existing ones.  On any failure
    /// this handle is left unchanged.
    pub fn set_ref(&mut self, placeholder: &str, template_ref: TronRef) -> (r: Result<
        (),
        TronError,
    >)
        requires
            old(self).wf(),
            template_ref.wf(),
        ensures
            final(self).wf(),
            !template_ref.spec_inner().render_ok() ==> ((r matches Err(e) && e matches
                TronError::MissingPlaceholder(nm) && nm@
                == template_ref.spec_inner().unbound_name()) && *final(self) == *old(self)),
            (template_ref.spec_inner().render_ok() && !old(self).spec_inner().declares(
                placeholder@,
            )) ==> ((r matches Err(e) && e matches TronError::MissingPlaceholder(nm) && nm@
                == placeholder@) && *final(self) == *old(self)),
            (template_ref.spec_inner().render_ok() && old(self).spec_inner().declares(
                placeholder@,
            )) ==> (r matches Ok(()) && set_result(
                old(self).spec_inner(),
                final(self).spec_inner(),
                placeholder@,
                template_ref.spec_inner().rendered(),
            ) && final(self).deps() == old(self).deps() + template_ref.deps()),
    {
        let ghost d0 = old(self).deps();
        let ghost cdeps = template_ref.deps();
        let mut child = template_ref;
        let rendered = match child.template.render() {
            Ok(s) => s,
            Err(e) => {
                return Err(e);
            },
        };
        match self.template.set(placeholder, rendered.as_str()) {
            Ok(()) => {},
            Err(e) => {
                return Err(e);
            },
        }
        self.dependencies.append(&mut child.dependencies);
        proof {
            assert(final(self).deps() =~= d0 + cdeps);
        }
        Ok(())
    }

    /// Renders the wrapped template; see `TronTemplate::render`.
    pub fn render(&self) -> (r: Result<String, TronError>)
        requires
            self.wf(),
        ensures
            r is Ok <==> self.spec_inner().render_ok(),
            r matches Ok(s) ==> s@ == self.spec_inner().rendered(),
            r matches Err(e) ==> (e matches TronError::MissingPlaceholder(nm) && nm@
                == self.spec_inner().unbound_name()),
    {
        self.template.render()
    }
}

impl Clone for TronRef {
    /// A deep copy: the same template model and the same dependencies.
    fn clone(&self) -> (r: Self)
        ensures
            r.spec_inner().content() == self.spec_inner().content(),
            r.spec_inner().keys() == self.spec_inner().keys(),
            r.spec_inner().vals() == self.spec_inner().vals(),
            r.deps() == self.deps(),
    {
        let template = self.template.clone();
        let mut deps: Vec<String> = Vec::new();
        let mut i: usize = 0;
        while i < self.dependencies.len()
            invariant
                i <= self.dependencies@.len(),
                deps@.len() == i,
                forall|j: int| 0 <= j < i ==> deps@[j] == self.dependencies@[j],
            decreases self.dependencies@.len() - i,
        {
            let s = self.dependencies[i].clone();
            deps.push(s);
            i = i + 1;
        }
        proof {
            assert(deps@ =~= self.dependencies@);
        }
        TronRef { template, dependencies: deps }
    }
}

} // verus!

//! A guard that names the scope whose entry and exit are traced.
use vstd::prelude::*;

verus! {

/// The tag and name of a traced scope.
pub struct LogSpan {
    tag: &'static str,
    name: &'static str,
}

impl LogSpan {
    /// The component that the scope belongs to.
    pub closed spec fn spec_tag(&self) -> &'static str {
        self.tag
    }

    /// The name of the scope.
    pub closed spec fn spec_name(&self) -> &'static str {
        self.name
    }

    /// Opens a traced scope with a component tag and a name.
    pub fn new(tag: &'static str, name: &'static str) -> (r: Self)
        ensures
            r.spec_tag() == tag,
            r.spec_name() == name,
    {
        LogSpan { tag, name }
    }

    /// The component that the scope belongs to.
    pub fn tag(&self) -> (r: &'static str)
        ensures
            r == self.spec_tag(),
    {
        self.tag
    }

    /// The name of the scope.
    pub fn name(&self) -> (r: &'static str)
        ensures
            r == self.spec_name(),
    {
        self.name
    }
}

} // verus!

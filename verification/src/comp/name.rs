//! General name tagging component.
use vstd::prelude::*;

verus! {

/// The name of an entity, if it has one.
pub struct Name(pub Option<String>);

impl Name {
    /// A tag that holds a copy of `name`.
    pub fn new(name: &Option<String>) -> (tag: Self)
        ensures
            tag.0 == *name,
    {
        Self(name.clone())
    }
}

impl Default for Name {
    fn default() -> (tag: Self)
        ensures
            tag.0 is None,
    {
        Self(None)
    }
}

} // verus!

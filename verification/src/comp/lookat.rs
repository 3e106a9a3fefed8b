//! The component that records what an entity looks at.
use vstd::prelude::*;
use crate::types::Vec3;

verus! {

/// What an entity may look at, with the position of the current target.
#[derive(Clone, Copy, Debug, PartialEq, Eq)]
pub enum LookTarget<T> {
    ALL(Option<Vec3<T>>),
    PLAYER(Option<Vec3<T>>),
    ENTITY(Option<Vec3<T>>),
}

impl<T> LookTarget<T> {
    /// The position that the target carries, whatever its kind.
    pub open spec fn position(self) -> Option<Vec3<T>> {
        match self {
            LookTarget::ALL(val) => val,
            LookTarget::PLAYER(val) => val,
            LookTarget::ENTITY(val) => val,
        }
    }

    /// The target of the same kind as `self` that carries `val`.
    pub open spec fn with_position(self, val: Option<Vec3<T>>) -> Self {
        match self {
            LookTarget::ALL(_) => LookTarget::ALL(val),
            LookTarget::PLAYER(_) => LookTarget::PLAYER(val),
            LookTarget::ENTITY(_) => LookTarget::ENTITY(val),
        }
    }

    /// Takes the position out of a target.
    pub fn extract(target: Self) -> (val: Option<Vec3<T>>)
        ensures
            val == target.position(),
    {
        match target {
            LookTarget::ALL(val) => val,
            LookTarget::ENTITY(val) => val,
            LookTarget::PLAYER(val) => val,
        }
    }

    /// A target of the kind of `target` that looks at `val`.
    pub fn insert(target: &Self, val: Option<Vec3<T>>) -> (next: Self)
        ensures
            next == target.with_position(val),
    {
        match target {
            LookTarget::ALL(_) => LookTarget::ALL(val),
            LookTarget::ENTITY(_) => LookTarget::ENTITY(val),
            LookTarget::PLAYER(_) => LookTarget::PLAYER(val),
        }
    }
}

/// The look-at component of an entity.
#[derive(Clone, Copy, Debug, PartialEq, Eq)]
pub struct LookAt<T>(pub LookTarget<T>);

impl<T: Copy> LookAt<T> {
    /// A component that looks at a copy of `target`.
    pub fn new(target: &LookTarget<T>) -> (component: Self)
        ensures
            component.0 == *target,
    {
        Self(*target)
    }
}

} // verus!

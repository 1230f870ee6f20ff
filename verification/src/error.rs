//! The ways in which a description can fail.
use vstd::prelude::*;

verus! {

/// Why a description cannot be turned into generators.
///
/// The first four are faults of the description itself.  The last says that
/// the description is valid but names a shape that is not lowered yet.
#[derive(Clone, Copy, Debug, PartialEq, Eq, Structural)]
pub enum Error {
    /// The description holds no declaration at all.
    EmptyDescription,
    /// Two members of one struct, or two variants of one enumeration, share
    /// a name.
    DuplicateMember,
    /// An enumeration declares no variant, so it has no value to generate.
    NoVariants,
    /// The type is of a kind for which no equivalence classes are defined.
    NoPolicy,
    /// The shape is valid but not supported: an aggregate referred to by
    /// name alone, or a member of a user-defined aggregate that is not a
    /// named field.
    Unimplemented,
}

impl Error {
    /// The description is at fault, as opposed to this library.
    pub open spec fn is_description_error_spec(self) -> bool {
        self != Error::Unimplemented
    }

    /// Whether the description is at fault, as opposed to this library.
    pub fn is_description_error(&self) -> (r: bool)
        ensures
            r == self.is_description_error_spec(),
    {
        match self {
            Error::Unimplemented => false,
            _ => true,
        }
    }
}

} // verus!

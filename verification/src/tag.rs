//! Names of fault models and other tagged things.

use vstd::prelude::*;

verus! {

/// Something with a fixed kind name and an identifying name.
pub trait Tag {
    spec fn spec_tag() -> Seq<char>;

    spec fn spec_id(&self) -> Seq<char>;

    /// The name of the kind.
    fn tag() -> (r: String)
        ensures
            r@ == Self::spec_tag(),
    ;

    /// The name of this value.
    fn id(&self) -> (r: String)
        ensures
            r@ == self.spec_id(),
    ;
}

} // verus!

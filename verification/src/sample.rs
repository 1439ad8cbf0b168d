//! A fixture type of the analyser's sample crate: it is named by another crate
//! only through a qualified derive, with no `use`.

use vstd::prelude::*;

verus! {

/// A type whose only reference to its serialisation crate is a qualified
/// derive.
pub struct OnlyDerived {
    pub v: i32,
}

} // verus!

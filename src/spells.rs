use vstd::prelude::*;

verus! {

/// The element a spell's damage is dealt in.
#[derive(Clone, Copy, Debug, PartialEq, Eq, Hash, Structural)]
pub enum DamageElement {
    Darkness,
    Sonic,
    Holy,
    Fire,
    Frost,
}

} // verus!

//! The data of the example configuration that the embeditor embeds.
use vstd::prelude::*;

verus! {

/// A person, as the example application stores its configuration.
pub struct Person {
    pub name: String,
    pub id: u32,
}

} // verus!

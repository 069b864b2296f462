//! Identities of network peers.
use vstd::prelude::*;

verus! {

/// A peer's 32-byte identity.
#[derive(Debug, Clone, Copy, PartialEq, Eq, Hash)]
pub struct PeerId(pub [u8; 32]);

} // verus!

//! Winternitz one-time signatures (WOTS+) and the generic Merkle-tree
//! reduction used to combine one-time keys (the XMSS construction).
//!
//! Security rests on a collision-resistant hash function alone; the hash is
//! supplied by the caller through the [`WOtsPlus`] capability trait.

mod state;
mod signature;
mod xmss;

pub use crate::state::{Message, State, WOtsPlus};
pub use crate::signature::{PublicKey, SecretKey, Signature};
pub use crate::xmss::{XmssOperation, XmssPath, XmssTree};

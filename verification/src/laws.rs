//! What holds of every document and every packet.
use vstd::prelude::*;

pub mod characters;
pub mod collecting;
pub mod contents;
pub mod data;
pub mod escaping;
pub mod failures;
pub mod frame;
pub mod language;
pub mod lookup;
pub mod nesting;
pub mod order;
pub mod packet;
pub mod scope;
pub mod success;

verus! {

} // verus!

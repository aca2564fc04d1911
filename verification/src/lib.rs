//! The kitties logic of a blockchain runtime: creating, breeding, trading and
//! burying kitties, with the per-owner linked lists that index them.
pub mod dna;
pub mod hashing;
pub mod kitties;
pub mod laws;
pub mod linked_item;

pub use crate::dna::{combine_dna, mix_dna};
pub use crate::hashing::random_value;
pub use crate::kitties::{
    ensure_signed, lifespan_from_random, Config, DispatchError, Error, Event, Kitty, Module, Origin, Trait,
};
pub use crate::linked_item::{LinkedItem, LinkedList};

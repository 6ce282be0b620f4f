//! What holds of the library as a whole, over the model that the contracts of its
//! functions speak of.
pub mod batch;
pub mod birth;
pub mod budget;
pub mod change;
pub mod drive;
pub mod emit;
pub mod executor;
pub mod flags;
pub mod lifecycle;
pub mod links;
pub mod parts;
pub mod push;
pub mod queue;
pub mod reads;
pub mod runs;
pub mod steps;
pub mod tree;
pub mod valid;
pub mod verify;

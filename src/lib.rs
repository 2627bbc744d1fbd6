//! The arithmetization layer of a zero-knowledge proof system for a RISC-V machine: the
//! components that turn executed steps into trace rows over the Mersenne-31 field, the
//! constraints those rows satisfy, and the lookup entries that tie independently built
//! components together, with the laws that make the cross-component checks balance.
pub mod field;
pub mod word;
pub mod instruction;
pub mod logup;
pub mod execution;
pub mod add;
pub mod store;
pub mod cpu;
pub mod bitwise;
pub mod side_note;
pub mod multiplicity;
pub mod continuity;
pub mod zero_sum;
pub mod columns;

//! The state of a finite-domain constraint solver that backtracks by copying.
//!
//! A state is a fixed number of 32-bit words. A builder lays out the storage
//! of the variables of a model in those words, packing short bit fields
//! together by first fit; a pool hands out copies of a state in recycled
//! buffers; and a variable reads and narrows its domain, a bit mask, in
//! whatever state it is given.
//!
//! Every function is verified against a contract over the words of the
//! states and the sets of values of the domains.

pub mod common;
pub mod state;
pub mod variable;

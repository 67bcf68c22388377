pub mod bits;
pub mod domain;
pub mod narrowing;
pub mod state;
pub mod state_builder;
pub mod state_pool;
pub mod state_ref;
pub mod text;
pub mod variables;

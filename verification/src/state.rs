pub mod int_state;
pub mod int_state_builder;
pub mod int_state_pool;

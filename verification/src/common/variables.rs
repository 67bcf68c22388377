pub mod int_domain_var;
pub mod int_var;

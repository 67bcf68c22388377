pub mod int_small_domain_var;

//! Recording session writer: a registry of session keys and their output
//! files, with the init / append / finalize / read-back lifecycle.
pub mod naming;
pub mod registry;
pub mod lifecycle;

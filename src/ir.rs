//! The intermediate representations: three-address code and target instructions.
pub mod assembly;
pub mod tacky;

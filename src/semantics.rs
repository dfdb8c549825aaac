//! Semantic analysis: identifier resolution, arity and kind checking, loop labeling.
pub mod loop_labeler;
pub mod type_checker;
pub mod validator;

//! The syntax tree, in the shape the parser produces (`unchecked`) and in the
//! shape loop labeling produces (`checked`), where loops and jumps carry ids.
pub mod checked;
pub mod unchecked;

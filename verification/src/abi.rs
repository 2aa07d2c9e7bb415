//! The canonical flat encoding: lowering logical values to bytes and linear
//! memory, and lifting them back.

pub mod bytes;
pub mod cross;
pub mod laws;
pub mod layout;
pub mod lift;
pub mod lower;
pub mod memory;
pub mod model;
pub mod scalar;
pub mod unfold;

//! Supporting utilities: element/rest access into a room table, and the
//! affine transform stack.

pub mod split;
pub mod transform_stack;

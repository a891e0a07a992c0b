//! The values a cell can hold.

pub mod box_value;
pub mod float;
pub mod num;
pub mod value;

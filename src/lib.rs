//! Flat offsets of elements in N-dimensional arrays, for row-major and
//! column-major layouts, with the searches and the list used to exercise them.
pub mod laws;
pub mod linked_list;
pub mod offset;
pub mod search;
pub mod shape;

pub use linked_list::{create_list, search, Node};
pub use offset::{compute_offset, element_address, OffsetError, Order};
pub use search::{binary_search, linear_search};

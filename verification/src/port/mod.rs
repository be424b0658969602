//! Bounded containers: `BoundedArr`, `BoundedStr`, `Vmap`.

pub mod bounded_arr;
pub mod bounded_str;
pub mod error;
pub mod vmap;

pub use bounded_arr::BoundedArr;
pub use bounded_str::BoundedStr;
pub use error::PortError;
pub use vmap::Vmap;

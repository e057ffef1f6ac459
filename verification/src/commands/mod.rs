//! The operations of the library.

pub mod lint;

pub use self::lint::lint;
pub use crate::generator::generate;

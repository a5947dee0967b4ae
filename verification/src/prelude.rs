//! The crate's prelude.

pub use crate::{Distance, Dot, Vector};

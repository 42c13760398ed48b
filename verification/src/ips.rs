//! The patch format, its records and the patch container.

pub mod error;
pub mod laws;
pub mod patch;
pub mod record;
pub mod wire;

pub use error::{InvalidFormatCause, InvalidFormatError};
pub use patch::IPS;
pub use record::{Data, Record};

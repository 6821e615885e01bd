//! The order of the volumes of an archive.
pub use crate::archive::rar::extract_rar_number;
pub use crate::archive::rar::RarExt;

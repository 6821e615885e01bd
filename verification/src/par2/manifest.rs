//! The manifest of a recovery set.
pub use crate::archive::par2::DownloadTask;
pub use crate::archive::par2::FileInfo;
pub use crate::archive::par2::Par2Manifest;

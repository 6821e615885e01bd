//! Streaming a video out of a multi-volume RAR archive while its volumes
//! are still being downloaded from Usenet.
//!
//! The library holds what is decided and computed on the way from a
//! posting manifest to the bytes of the stream: reading the manifest and
//! the PAR2 recovery file, finding the payload of every RAR volume,
//! ordering the volumes, laying out the stream, choosing what to download
//! next by the health of the buffer, decoding yEnc articles, and answering
//! range requests. Every function states what it returns, and the
//! statements are proved.
//!
//! Sockets, files and the HTTP framework are not here: the library takes
//! and gives plain values.
pub mod archive;
pub mod byteseq;
pub mod error;
pub mod http;
pub mod mkv;
pub mod nntp;
pub mod nzb;
pub mod par2;
pub mod rar;
pub mod scheduler;
pub mod session;
pub mod stream;
pub mod streaming;
pub mod text;
pub mod vfs;

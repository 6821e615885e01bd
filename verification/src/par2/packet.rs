//! The packets of a PAR2 file.
pub use crate::archive::packet::FileDescPacket;
pub use crate::archive::packet::IFSCPacket;
pub use crate::archive::packet::MainPacket;
pub use crate::archive::packet::Packet;

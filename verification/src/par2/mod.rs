pub mod crc_laws;
pub mod deobfuscate;
pub mod error;
pub mod hash;
pub mod manifest;
pub mod matcher;
pub mod packet;
pub mod par2_crc32;
pub mod parser;
pub mod rar;

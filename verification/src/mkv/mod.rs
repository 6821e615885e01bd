pub mod extract;
pub mod mkv;

pub mod range;
pub mod response;
pub mod stream;

pub mod adaptive;
pub mod batch;
pub mod error;
pub mod job_processor;
pub mod queue;
pub mod writer;

pub mod error;
pub mod orchestrator;
pub mod segment_tracker;
pub mod virtual_file_streamer;

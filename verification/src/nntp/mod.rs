pub mod article;
pub mod body;
pub mod client;
pub mod config;
pub mod connection;
pub mod error;
pub mod live;
pub mod mock;
pub mod pool;
pub mod simple;
pub mod types;
pub mod yenc;

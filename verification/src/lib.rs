pub mod text;
pub mod chunker;
pub mod path;
pub mod file_filter;
pub mod types;
pub mod store;
pub mod hashing;
pub mod service;
pub mod sync;
pub mod projects;
pub mod queue;
pub mod json;
pub mod translate;
pub mod live;
pub mod speech;
pub mod segments;
pub mod config;
pub mod capture;

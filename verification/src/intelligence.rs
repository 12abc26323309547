//! Local language models: which one to suggest, where to find the server, and
//! how to read what it sends.

pub mod chat;
pub mod gpu_detect;
pub mod ollama_api;
pub mod ollama_manager;
pub mod watcher;

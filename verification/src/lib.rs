//! Verified core of RAGit: an on-device retrieval-augmented chat assistant.
//! The library holds the decisions and text processing of the application;
//! the thin shell around it performs file, network and process work.
pub mod hardware;
pub mod catalog;
pub mod chat;
pub mod download;
pub mod engine;
pub mod text;
pub mod rag;
pub mod team;

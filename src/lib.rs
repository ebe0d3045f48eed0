//! Coordination of distributed text-to-speech work: worker configuration and
//! pool, job scheduling, the worker wire protocol, resumable sessions, and the
//! text and metadata helpers around them.
pub mod chars;
pub mod config;
pub mod protocol;
pub mod transport;
pub mod pool;
pub mod scheduler;
pub mod dispatch;
pub mod reporting;
pub mod session;
pub mod store;
pub mod voices;
pub mod cleaner;
pub mod bootstrap;
pub mod book;
pub mod metadata;
pub mod epub_text;
pub mod lookup;
pub mod commands;
pub mod chunker;
pub mod naming;
pub mod chapters;
pub mod assembly;
pub mod planning;
pub mod checkpoint;

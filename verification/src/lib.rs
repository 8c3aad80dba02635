//! Context memory for LLM conversations: messages kept per session, recalled
//! by recency, by keyword matching or by a bag-of-characters similarity.
pub mod config;
pub mod keywords;
pub mod local;
pub mod rank;
pub mod recall;
pub mod sql;
pub mod text;
pub mod types;
pub mod vector;

pub use config::{Backend, ConfigError, DatabaseConfig, MemContextConfig};
pub use local::LocalDatabase;
pub use recall::RecallResult;
pub use types::{ClockError, DatabaseType, Message, MessageView, Role, StorageType, Timestamp};

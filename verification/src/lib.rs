//! Records, imports and searches shell history.

pub mod batching;
pub mod choice;
pub mod command;
pub mod database;
pub mod diff;
pub mod error;
pub mod execution;
pub mod init;
pub mod lines;
pub mod parser;
pub mod record;
pub mod rows;
pub mod shell;
pub mod sqlite;
pub mod text;
pub mod truncate;

pub use command::Command;
pub use error::Error;
pub use execution::Execution;
pub use sqlite::FromRow;

//! Repository index for quick navigation between git working copies: a ranked
//! record store, its binary file format, and the matching rules that resolve a
//! short query to a tracked repository.
//!
//! * `db` holds the record store, the keyword cache and the byte layout of
//!   their files.
//! * `cmd` holds the arguments of the commands and what each command decides;
//!   `cmd::home` resolves a query to a record.
//! * `config` holds the configuration.
//! * `util` holds what is made of the answers of git, of the selector and of
//!   the disk: the steps of an atomic write among them.
//! * `api` holds what is asked of a hosting service.
//! * `text` holds the predicates on texts that the contracts are stated in.
//!
//! Nothing here reads a file, runs a program or asks the user: the caller
//! does, and hands over what it found.

pub mod api;
pub mod cmd;
pub mod config;
pub mod db;
pub mod errors;
pub mod text;
pub mod util;

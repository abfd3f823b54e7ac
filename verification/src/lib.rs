//! A verified core for an SSH terminal client: the ANSI filter and terminal
//! buffer, the connection store and dialog state, key encoding, and the
//! decryption of stored session secrets.
pub mod connection;
pub mod editor;
pub mod keys;
pub mod secret;
pub mod shell;
pub mod terminal;
pub mod text;

//! The decisions behind a self-hosted parental-control server for managed
//! Android phones: what is stored, who is let in, what each phone has to
//! enforce, and when backups and updates are due.
//!
//! Everything here is a function of plain values. Reading the database, the
//! network and the file system, and writing to them, is left to the program
//! around this library.

pub mod dns_engine;
pub mod forms;
pub mod handlers;
pub mod models;
pub mod numbers;
pub mod order;
pub mod outside;
pub mod packing;
pub mod schedule;
pub mod security;
pub mod text;

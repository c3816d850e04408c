pub mod announcement;
pub mod cleanup;
pub mod clock;
pub mod config;
pub mod error;
pub mod ip;
pub mod laws;
pub mod order;
pub mod peer_info;
pub mod peer_info_database;
pub mod peer_table;
pub mod preservation;
pub mod saver;
pub mod selection;
pub mod state;
pub mod totals;

//! A lending vault and a forwarding account, as verified state machines.
pub mod account;
pub mod address;
pub mod borrowers;
pub mod callback;
pub mod config;
pub mod contract;
pub mod decimal;
pub mod effects;
pub mod error;
pub mod events;
pub mod interest;
pub mod laws;
pub mod message;
pub mod msg;
pub mod payment;
pub mod pool;
pub mod state;
pub mod token;
pub mod version;

//! The state and the rules of a liquidation bot for a lending pool.
pub mod address;
pub mod cache;
pub mod dispatch;
pub mod events;
pub mod float;
pub mod health;
pub mod laws;
pub mod market;
pub mod matrix;
pub mod number_laws;
pub mod probe;
pub mod provider;
pub mod ray;
pub mod report_laws;
pub mod reserves;
pub mod state_laws;
pub mod stats;
pub mod sync;
pub mod tokens;
pub mod types;
pub mod uint;
pub mod userdata;
pub mod users;

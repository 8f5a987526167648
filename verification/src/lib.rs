//! Lockstep simulation server: clients register, and the simulation advances by one step each
//! time every participating client has reported that it is ready.

pub mod barrier;
pub mod channel;
pub mod client;
pub mod controller;
pub mod coordinator;
pub mod history;
pub mod interface;
pub mod link;
pub mod registry;
pub mod server;
pub mod service;
pub mod shutdown;
pub mod simulator;
pub mod sync_client;
pub mod text;
pub mod visualizer;

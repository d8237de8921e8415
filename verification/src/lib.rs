//! Event aggregation for ktrl: focus and external events come in, layer
//! requests go out when every requirement of an aggregator is met or stops
//! being met.
pub mod aggregator;
pub mod config;
pub mod conn;
pub mod events;
pub mod gateway;
pub mod i3_focus;
pub mod ktrl_client;
pub mod message;
pub mod server;
pub mod text;

//! MiniBus: an in-memory message bus and service registry, as a verified core.
//!
//! `bus` holds the whole state and moves it on request by request; the other
//! modules are its parts: names (`short_text`), the wire forms (`utils`,
//! `packet`), the brokers, the state of a client (`entity`), the registry,
//! the shared bucket, the commands (`gateway`) and the answers of the HTTP
//! view (`webgateway`).

pub mod short_text;
pub mod utils;
pub mod table;
pub mod packet;
pub mod broker;
pub mod entity;
pub mod registry;
pub mod shared;
pub mod gateway;
pub mod bus;
pub mod webgateway;

//! Gym records with membership and services, kept in durable memory.
//!
//! The durable region is split into partitions: one holds the id counter,
//! another the gym table, whose entries are the byte form of each gym. The
//! operations validate and authorise each request before they issue an id or
//! touch the table.
pub mod codec;
pub mod ids;
pub mod laws;
pub mod model;
pub mod partition;
pub mod service;
pub mod store;

//! A sans-I/O CardDAV protocol engine. The library builds HTTP request
//! bytes, frames responses out of arbitrarily chunked byte deliveries,
//! parses WebDAV `multistatus` documents, and runs every CardDAV
//! operation and the home-discovery sequence as resumable state machines
//! that only ever ask their driver for reads, writes and reconnects.

pub mod backend;
pub mod commands;
pub mod discovery;
pub mod flow;
pub mod framer;
pub mod model;
pub mod ops;
pub mod request;
pub mod scan;
pub mod xml;

//! Verified core of a set of WebAssembly component experiments: byte
//! counting components and their benchmarking hosts, and DLT parser plugins
//! that turn a parser's raw outcomes into the plugin interface's results.
pub mod counting;
pub mod plugin;
pub mod session;

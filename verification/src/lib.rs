//! A runtime plugin host: resolves logical plugin names to shared-library
//! paths, tracks the load/unload lifecycle of mapped plugin libraries, and
//! keeps the bookkeeping for hot-reload directory watching.
//!
//! The manager's state machine, the name resolver and the linker-cache
//! parsing are verified here. The host binary performs the actual dynamic
//! linking, filesystem probing and watcher plumbing, and feeds their
//! outcomes in as plain values.
pub mod handles;
pub mod manager;
pub mod resolver;

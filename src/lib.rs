//! The front-end side of an editor whose buffers live in a separate core
//! process: the JSON-RPC request table, the queue that hands the core's
//! notifications to the UI thread, and the per-view line caches that the
//! core's update batches keep in step.

pub mod json;
pub mod linecache;
pub mod rpc;
pub mod channel;
pub mod decode;
pub mod controller;

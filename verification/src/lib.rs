//! A JSON-RPC batch-dispatch core: typed request descriptors are turned into
//! correlated wire envelopes, partitioned into chunks, and the per-chunk
//! results are merged back into one ordered sequence under an all-or-nothing
//! failure policy. The HTTP transport itself lives outside this crate; the
//! logic here is pure and carries full functional contracts.

pub mod dispatch;
pub mod error;
pub mod http;
pub mod jsonrpc;

pub use error::ClientError;

//! Verified core of a multi-era chain indexer: a block decoder with a
//! header-only fallback path, a validated task-dependency execution plan,
//! an executor that threads intermediate outputs between extraction tasks,
//! an ingestion controller that sequences block-arrival and rollback events
//! over a persisted chain store, and a performance aggregator that gates
//! epoch-level reporting.

pub mod era;
pub mod hexcodec;
pub mod cbor;
pub mod block;
pub mod catalyst_txn;
pub mod store;
pub mod perf;
pub mod plan;
pub mod task;
pub mod exec;
pub mod trusted;
pub mod decode;
pub mod sink;

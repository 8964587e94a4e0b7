//! Per-tenant query accounting for a database server: the wire record that
//! crosses the kernel boundary, the call tracker that pairs entries with
//! returns, tenant extraction, the per-core drain and the aggregate.

pub mod schema;
pub mod queue;
pub mod tracker;
pub mod tenant;
pub mod aggregate;
pub mod drain;
pub mod pipeline;

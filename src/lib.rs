//! A live registry of named, typed message topics, the reconciliation of
//! discovery results into it, and the read-only query over it.

pub mod history;
pub mod poller;
pub mod registry;
pub mod topic;

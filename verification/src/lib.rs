//! Two-level work balancing: a dataset is split across the ranks of a
//! process group, each rank maps its share on its own threads, and the
//! outputs are gathered on the root rank in rank order.
//!
//! The library decides and computes; it does not talk to the group. A
//! collective operation is a session that names one action at a time for
//! its driver to carry out on the transport.

pub mod balancer;
pub mod collection;
pub mod distribution;
pub mod laws;
pub mod partition;
pub mod transport;

//! Core logic of a concurrent TCP port scanner: the residue-class scheme that
//! partitions the port space among independent workers, the aggregation of
//! discovered ports into a sorted report, and the command-line decisions.
//!
//! Networking, threads, and process glue live outside this crate; everything
//! here is pure logic over plain values and is verified.

pub mod cli;
pub mod ports;
pub mod report;
pub mod scan;

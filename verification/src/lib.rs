//! A virtual filesystem engine that presents a cluster's namespaces and pods
//! as a directory tree addressed by stable node identifiers.
//!
//! The library holds the node table and the rules of every filesystem
//! operation. Running `kubectl` and talking to the kernel are left to the
//! caller, which hands the outcome of each external command back as a plain
//! value.

pub mod filesystem;
pub mod tree_proofs;
pub mod k8s_resource;
pub mod kubectl;
pub mod laws;

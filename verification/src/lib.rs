//! Reclamation of test-scoped device-mapper devices and mounted filesystems.
//!
//! Resources created during automated testing carry a fixed marker substring
//! in their names.  This crate recognises marked resources and decides, step
//! by step, how to tear them down: unmount marked filesystems first (failing
//! fast), then remove marked device-mapper devices by repeated best-effort
//! passes until no pass makes progress.  The kernel-facing work itself
//! (reading the mount table, unmounting, talking to the device-mapper
//! control channel) is performed by the caller, who runs the decision
//! machine in [`cleanup`] and reports each outcome back to it.

pub mod cleanup;
pub mod errors;
pub mod naming;

//! Versioned instance specifications for a hypervisor control plane.
//!
//! An *instance spec* is the canonical description of a virtual machine's
//! hardware: a board (CPUs, memory, chipset, CPUID policy) plus a name-keyed
//! collection of device and backend components. This crate provides the
//! versioned wire-form data model, an incremental validating builder, the
//! backend-linked grouped form used by a running instance with lossless
//! conversion to and from the wire form, and the migration-compatibility
//! protocol that decides whether a running VM may continue on a target host
//! configured from another spec.

pub mod backends;
pub mod board;
pub mod builder;
pub mod convert;
pub mod devices;
pub mod grouped;
pub mod grouping;
pub mod migrate;
pub mod migration;
pub mod pci;
pub mod resolve;
pub mod v0;

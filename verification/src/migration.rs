//! Errors produced by the migration-compatibility protocol.
//!
//! Before a live migration proceeds, the spec describing the running VM is
//! compared against the spec the target host was configured from. The
//! comparison is fail-fast: composite values compare their parts in a fixed
//! order and report the first mismatch, wrapped so that the caller can tell
//! exactly which field or which named component was incompatible.

use vstd::prelude::*;

verus! {

/// An incompatibility between two same-named entities, one from each side of
/// a proposed migration.
#[derive(Clone, Debug)]
pub enum ElementCompatibilityError {
    /// The two components are of different kinds and cannot be compared at
    /// all. Carries both kind names.
    ComponentsIncomparable(&'static str, &'static str),

    /// Two boards (or board sub-elements) are incompatible.
    BoardsIncompatible(crate::board::MigrationCompatibilityError),

    /// Two components of the same kind have guest-visible configuration
    /// that differs. Carries both compared components.
    ComponentMismatch(crate::v0::ComponentV0, crate::v0::ComponentV0),
}

/// An incompatibility between two name-keyed collections of components.
#[derive(Clone, Debug)]
pub enum CollectionCompatibilityError {
    /// The other collection has a component with this name, but this
    /// collection does not.
    SelfMissingElement(String),

    /// This collection has a component with this name, but the other
    /// collection does not.
    OtherMissingElement(String),

    /// Both collections have a component with this name, but the two
    /// components are incompatible.
    ElementMismatch(String, ElementCompatibilityError),
}

/// The top-level verdict of a failed spec-to-spec compatibility check,
/// naming the element or collection that failed.
#[derive(Clone, Debug)]
pub enum MigrationCompatibilityError {
    /// A single named element (such as the board) was incompatible.
    ElementMismatch(String, ElementCompatibilityError),

    /// A named collection (such as the component map) was incompatible.
    CollectionMismatch(String, CollectionCompatibilityError),
}

} // verus!

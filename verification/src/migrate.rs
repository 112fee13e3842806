//! The migration preamble: the first handshake message of a live
//! migration, carrying the source VM's instance spec.

use vstd::prelude::*;

use crate::migration::MigrationCompatibilityError;
use crate::v0::InstanceSpecV0;

verus! {

/// An instance spec together with the version of the spec structure it
/// uses. New spec versions add variants here.
#[derive(Clone, Debug)]
pub enum VersionedInstanceSpec {
    V0(InstanceSpecV0),
}

/// The payload exchanged at the start of a live migration: the source VM's
/// versioned instance spec, plus opaque per-component auxiliary data. The
/// blobs are carried but not yet interpreted by the compatibility check.
#[derive(Clone, Debug)]
pub struct Preamble {
    pub instance_spec: VersionedInstanceSpec,
    pub blobs: Vec<Vec<u8>>,
}

impl Preamble {
    /// Well-formed: the carried spec has unique component names.
    pub open spec fn wf(self) -> bool {
        match self.instance_spec {
            VersionedInstanceSpec::V0(s) => s.wf(),
        }
    }

    /// Wraps a spec into a preamble with no auxiliary data. The blobs are
    /// populated by the surrounding runtime before transmission.
    pub fn new(instance_spec: VersionedInstanceSpec) -> (r: Preamble)
        ensures
            r.instance_spec == instance_spec,
            r.blobs@.len() == 0,
    {
        Preamble { instance_spec, blobs: Vec::new() }
    }

    /// Decides whether the VM this preamble describes may be continued by a
    /// VM configured from `other_spec`. Auxiliary blobs are deliberately
    /// not compared.
    pub fn is_migration_compatible(&self, other_spec: &InstanceSpecV0) -> (r: Result<
        (),
        MigrationCompatibilityError,
    >)
        requires
            self.wf(),
            other_spec.wf(),
        ensures
            r is Ok <==> (match self.instance_spec {
                VersionedInstanceSpec::V0(s) => s.compatible_with(*other_spec),
            }),
            r matches Err(MigrationCompatibilityError::ElementMismatch(tag, e)) ==> (match self
                .instance_spec {
                VersionedInstanceSpec::V0(s) => tag@ == "board"@ && s.board.error_describes(
                    other_spec.board,
                    e,
                ),
            }),
            r matches Err(MigrationCompatibilityError::CollectionMismatch(tag, e)) ==> (match self
                .instance_spec {
                VersionedInstanceSpec::V0(s) => tag@ == "components"@ && s.board.compatible_with(
                    other_spec.board,
                ) && s.components.error_describes(other_spec.components, e),
            }),
    {
        let VersionedInstanceSpec::V0(this_spec) = &self.instance_spec;
        match this_spec.can_migrate_from(other_spec) {
            Ok(_) => Ok(()),
            Err(e) => Err(e),
        }
    }
}

} // verus!

//! Backend components: the suppliers of guest data for device components.
//! A backend never occupies a PCI slot; it is bound to exactly one device by
//! name.

use vstd::prelude::*;

verus! {

/// A storage backend backed by a networked block-storage volume. The
/// construction request is carried as an opaque serialized document.
#[derive(Clone, Debug, PartialEq, Eq)]
pub struct CrucibleStorageBackend {
    /// A serialized volume construction request for the backend's volume.
    pub request_json: String,
    /// Whether the storage is read-only.
    pub readonly: bool,
}

/// A storage backend backed by a file on the host.
#[derive(Clone, Debug, PartialEq, Eq)]
pub struct FileStorageBackend {
    /// The path to the file that backs the volume.
    pub path: String,
    /// Whether the storage is read-only.
    pub readonly: bool,
}

/// A storage backend backed by an in-memory blob, carried base64-encoded.
#[derive(Clone, Debug, PartialEq, Eq)]
pub struct BlobStorageBackend {
    /// The base64-encoded contents of the volume.
    pub base64: String,
    /// Whether the storage is read-only.
    pub readonly: bool,
}

/// A network backend attached to a kernel-bypass virtual NIC on the host.
#[derive(Clone, Debug, PartialEq, Eq)]
pub struct VirtioNetworkBackend {
    /// The name of the host virtual NIC to bind to.
    pub vnic_name: String,
}

/// A network backend attached to a raw host data link.
#[derive(Clone, Debug, PartialEq, Eq)]
pub struct DlpiNetworkBackend {
    /// The name of the host data link to bind to.
    pub vnic_name: String,
}

impl CrucibleStorageBackend {
    /// Returns a component equal to this one.
    pub fn duplicate(&self) -> (r: Self)
        ensures
            r == *self,
    {
        CrucibleStorageBackend { request_json: self.request_json.clone(), readonly: self.readonly }
    }
}

impl FileStorageBackend {
    /// Returns a component equal to this one.
    pub fn duplicate(&self) -> (r: Self)
        ensures
            r == *self,
    {
        FileStorageBackend { path: self.path.clone(), readonly: self.readonly }
    }
}

impl BlobStorageBackend {
    /// Returns a component equal to this one.
    pub fn duplicate(&self) -> (r: Self)
        ensures
            r == *self,
    {
        BlobStorageBackend { base64: self.base64.clone(), readonly: self.readonly }
    }
}

impl VirtioNetworkBackend {
    /// Returns a component equal to this one.
    pub fn duplicate(&self) -> (r: Self)
        ensures
            r == *self,
    {
        VirtioNetworkBackend { vnic_name: self.vnic_name.clone() }
    }
}

impl DlpiNetworkBackend {
    /// Returns a component equal to this one.
    pub fn duplicate(&self) -> (r: Self)
        ensures
            r == *self,
    {
        DlpiNetworkBackend { vnic_name: self.vnic_name.clone() }
    }
}

/// A storage backend of any supported kind.
#[derive(Clone, Debug, PartialEq, Eq)]
pub enum StorageBackend {
    Crucible(CrucibleStorageBackend),
    File(FileStorageBackend),
    Blob(BlobStorageBackend),
}

impl StorageBackend {
    /// Returns a backend description equal to this one.
    pub fn duplicate(&self) -> (r: Self)
        ensures
            r == *self,
    {
        match self {
            StorageBackend::Crucible(b) => StorageBackend::Crucible(b.duplicate()),
            StorageBackend::File(b) => StorageBackend::File(b.duplicate()),
            StorageBackend::Blob(b) => StorageBackend::Blob(b.duplicate()),
        }
    }
}

} // verus!

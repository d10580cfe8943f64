//! The release this binary carries, behind the bundle interface.
//!
//! Every landing verb reads through this in the ordinary case, so the whole
//! suite exercises the boundary rather than a path only another release
//! takes. The files are the payload compiled into the binary, gathered by
//! the command layer and handed in once.

use vstd::prelude::*;

use crate::digest::Sha256;
use crate::release::{
    blob_from, blobs, is_manifest_of, manifest_from, serves, FileMap, Provenance, ReleaseError,
    ReleaseManifest,
};

verus! {

/// The release this binary carries.
#[derive(Debug)]
pub struct EmbeddedReleaseBundle {
    version: String,
    payload_schema: u32,
    files: FileMap,
}

impl EmbeddedReleaseBundle {
    /// The release this bundle is.
    pub closed spec fn release(self) -> Seq<char> {
        self.version@
    }

    /// The protocol version it declares.
    pub closed spec fn schema(self) -> u32 {
        self.payload_schema
    }

    /// The payload files it carries.
    pub closed spec fn payload(self) -> FileMap {
        self.files
    }

    /// The bundle this binary is: its own release, the protocol version its
    /// projection declares, and every embedded payload file.
    pub fn new(version: String, payload_schema: u32, files: FileMap) -> (b: EmbeddedReleaseBundle)
        ensures
            b.release() == version@,
            b.schema() == payload_schema,
            b.payload() == files,
    {
        EmbeddedReleaseBundle { version, payload_schema, files }
    }

    /// What this bundle says about itself.
    pub fn manifest(&self) -> (m: ReleaseManifest)
        ensures
            is_manifest_of(
                m,
                self.release(),
                self.schema(),
                Provenance::Native,
                None,
                self.payload().ordered(),
                Seq::empty(),
            ),
    {
        let none = FileMap::new();
        manifest_from(
            self.version.clone(),
            self.payload_schema,
            Provenance::Native,
            None,
            &self.files,
            &none,
        )
    }

    /// One artifact's bytes, by digest.
    pub fn blob(&self, digest: &Sha256) -> (r: Result<Vec<u8>, ReleaseError>)
        ensures
            serves(r, blobs(self.payload().ordered(), Seq::empty()), digest@),
    {
        let none = FileMap::new();
        blob_from(&self.files, &none, digest)
    }
}

} // verus!

//! A set of files served as a bundle, for tests.
//!
//! The seam's third implementation exists so a test can describe a release
//! the binary does not carry without reaching a registry. It is the only
//! bundle whose bytes nobody verified, so nothing outside a test builds
//! one.

use vstd::prelude::*;

use crate::digest::Sha256;
use crate::release::{
    blob_from, blobs, is_manifest_of, manifest_from, serves, FileMap, Provenance, ReleaseError,
    ReleaseManifest,
};

verus! {

/// A release read from a directory tree, or given directly.
#[derive(Debug)]
pub struct FixtureReleaseBundle {
    version: String,
    payload_schema: u32,
    files: FileMap,
}

impl FixtureReleaseBundle {
    /// The release this bundle is.
    pub closed spec fn release(self) -> Seq<char> {
        self.version@
    }

    /// The protocol version it declares.
    pub closed spec fn schema(self) -> u32 {
        self.payload_schema
    }

    /// The payload files it carries.
    pub closed spec fn payload(self) -> FileMap {
        self.files
    }

    /// A release built from paths and bytes given directly.
    pub fn of(version: String, payload_schema: u32, files: FileMap) -> (b: FixtureReleaseBundle)
        ensures
            b.release() == version@,
            b.schema() == payload_schema,
            b.payload() == files,
    {
        FixtureReleaseBundle { version, payload_schema, files }
    }

    /// What this bundle says about itself.
    pub fn manifest(&self) -> (m: ReleaseManifest)
        ensures
            is_manifest_of(
                m,
                self.release(),
                self.schema(),
                Provenance::Native,
                None,
                self.payload().ordered(),
                Seq::empty(),
            ),
    {
        let none = FileMap::new();
        manifest_from(
            self.version.clone(),
            self.payload_schema,
            Provenance::Native,
            None,
            &self.files,
            &none,
        )
    }

    /// One artifact's bytes, by digest.
    pub fn blob(&self, digest: &Sha256) -> (r: Result<Vec<u8>, ReleaseError>)
        ensures
            serves(r, blobs(self.payload().ordered(), Seq::empty()), digest@),
    {
        let none = FileMap::new();
        blob_from(&self.files, &none, digest)
    }
}

} // verus!

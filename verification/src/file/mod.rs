//! What is known of the file to transfer, and how it is cut into blocks.

pub mod utils;

use crate::transport::HandshakeV1;
use vstd::prelude::*;

verus! {

/// The name given to a file whose path ends in no name that is valid text.
pub const UNNAMED_FILE: &'static str = "unnamed_file";

/// Name, size and fingerprint of the file to transfer.
#[derive(Debug)]
pub struct FileMetadata {
    name: String,
    size: u64,
    hash: [u8; 32],
}

impl FileMetadata {
    /// The name of the file.
    pub closed spec fn spec_name(&self) -> Seq<char> {
        self.name@
    }

    /// The size of the file in bytes.
    pub closed spec fn spec_size(&self) -> u64 {
        self.size
    }

    /// The fingerprint of the file.
    pub closed spec fn spec_hash(&self) -> Seq<u8> {
        self.hash@
    }

    /// Creates the metadata of a file from its name, size and fingerprint.
    pub fn new(filename: String, filesize: u64, filehash: [u8; 32]) -> (metadata: Self)
        ensures
            metadata.spec_name() == filename@,
            metadata.spec_size() == filesize,
            metadata.spec_hash() == filehash@,
    {
        Self { name: filename, size: filesize, hash: filehash }
    }

    /// Creates the metadata of a file from the last component of its path,
    /// where that is valid text, its size and its fingerprint. A file without
    /// such a name is called `unnamed_file`.
    pub fn from_parts(file_name: Option<&str>, filesize: u64, filehash: [u8; 32]) -> (metadata:
        Self)
        ensures
            metadata.spec_name() == match file_name {
                Some(name) => name@,
                None => UNNAMED_FILE@,
            },
            metadata.spec_size() == filesize,
            metadata.spec_hash() == filehash@,
    {
        let name = match file_name {
            Some(name) => name.to_owned(),
            None => UNNAMED_FILE.to_owned(),
        };
        Self { name, size: filesize, hash: filehash }
    }

    /// Returns the name of the file.
    pub fn name(&self) -> (name: &str)
        ensures
            name@ == self.spec_name(),
    {
        self.name.as_str()
    }

    /// Returns the size of the file in bytes.
    pub fn size(&self) -> (size: u64)
        ensures
            size == self.spec_size(),
    {
        self.size
    }

    /// Returns the fingerprint of the file.
    pub fn hash(&self) -> (hash: [u8; 32])
        ensures
            hash@ == self.spec_hash(),
    {
        self.hash
    }

    /// The handshake that announces the file, to be sent in blocks of
    /// `block_size` bytes over `concurrency` connections.
    pub fn handshake<'a>(&'a self, block_size: u32, concurrency: u16) -> (handshake: HandshakeV1<
        'a,
    >)
        ensures
            handshake.file_hash@ == self.spec_hash(),
            handshake.total_size == self.spec_size(),
            handshake.concurrency == concurrency,
            handshake.file_name@ == self.spec_name(),
            handshake.block_size == block_size,
    {
        HandshakeV1 {
            file_hash: self.hash.as_slice(),
            total_size: self.size,
            concurrency,
            file_name: self.name.as_str(),
            block_size,
        }
    }
}

} // verus!

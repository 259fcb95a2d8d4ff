use crate::datatype::DataType;
use crate::error::ContainerError;
use crate::header_binary_v0::{decoded, HeaderBinaryV0};
use vstd::prelude::*;

verus! {

/// The metadata of one entry, as the program works with it.
#[derive(Clone, Hash, Debug, Eq, Ord, PartialOrd, PartialEq)]
pub struct HeaderV0 {
    /// Format revision.
    pub version: u16,
    /// What the entry stores.
    pub datatype: DataType,
    /// Human-readable label, at most 128 bytes of UTF-8.
    pub name: String,
    /// Creation time in seconds since the Unix epoch.
    pub created: u64,
    /// Time of the last change in seconds since the Unix epoch.
    pub edited: u64,
    /// Name of the file the payload belongs to, at most 128 bytes of UTF-8.
    pub file_name: String,
    /// The chunk size the payload was produced with.
    pub buffer_size: u64,
}

/// A header as a mathematical value: the view of a [`HeaderV0`].
pub struct LogicalHeader {
    pub version: u16,
    pub datatype: DataType,
    pub name: Seq<char>,
    pub created: u64,
    pub edited: u64,
    pub file_name: Seq<char>,
    pub buffer_size: u64,
}

impl View for HeaderV0 {
    type V = LogicalHeader;

    open spec fn view(&self) -> LogicalHeader {
        LogicalHeader {
            version: self.version,
            datatype: self.datatype,
            name: self.name@,
            created: self.created,
            edited: self.edited,
            file_name: self.file_name@,
            buffer_size: self.buffer_size,
        }
    }
}

impl HeaderV0 {
    /// Reads a binary header: checks the magic number, the version and the
    /// datatype, and takes the two texts without their padding.
    pub fn from_binary_header(binary_header: &HeaderBinaryV0) -> (header: Result<
        Self,
        ContainerError,
    >)
        ensures
            match header {
                Ok(h) => decoded(binary_header.wire()) == Ok::<LogicalHeader, ContainerError>(h@),
                Err(e) => decoded(binary_header.wire()) == Err::<LogicalHeader, ContainerError>(e),
            },
    {
        binary_header.to_header()
    }
}

} // verus!

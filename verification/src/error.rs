use vstd::prelude::*;

verus! {

/// Every way an operation of this library can fail.
#[derive(Clone, Copy, Debug, PartialEq, Eq, Structural)]
pub enum ContainerError {
    /// The first bytes are not the format's magic number.
    InvalidMagicNumber,
    /// The header's version is not one this library reads.
    UnsupportedVersion,
    /// Fewer bytes than a whole record needs.
    TruncatedRecord,
    /// A text field does not fit its fixed slot.
    FieldTooLong,
    /// A text field is not UTF-8.
    InvalidUtf8,
    /// The datatype byte stands for no known variant.
    UnknownDataType,
    /// No key could be derived from the password and the salt.
    KeyDerivationFailed,
    /// The ciphertext does not authenticate under the derived key.
    AuthenticationFailed,
    /// The plaintext is longer than the cipher accepts.
    PayloadTooLong,
    /// The backing file gave fewer bytes than the chunk needs.
    ShortRead,
    /// Every byte of the file has been read.
    EndOfFile,
    /// The next offset does not fit in 64 bits.
    OffsetOverflow,
}

/// The family a [`ContainerError`] belongs to.
#[derive(Clone, Copy, Debug, PartialEq, Eq, Structural)]
pub enum ErrorKind {
    Format,
    Codec,
    Crypto,
    Io,
}

impl ContainerError {
    /// The family each error belongs to.
    pub open spec fn family(self) -> ErrorKind {
        match self {
            ContainerError::InvalidMagicNumber => ErrorKind::Format,
            ContainerError::UnsupportedVersion => ErrorKind::Format,
            ContainerError::TruncatedRecord => ErrorKind::Format,
            ContainerError::FieldTooLong => ErrorKind::Format,
            ContainerError::InvalidUtf8 => ErrorKind::Codec,
            ContainerError::UnknownDataType => ErrorKind::Codec,
            ContainerError::KeyDerivationFailed => ErrorKind::Crypto,
            ContainerError::AuthenticationFailed => ErrorKind::Crypto,
            ContainerError::PayloadTooLong => ErrorKind::Crypto,
            ContainerError::ShortRead => ErrorKind::Io,
            ContainerError::EndOfFile => ErrorKind::Io,
            ContainerError::OffsetOverflow => ErrorKind::Io,
        }
    }

    pub fn kind(&self) -> (kind: ErrorKind)
        ensures
            kind == self.family(),
    {
        match self {
            ContainerError::InvalidMagicNumber
            | ContainerError::UnsupportedVersion
            | ContainerError::TruncatedRecord
            | ContainerError::FieldTooLong => ErrorKind::Format,
            ContainerError::InvalidUtf8 | ContainerError::UnknownDataType => ErrorKind::Codec,
            ContainerError::KeyDerivationFailed
            | ContainerError::AuthenticationFailed
            | ContainerError::PayloadTooLong => ErrorKind::Crypto,
            ContainerError::ShortRead
            | ContainerError::EndOfFile
            | ContainerError::OffsetOverflow => ErrorKind::Io,
        }
    }
}

} // verus!

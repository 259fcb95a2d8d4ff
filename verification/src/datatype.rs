use vstd::prelude::*;

verus! {

/// What an entry stores. The wire code of each variant is part of the
/// on-disk format and never changes.
#[derive(Clone, Copy, Hash, Debug, Eq, Ord, PartialOrd, PartialEq, Structural)]
pub enum DataType {
    Password,
    File,
}

impl DataType {
    /// The byte that stands for this variant in a binary header.
    pub open spec fn wire_code(self) -> u8 {
        match self {
            DataType::Password => 0,
            DataType::File => 1,
        }
    }

    /// The variant that a header byte stands for, if any.
    pub open spec fn of_wire_code(code: u8) -> Option<DataType> {
        if code == 0 {
            Some(DataType::Password)
        } else if code == 1 {
            Some(DataType::File)
        } else {
            None
        }
    }

    /// The human-readable name of the variant.
    pub open spec fn label(self) -> Seq<char> {
        match self {
            DataType::Password => "Password"@,
            DataType::File => "File"@,
        }
    }

    pub fn code(&self) -> (code: u8)
        ensures
            code == self.wire_code(),
    {
        match self {
            DataType::Password => 0,
            DataType::File => 1,
        }
    }

    pub fn from_code(code: u8) -> (datatype: Option<DataType>)
        ensures
            datatype == Self::of_wire_code(code),
    {
        if code == 0 {
            Some(DataType::Password)
        } else if code == 1 {
            Some(DataType::File)
        } else {
            None
        }
    }

    pub fn to_string(&self) -> (text: String)
        ensures
            text@ == self.label(),
    {
        match self {
            DataType::Password => "Password".to_owned(),
            DataType::File => "File".to_owned(),
        }
    }
}

/// Every variant is recovered from its own wire code, and a byte that
/// decodes to a variant is that variant's wire code.
pub proof fn lemma_wire_code_round_trip(datatype: DataType, code: u8)
    ensures
        DataType::of_wire_code(datatype.wire_code()) == Some(datatype),
        DataType::of_wire_code(code) == Some(datatype) ==> datatype.wire_code() == code,
{
}

} // verus!

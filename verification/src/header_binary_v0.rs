use crate::datatype::{lemma_wire_code_round_trip, DataType};
use crate::error::ContainerError;
use crate::header_v0::{HeaderV0, LogicalHeader};
use crate::primitives::{pad_to_width, string_from_utf8, unix_time_now};
use crate::wire::{
    append_bytes, be_bytes, be_value, bytes_equal, fill_slot, from_be_bytes, is_trimmed,
    lemma_be_bytes_len, lemma_be_bytes_round_trip, lemma_be_limits, lemma_be_value_bound,
    lemma_be_value_round_trip, lemma_padded_absorbs_pad, lemma_padded_trimmed,
    lemma_trimmed_is_prefix, lemma_trimmed_padded, lemma_utf8_concat, lemma_utf8_spaces, padded,
    take_array, to_be_bytes, trim, trimmed,
};
use vstd::prelude::*;
use vstd::utf8::{
    decode_utf8, decode_utf8_encode_utf8, encode_utf8, encode_utf8_decode_utf8,
    encode_utf8_valid_utf8, valid_utf8,
};

verus! {

pub const MAGIC_NUMBER_SIZE: usize = 10;

/// ASCII "slpm-filef": the first bytes of every container.
pub const MAGIC_NUMBER: [u8; MAGIC_NUMBER_SIZE] = [115, 108, 112, 109, 45, 102, 105, 108, 101, 102];

/// The one format revision this library writes and reads.
pub const VERSION: u16 = 0;

pub const HEADER_SIZE: usize = 1024;

pub const VERSION_SIZE: usize = 2;

pub const DATATYPE_SIZE: usize = 1;

pub const NAME_SIZE: usize = 128;

pub const CREATED_SIZE: usize = 8;

pub const EDITED_SIZE: usize = 8;

pub const FILE_NAME_SIZE: usize = 128;

pub const BUFFER_SIZE_SIZE: usize = 8;

pub const VERSION_OFFSET: usize = 10;

pub const DATATYPE_OFFSET: usize = 12;

pub const NAME_OFFSET: usize = 13;

pub const CREATED_OFFSET: usize = 141;

pub const EDITED_OFFSET: usize = 149;

pub const FILE_NAME_OFFSET: usize = 157;

pub const BUFFER_SIZE_OFFSET: usize = 285;

/// Where the fields end and the zero-filled reserve begins.
pub const RESERVED_OFFSET: usize = 293;

/// The on-disk header, one byte array per field. All integers are
/// big-endian; both texts are UTF-8, padded with spaces on the right.
#[derive(Clone, Hash, Debug, Eq, Ord, PartialOrd, PartialEq)]
pub struct HeaderBinaryV0 {
    /// Identifies the file format.
    pub magic_number: [u8; MAGIC_NUMBER_SIZE],
    /// Format revision.
    pub version: [u8; VERSION_SIZE],
    /// Wire code of the [`DataType`].
    pub datatype: [u8; DATATYPE_SIZE],
    /// Human-readable label.
    pub name: [u8; NAME_SIZE],
    /// Creation time in seconds since the Unix epoch.
    pub created: [u8; CREATED_SIZE],
    /// Time of the last change in seconds since the Unix epoch.
    pub edited: [u8; EDITED_SIZE],
    /// Name of the file the payload belongs to.
    pub file_name: [u8; FILE_NAME_SIZE],
    /// The chunk size the payload was produced with.
    pub buffer_size: [u8; BUFFER_SIZE_SIZE],
}

/// The zero bytes that fill a header up to its full size.
pub open spec fn reserved() -> Seq<u8> {
    Seq::new((HEADER_SIZE - RESERVED_OFFSET) as nat, |i: int| 0u8)
}

/// Whether both texts of a header fit their slots.
pub open spec fn fits(header: LogicalHeader) -> bool {
    &&& encode_utf8(header.name).len() <= NAME_SIZE
    &&& encode_utf8(header.file_name).len() <= FILE_NAME_SIZE
}

/// Whether a header is one the format is meant for: of the known version,
/// with texts that fit, and not edited before it was made.
pub open spec fn is_valid(header: LogicalHeader) -> bool {
    &&& header.version == VERSION
    &&& fits(header)
    &&& header.created <= header.edited
}

/// The 1024 bytes that stand for a header whose texts fit.
pub open spec fn encoded(header: LogicalHeader) -> Seq<u8> {
    MAGIC_NUMBER@ + be_bytes(header.version as nat, VERSION_SIZE as nat)
        + seq![header.datatype.wire_code()] + padded(encode_utf8(header.name), NAME_SIZE as nat)
        + be_bytes(header.created as nat, CREATED_SIZE as nat) + be_bytes(
        header.edited as nat,
        EDITED_SIZE as nat,
    ) + padded(encode_utf8(header.file_name), FILE_NAME_SIZE as nat) + be_bytes(
        header.buffer_size as nat,
        BUFFER_SIZE_SIZE as nat,
    ) + reserved()
}

/// One field of a header's bytes.
pub open spec fn field(bytes: Seq<u8>, offset: usize, size: usize) -> Seq<u8> {
    bytes.subrange(offset as int, offset + size)
}

/// What a header's bytes mean, or why they mean nothing. The checks are
/// made in this order: magic number, version, datatype, name, file name.
pub open spec fn decoded(bytes: Seq<u8>) -> Result<LogicalHeader, ContainerError>
    recommends
        bytes.len() >= RESERVED_OFFSET,
{
    let name = trimmed(field(bytes, NAME_OFFSET, NAME_SIZE));
    let file_name = trimmed(field(bytes, FILE_NAME_OFFSET, FILE_NAME_SIZE));
    if field(bytes, 0, MAGIC_NUMBER_SIZE) != MAGIC_NUMBER@ {
        Err(ContainerError::InvalidMagicNumber)
    } else if be_value(field(bytes, VERSION_OFFSET, VERSION_SIZE)) != VERSION {
        Err(ContainerError::UnsupportedVersion)
    } else if DataType::of_wire_code(bytes[DATATYPE_OFFSET as int]) is None {
        Err(ContainerError::UnknownDataType)
    } else if !valid_utf8(name) || !valid_utf8(file_name) {
        Err(ContainerError::InvalidUtf8)
    } else {
        Ok(
            LogicalHeader {
                version: VERSION,
                datatype: DataType::of_wire_code(bytes[DATATYPE_OFFSET as int])->0,
                name: decode_utf8(name),
                created: be_value(field(bytes, CREATED_OFFSET, CREATED_SIZE)) as u64,
                edited: be_value(field(bytes, EDITED_OFFSET, EDITED_SIZE)) as u64,
                file_name: decode_utf8(file_name),
                buffer_size: be_value(field(bytes, BUFFER_SIZE_OFFSET, BUFFER_SIZE_SIZE)) as u64,
            },
        )
    }
}

/// The header that [`HeaderBinaryV0::from_parameters_at`] describes: made
/// at `now`, and created then too unless `old_create_date` says when. Times
/// before the epoch are stored as the two's complement of their seconds.
pub open spec fn made_at(
    datatype: DataType,
    name: Seq<char>,
    old_create_date: Option<i64>,
    file_name: Seq<char>,
    buffer_size: u64,
    now: i64,
) -> LogicalHeader {
    LogicalHeader {
        version: VERSION,
        datatype,
        name,
        created: match old_create_date {
            Some(create) => create as u64,
            None => now as u64,
        },
        edited: now as u64,
        file_name,
        buffer_size,
    }
}

/// The 128-byte slot of a text: its UTF-8 bytes, then spaces. `None` if the
/// text has more bytes than the slot.
///
/// `pad` measures a text in display columns, not bytes, so what it returns
/// for a text with wide or combining characters is longer or shorter than
/// the slot; the slot is cut or filled to its width in bytes afterwards.
fn text_slot(text: &str) -> (slot: Option<[u8; NAME_SIZE]>)
    ensures
        slot is Some <==> encode_utf8(text@).len() <= NAME_SIZE,
        slot matches Some(s) ==> s@ == padded(encode_utf8(text@), NAME_SIZE as nat),
{
    if text.as_bytes().len() > NAME_SIZE {
        return None;
    }
    let with_spaces = pad_to_width(text, NAME_SIZE);
    proof {
        let count = (with_spaces@.len() - text@.len()) as nat;
        let spaces = Seq::new(count, |i: int| ' ');
        assert(with_spaces@ =~= text@ + spaces);
        lemma_utf8_concat(text@, spaces);
        lemma_utf8_spaces(count);
        lemma_padded_absorbs_pad(encode_utf8(text@), count, NAME_SIZE as nat);
    }
    Some(fill_slot::<NAME_SIZE>(with_spaces.as_str().as_bytes()))
}

/// The 1024 bytes of a logical header.
pub fn encode(header: &HeaderV0) -> (bytes: Result<[u8; HEADER_SIZE], ContainerError>)
    ensures
        bytes is Ok <==> fits(header@),
        bytes matches Ok(b) ==> b@ == encoded(header@),
        bytes matches Err(e) ==> e == ContainerError::FieldTooLong,
{
    let binary = HeaderBinaryV0::from_header(header)?;
    let bytes = binary.to_bytes();
    let array = take_array::<HEADER_SIZE>(bytes.as_slice(), 0);
    assert(array@ =~= bytes@);
    Ok(array)
}

/// The logical header that 1024 bytes stand for.
pub fn decode(bytes: &[u8; HEADER_SIZE]) -> (header: Result<HeaderV0, ContainerError>)
    ensures
        match header {
            Ok(h) => decoded(bytes@) == Ok::<LogicalHeader, ContainerError>(h@),
            Err(e) => decoded(bytes@) == Err::<LogicalHeader, ContainerError>(e),
        },
{
    let binary = HeaderBinaryV0::from_bytes(bytes);
    proof {
        binary.lemma_wire_fields();
        assert(bytes@[DATATYPE_OFFSET as int] == field(bytes@, DATATYPE_OFFSET, DATATYPE_SIZE)[0]);
    }
    binary.to_header()
}

/// Every header whose texts fit takes exactly 1024 bytes, and each of its
/// fields stands at its fixed offset.
pub proof fn lemma_encoded_layout(header: LogicalHeader)
    requires
        fits(header),
    ensures
        encoded(header).len() == HEADER_SIZE,
        field(encoded(header), 0, MAGIC_NUMBER_SIZE) == MAGIC_NUMBER@,
        field(encoded(header), VERSION_OFFSET, VERSION_SIZE) == be_bytes(
            header.version as nat,
            VERSION_SIZE as nat,
        ),
        encoded(header)[DATATYPE_OFFSET as int] == header.datatype.wire_code(),
        field(encoded(header), NAME_OFFSET, NAME_SIZE) == padded(
            encode_utf8(header.name),
            NAME_SIZE as nat,
        ),
        field(encoded(header), CREATED_OFFSET, CREATED_SIZE) == be_bytes(
            header.created as nat,
            CREATED_SIZE as nat,
        ),
        field(encoded(header), EDITED_OFFSET, EDITED_SIZE) == be_bytes(
            header.edited as nat,
            EDITED_SIZE as nat,
        ),
        field(encoded(header), FILE_NAME_OFFSET, FILE_NAME_SIZE) == padded(
            encode_utf8(header.file_name),
            FILE_NAME_SIZE as nat,
        ),
        field(encoded(header), BUFFER_SIZE_OFFSET, BUFFER_SIZE_SIZE) == be_bytes(
            header.buffer_size as nat,
            BUFFER_SIZE_SIZE as nat,
        ),
        field(encoded(header), RESERVED_OFFSET, (HEADER_SIZE - RESERVED_OFFSET) as usize)
            == reserved(),
{
    let bytes = encoded(header);
    lemma_be_bytes_len(header.version as nat, VERSION_SIZE as nat);
    lemma_be_bytes_len(header.created as nat, CREATED_SIZE as nat);
    lemma_be_bytes_len(header.edited as nat, EDITED_SIZE as nat);
    lemma_be_bytes_len(header.buffer_size as nat, BUFFER_SIZE_SIZE as nat);
    assert(field(bytes, 0, MAGIC_NUMBER_SIZE) =~= MAGIC_NUMBER@);
    assert(field(bytes, VERSION_OFFSET, VERSION_SIZE) =~= be_bytes(
        header.version as nat,
        VERSION_SIZE as nat,
    ));
    assert(field(bytes, NAME_OFFSET, NAME_SIZE) =~= padded(
        encode_utf8(header.name),
        NAME_SIZE as nat,
    ));
    assert(field(bytes, CREATED_OFFSET, CREATED_SIZE) =~= be_bytes(
        header.created as nat,
        CREATED_SIZE as nat,
    ));
    assert(field(bytes, EDITED_OFFSET, EDITED_SIZE) =~= be_bytes(
        header.edited as nat,
        EDITED_SIZE as nat,
    ));
    assert(field(bytes, FILE_NAME_OFFSET, FILE_NAME_SIZE) =~= padded(
        encode_utf8(header.file_name),
        FILE_NAME_SIZE as nat,
    ));
    assert(field(bytes, BUFFER_SIZE_OFFSET, BUFFER_SIZE_SIZE) =~= be_bytes(
        header.buffer_size as nat,
        BUFFER_SIZE_SIZE as nat,
    ));
    assert(field(bytes, RESERVED_OFFSET, (HEADER_SIZE - RESERVED_OFFSET) as usize)
        =~= reserved());
}

/// Decoding what was encoded gives the header again. This holds of every
/// valid header neither of whose texts ends in a space: a space at the end
/// of a text cannot be told from the padding and is trimmed with it.
pub proof fn lemma_decode_encode(header: LogicalHeader)
    requires
        is_valid(header),
        is_trimmed(encode_utf8(header.name)),
        is_trimmed(encode_utf8(header.file_name)),
    ensures
        decoded(encoded(header)) == Ok::<LogicalHeader, ContainerError>(header),
{
    lemma_encoded_layout(header);
    lemma_be_limits();
    lemma_be_value_round_trip(header.version as nat, VERSION_SIZE as nat);
    lemma_be_value_round_trip(header.created as nat, CREATED_SIZE as nat);
    lemma_be_value_round_trip(header.edited as nat, EDITED_SIZE as nat);
    lemma_be_value_round_trip(header.buffer_size as nat, BUFFER_SIZE_SIZE as nat);
    lemma_trimmed_padded(encode_utf8(header.name), NAME_SIZE as nat);
    lemma_trimmed_padded(encode_utf8(header.file_name), FILE_NAME_SIZE as nat);
    encode_utf8_valid_utf8(header.name);
    encode_utf8_valid_utf8(header.file_name);
    encode_utf8_decode_utf8(header.name);
    encode_utf8_decode_utf8(header.file_name);
    lemma_wire_code_round_trip(header.datatype, header.datatype.wire_code());
}

/// Whatever decodes is a header of the known version whose texts fit and
/// carry no space at their end, and encoding it gives the same fields
/// again.
pub proof fn lemma_encode_decode(bytes: Seq<u8>)
    requires
        bytes.len() == HEADER_SIZE,
        decoded(bytes) is Ok,
    ensures
        decoded(bytes)->Ok_0.version == VERSION,
        fits(decoded(bytes)->Ok_0),
        is_trimmed(encode_utf8(decoded(bytes)->Ok_0.name)),
        is_trimmed(encode_utf8(decoded(bytes)->Ok_0.file_name)),
        encoded(decoded(bytes)->Ok_0) == bytes.take(RESERVED_OFFSET as int) + reserved(),
{
    let header = decoded(bytes)->Ok_0;
    let name = field(bytes, NAME_OFFSET, NAME_SIZE);
    let file_name = field(bytes, FILE_NAME_OFFSET, FILE_NAME_SIZE);
    lemma_trimmed_is_prefix(name);
    lemma_trimmed_is_prefix(file_name);
    decode_utf8_encode_utf8(trimmed(name));
    decode_utf8_encode_utf8(trimmed(file_name));
    lemma_padded_trimmed(name);
    lemma_padded_trimmed(file_name);
    lemma_be_limits();
    lemma_be_value_bound(field(bytes, VERSION_OFFSET, VERSION_SIZE));
    lemma_be_value_bound(field(bytes, CREATED_OFFSET, CREATED_SIZE));
    lemma_be_value_bound(field(bytes, EDITED_OFFSET, EDITED_SIZE));
    lemma_be_value_bound(field(bytes, BUFFER_SIZE_OFFSET, BUFFER_SIZE_SIZE));
    lemma_be_bytes_round_trip(field(bytes, VERSION_OFFSET, VERSION_SIZE));
    lemma_be_bytes_round_trip(field(bytes, CREATED_OFFSET, CREATED_SIZE));
    lemma_be_bytes_round_trip(field(bytes, EDITED_OFFSET, EDITED_SIZE));
    lemma_be_bytes_round_trip(field(bytes, BUFFER_SIZE_OFFSET, BUFFER_SIZE_SIZE));
    lemma_wire_code_round_trip(header.datatype, bytes[DATATYPE_OFFSET as int]);
    assert(encoded(header) =~= bytes.take(RESERVED_OFFSET as int) + reserved());
}

impl HeaderBinaryV0 {
    /// The 1024 bytes of this header on disk: the fields in order, then
    /// zeros.
    pub open spec fn wire(&self) -> Seq<u8> {
        self.magic_number@ + self.version@ + self.datatype@ + self.name@ + self.created@
            + self.edited@ + self.file_name@ + self.buffer_size@ + reserved()
    }

    pub fn to_bytes(&self) -> (output: Vec<u8>)
        ensures
            output@ == self.wire(),
            output@.len() == HEADER_SIZE,
    {
        let mut output = Vec::new();
        append_bytes(&mut output, &self.magic_number);
        append_bytes(&mut output, &self.version);
        append_bytes(&mut output, &self.datatype);
        append_bytes(&mut output, &self.name);
        append_bytes(&mut output, &self.created);
        append_bytes(&mut output, &self.edited);
        append_bytes(&mut output, &self.file_name);
        append_bytes(&mut output, &self.buffer_size);
        let ghost fields = output@;
        output.resize(HEADER_SIZE, 0);
        assert(output@ =~= fields + reserved());
        output
    }

    /// Cuts 1024 bytes into the fields of a header. Nothing is checked:
    /// that is for [`HeaderBinaryV0::to_header`].
    pub fn from_bytes(bytes: &[u8; HEADER_SIZE]) -> (header: Self)
        ensures
            header.magic_number@ == field(bytes@, 0, MAGIC_NUMBER_SIZE),
            header.version@ == field(bytes@, VERSION_OFFSET, VERSION_SIZE),
            header.datatype@ == field(bytes@, DATATYPE_OFFSET, DATATYPE_SIZE),
            header.name@ == field(bytes@, NAME_OFFSET, NAME_SIZE),
            header.created@ == field(bytes@, CREATED_OFFSET, CREATED_SIZE),
            header.edited@ == field(bytes@, EDITED_OFFSET, EDITED_SIZE),
            header.file_name@ == field(bytes@, FILE_NAME_OFFSET, FILE_NAME_SIZE),
            header.buffer_size@ == field(bytes@, BUFFER_SIZE_OFFSET, BUFFER_SIZE_SIZE),
            header.wire() == bytes@.take(RESERVED_OFFSET as int) + reserved(),
    {
        let mut position: usize = 0;
        let magic_number = take_array::<MAGIC_NUMBER_SIZE>(bytes, position);
        position += MAGIC_NUMBER_SIZE;
        let version = take_array::<VERSION_SIZE>(bytes, position);
        position += VERSION_SIZE;
        let datatype = take_array::<DATATYPE_SIZE>(bytes, position);
        position += DATATYPE_SIZE;
        let name = take_array::<NAME_SIZE>(bytes, position);
        position += NAME_SIZE;
        let created = take_array::<CREATED_SIZE>(bytes, position);
        position += CREATED_SIZE;
        let edited = take_array::<EDITED_SIZE>(bytes, position);
        position += EDITED_SIZE;
        let file_name = take_array::<FILE_NAME_SIZE>(bytes, position);
        position += FILE_NAME_SIZE;
        let buffer_size = take_array::<BUFFER_SIZE_SIZE>(bytes, position);
        let header = Self {
            magic_number,
            version,
            datatype,
            name,
            created,
            edited,
            file_name,
            buffer_size,
        };
        assert(header.wire() =~= bytes@.take(RESERVED_OFFSET as int) + reserved());
        header
    }

    /// A header made now: version 0, last edited at this machine's time,
    /// created then too unless `old_create_date` says when.
    pub fn from_parameters(
        datatype: &DataType,
        name: &str,
        old_create_date: Option<i64>,
        file_name: &str,
        buffer_size: u64,
    ) -> (header: Result<Self, ContainerError>)
        ensures
            header is Ok <==> encode_utf8(name@).len() <= NAME_SIZE && encode_utf8(
                file_name@,
            ).len() <= FILE_NAME_SIZE,
            header matches Ok(h) ==> exists|now: i64|
                h.wire() == #[trigger] encoded(
                    made_at(*datatype, name@, old_create_date, file_name@, buffer_size, now),
                ),
            header matches Err(e) ==> e == ContainerError::FieldTooLong,
    {
        let now = unix_time_now();
        Self::from_parameters_at(datatype, name, old_create_date, file_name, buffer_size, now)
    }

    /// A header made at the time `now`, in seconds since the Unix epoch:
    /// version 0, last edited at `now`, created then too unless
    /// `old_create_date` says when.
    pub fn from_parameters_at(
        datatype: &DataType,
        name: &str,
        old_create_date: Option<i64>,
        file_name: &str,
        buffer_size: u64,
        now: i64,
    ) -> (header: Result<Self, ContainerError>)
        ensures
            header is Ok <==> encode_utf8(name@).len() <= NAME_SIZE && encode_utf8(
                file_name@,
            ).len() <= FILE_NAME_SIZE,
            header matches Ok(h) ==> h.wire() == encoded(
                made_at(*datatype, name@, old_create_date, file_name@, buffer_size, now),
            ),
            header matches Err(e) ==> e == ContainerError::FieldTooLong,
    {
        let create_date = match old_create_date {
            Some(create) => create,
            None => now,
        };
        let name_slot = match text_slot(name) {
            Some(slot) => slot,
            None => { return Err(ContainerError::FieldTooLong); },
        };
        let file_name_slot = match text_slot(file_name) {
            Some(slot) => slot,
            None => { return Err(ContainerError::FieldTooLong); },
        };
        let header = Self {
            magic_number: MAGIC_NUMBER,
            version: to_be_bytes::<VERSION_SIZE>(VERSION as u64),
            datatype: [datatype.code()],
            name: name_slot,
            created: to_be_bytes::<CREATED_SIZE>(create_date as u64),
            edited: to_be_bytes::<EDITED_SIZE>(now as u64),
            file_name: file_name_slot,
            buffer_size: to_be_bytes::<BUFFER_SIZE_SIZE>(buffer_size),
        };
        assert(header.datatype@ =~= seq![datatype.wire_code()]);
        Ok(header)
    }

    /// Writes a logical header into its binary form, padding both texts
    /// to their slots.
    pub fn from_header(header: &HeaderV0) -> (binary: Result<Self, ContainerError>)
        ensures
            binary is Ok <==> fits(header@),
            binary matches Ok(b) ==> b.wire() == encoded(header@),
            binary matches Err(e) ==> e == ContainerError::FieldTooLong,
    {
        let name_slot = match text_slot(header.name.as_str()) {
            Some(slot) => slot,
            None => { return Err(ContainerError::FieldTooLong); },
        };
        let file_name_slot = match text_slot(header.file_name.as_str()) {
            Some(slot) => slot,
            None => { return Err(ContainerError::FieldTooLong); },
        };
        let binary = Self {
            magic_number: MAGIC_NUMBER,
            version: to_be_bytes::<VERSION_SIZE>(header.version as u64),
            datatype: [header.datatype.code()],
            name: name_slot,
            created: to_be_bytes::<CREATED_SIZE>(header.created),
            edited: to_be_bytes::<EDITED_SIZE>(header.edited),
            file_name: file_name_slot,
            buffer_size: to_be_bytes::<BUFFER_SIZE_SIZE>(header.buffer_size),
        };
        assert(binary.datatype@ =~= seq![header.datatype.wire_code()]);
        Ok(binary)
    }

    /// Reads this binary header: checks the magic number, the version and
    /// the datatype, and takes the two texts without their padding.
    pub fn to_header(&self) -> (header: Result<HeaderV0, ContainerError>)
        ensures
            match header {
                Ok(h) => decoded(self.wire()) == Ok::<LogicalHeader, ContainerError>(h@),
                Err(e) => decoded(self.wire()) == Err::<LogicalHeader, ContainerError>(e),
            },
    {
        proof {
            self.lemma_wire_fields();
        }
        if !bytes_equal(&self.magic_number, &MAGIC_NUMBER) {
            return Err(ContainerError::InvalidMagicNumber);
        }
        let version: u64 = from_be_bytes::<VERSION_SIZE>(&self.version);
        if version != VERSION as u64 {
            return Err(ContainerError::UnsupportedVersion);
        }
        let datatype = match DataType::from_code(self.datatype[0]) {
            Some(datatype) => datatype,
            None => { return Err(ContainerError::UnknownDataType); },
        };
        let name = match string_from_utf8(trim(&self.name)) {
            Ok(name) => name,
            Err(_) => { return Err(ContainerError::InvalidUtf8); },
        };
        let file_name = match string_from_utf8(trim(&self.file_name)) {
            Ok(file_name) => file_name,
            Err(_) => { return Err(ContainerError::InvalidUtf8); },
        };
        proof {
            encode_utf8_decode_utf8(name@);
            encode_utf8_decode_utf8(file_name@);
        }
        Ok(
            HeaderV0 {
                version: VERSION,
                datatype,
                name,
                created: from_be_bytes::<CREATED_SIZE>(&self.created),
                edited: from_be_bytes::<EDITED_SIZE>(&self.edited),
                file_name,
                buffer_size: from_be_bytes::<BUFFER_SIZE_SIZE>(&self.buffer_size),
            },
        )
    }

    /// Each field is found in the bytes at its offset.
    pub proof fn lemma_wire_fields(&self)
        ensures
            self.wire().len() == HEADER_SIZE,
            field(self.wire(), 0, MAGIC_NUMBER_SIZE) == self.magic_number@,
            field(self.wire(), VERSION_OFFSET, VERSION_SIZE) == self.version@,
            field(self.wire(), DATATYPE_OFFSET, DATATYPE_SIZE) == self.datatype@,
            self.wire()[DATATYPE_OFFSET as int] == self.datatype@[0],
            field(self.wire(), NAME_OFFSET, NAME_SIZE) == self.name@,
            field(self.wire(), CREATED_OFFSET, CREATED_SIZE) == self.created@,
            field(self.wire(), EDITED_OFFSET, EDITED_SIZE) == self.edited@,
            field(self.wire(), FILE_NAME_OFFSET, FILE_NAME_SIZE) == self.file_name@,
            field(self.wire(), BUFFER_SIZE_OFFSET, BUFFER_SIZE_SIZE) == self.buffer_size@,
            field(self.wire(), RESERVED_OFFSET, (HEADER_SIZE - RESERVED_OFFSET) as usize)
                == reserved(),
    {
        let wire = self.wire();
        assert(field(wire, 0, MAGIC_NUMBER_SIZE) =~= self.magic_number@);
        assert(field(wire, VERSION_OFFSET, VERSION_SIZE) =~= self.version@);
        assert(field(wire, DATATYPE_OFFSET, DATATYPE_SIZE) =~= self.datatype@);
        assert(field(wire, NAME_OFFSET, NAME_SIZE) =~= self.name@);
        assert(field(wire, CREATED_OFFSET, CREATED_SIZE) =~= self.created@);
        assert(field(wire, EDITED_OFFSET, EDITED_SIZE) =~= self.edited@);
        assert(field(wire, FILE_NAME_OFFSET, FILE_NAME_SIZE) =~= self.file_name@);
        assert(field(wire, BUFFER_SIZE_OFFSET, BUFFER_SIZE_SIZE) =~= self.buffer_size@);
        assert(field(wire, RESERVED_OFFSET, (HEADER_SIZE - RESERVED_OFFSET) as usize)
            =~= reserved());
    }
}

} // verus!

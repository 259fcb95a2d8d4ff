use slpm_file::datatype::DataType;
use slpm_file::error::{ContainerError, ErrorKind};
use slpm_file::header_binary_v0::{decode, encode, HeaderBinaryV0, HEADER_SIZE, MAGIC_NUMBER};
use slpm_file::header_v0::HeaderV0;
use slpm_file::wire::{fill_slot, from_be_bytes, to_be_bytes, trim};

fn padded_128(text: &str) -> [u8; 128] {
    let mut slot = [32u8; 128];
    slot[..text.len()].copy_from_slice(text.as_bytes());
    slot
}

fn sample_header() -> HeaderV0 {
    HeaderV0 {
        version: 0,
        datatype: DataType::File,
        name: "doc".to_owned(),
        created: 1000,
        edited: 1000,
        file_name: "doc.bin".to_owned(),
        buffer_size: 4096,
    }
}

#[test]
fn create_binary_header_from_parameters() {
    let header = HeaderBinaryV0::from_parameters(&DataType::File, "Test_header", None, "Test_file_name", 500_000).unwrap();

    assert_eq!(header.magic_number, [115, 108, 112, 109, 45, 102, 105, 108, 101, 102]);
    assert_eq!(header.version, [0,0]);
    assert_eq!(header.datatype, [1]);
    assert_eq!(header.name, [84, 101, 115, 116, 95, 104, 101, 97, 100, 101, 114, 32, 32, 32, 32, 32, 32, 32, 32, 32, 32, 32, 32, 32, 32, 32, 32, 32, 32, 32, 32, 32, 32, 32, 32, 32, 32, 32, 32, 32, 32, 32, 32, 32, 32, 32, 32, 32, 32, 32, 32, 32, 32, 32, 32, 32, 32, 32, 32, 32, 32, 32, 32, 32, 32, 32, 32, 32, 32, 32, 32, 32, 32, 32, 32, 32, 32, 32, 32, 32, 32, 32, 32, 32, 32, 32, 32, 32, 32, 32, 32, 32, 32, 32, 32, 32, 32, 32, 32, 32, 32, 32, 32, 32, 32, 32, 32, 32, 32, 32, 32, 32, 32, 32, 32, 32, 32, 32, 32, 32, 32, 32, 32, 32, 32, 32, 32, 32]);
    assert_eq!(header.created, chrono::Local::now().timestamp().to_be_bytes());
    assert_eq!(header.edited, chrono::Local::now().timestamp().to_be_bytes());
    assert_eq!(header.file_name, [84, 101, 115, 116, 95, 102, 105, 108, 101, 95, 110, 97, 109, 101, 32, 32, 32, 32, 32, 32, 32, 32, 32, 32, 32, 32, 32, 32, 32, 32, 32, 32, 32, 32, 32, 32, 32, 32, 32, 32, 32, 32, 32, 32, 32, 32, 32, 32, 32, 32, 32, 32, 32, 32, 32, 32, 32, 32, 32, 32, 32, 32, 32, 32, 32, 32, 32, 32, 32, 32, 32, 32, 32, 32, 32, 32, 32, 32, 32, 32, 32, 32, 32, 32, 32, 32, 32, 32, 32, 32, 32, 32, 32, 32, 32, 32, 32, 32, 32, 32, 32, 32, 32, 32, 32, 32, 32, 32, 32, 32, 32, 32, 32, 32, 32, 32, 32, 32, 32, 32, 32, 32, 32, 32, 32, 32, 32, 32]);
    assert_eq!(header.buffer_size, [0, 0, 0, 0, 0, 7, 161, 32]);
}

#[test]
fn from_header() {
    let header = HeaderV0::from_binary_header(&HeaderBinaryV0::from_parameters(&DataType::File, "Test_header", Some(123456789), "Test_file_name", 500_000).unwrap()).unwrap();

    assert_eq!(header.version, 0);
    assert_eq!(header.datatype, DataType::File);
    assert_eq!(header.name.trim(), "Test_header".to_owned().trim());
    assert_eq!(header.created, 123456789);
    assert_eq!(header.edited as i64, chrono::Local::now().timestamp());
    assert_eq!(header.file_name.trim(), "Test_file_name".to_owned().trim());
    assert_eq!(header.buffer_size, 500_000);
}

#[test]
fn from_parameters_at_fills_every_field() {
    let header = HeaderBinaryV0::from_parameters_at(&DataType::Password, "login", Some(5), "", 1, 258).unwrap();
    assert_eq!(header.magic_number, *b"slpm-filef");
    assert_eq!(header.version, [0, 0]);
    assert_eq!(header.datatype, [0]);
    assert_eq!(header.name, padded_128("login"));
    assert_eq!(header.created, [0, 0, 0, 0, 0, 0, 0, 5]);
    assert_eq!(header.edited, [0, 0, 0, 0, 0, 0, 1, 2]);
    assert_eq!(header.file_name, [32u8; 128]);
    assert_eq!(header.buffer_size, [0, 0, 0, 0, 0, 0, 0, 1]);
}

#[test]
fn from_parameters_at_without_create_date_uses_now() {
    let header = HeaderBinaryV0::from_parameters_at(&DataType::File, "a", None, "b", 0, 77).unwrap();
    assert_eq!(header.created, [0, 0, 0, 0, 0, 0, 0, 77]);
    assert_eq!(header.edited, [0, 0, 0, 0, 0, 0, 0, 77]);
}

#[test]
fn from_parameters_at_stores_time_before_epoch_as_twos_complement() {
    let header = HeaderBinaryV0::from_parameters_at(&DataType::File, "a", Some(-1), "b", 0, -2).unwrap();
    assert_eq!(header.created, [255u8; 8]);
    assert_eq!(header.edited, [255, 255, 255, 255, 255, 255, 255, 254]);
}

#[test]
fn encode_concrete_scenario() {
    let bytes = encode(&sample_header()).unwrap();
    assert_eq!(bytes.len(), 1024);
    assert_eq!(HEADER_SIZE, 1024);
    assert_eq!(&bytes[..10], b"slpm-filef");
    assert_eq!(&bytes[..10], &MAGIC_NUMBER[..]);
    assert_eq!(&bytes[10..12], &[0u8, 0]);
    assert_eq!(bytes[12], 1);
    assert_eq!(&bytes[13..16], b"doc");
    assert!(bytes[16..141].iter().all(|b| *b == 32));
    assert_eq!(&bytes[141..149], &[0u8, 0, 0, 0, 0, 0, 3, 232]);
    assert_eq!(&bytes[149..157], &[0u8, 0, 0, 0, 0, 0, 3, 232]);
    assert_eq!(&bytes[157..164], b"doc.bin");
    assert!(bytes[164..285].iter().all(|b| *b == 32));
    assert_eq!(&bytes[285..293], &[0u8, 0, 0, 0, 0, 0, 16, 0]);
    assert_eq!(&bytes[285..293], &4096u64.to_be_bytes());
    assert!(bytes[293..].iter().all(|b| *b == 0));
}

#[test]
fn decode_gives_back_what_was_encoded() {
    let header = sample_header();
    let back = decode(&encode(&header).unwrap()).unwrap();
    assert_eq!(back, header);
}

#[test]
fn decode_gives_back_texts_that_are_not_ascii() {
    let mut header = sample_header();
    header.name = "r\u{e9}sum\u{e9} \u{65e5}\u{672c}\u{8a9e} e\u{301}".to_owned();
    header.file_name = "\u{1f512}.bin".to_owned();
    header.datatype = DataType::Password;
    header.created = 1;
    header.edited = u64::MAX;
    header.buffer_size = 0x0102_0304_0506_0708;
    let bytes = encode(&header).unwrap();
    assert_eq!(&bytes[285..293], &[1u8, 2, 3, 4, 5, 6, 7, 8]);
    assert_eq!(&bytes[149..157], &[255u8; 8]);
    let name_len = header.name.len();
    assert_eq!(&bytes[13..13 + name_len], header.name.as_bytes());
    assert!(bytes[13 + name_len..141].iter().all(|b| *b == 32));
    assert_eq!(decode(&bytes).unwrap(), header);
}

#[test]
fn decode_gives_back_texts_that_fill_their_slots() {
    let mut header = sample_header();
    header.name = "n".repeat(128);
    header.file_name = "\u{e9}".repeat(64);
    let bytes = encode(&header).unwrap();
    assert_eq!(&bytes[13..141], header.name.as_bytes());
    assert_eq!(&bytes[157..285], header.file_name.as_bytes());
    assert_eq!(decode(&bytes).unwrap(), header);
}

#[test]
fn decode_trims_a_space_at_the_end_of_a_text() {
    let mut header = sample_header();
    header.name = "doc ".to_owned();
    let back = decode(&encode(&header).unwrap()).unwrap();
    assert_eq!(back.name, "doc");
    assert_eq!(back.file_name, "doc.bin");
}

#[test]
fn decode_keeps_spaces_inside_and_before_a_text() {
    let mut header = sample_header();
    header.name = "  my doc".to_owned();
    let back = decode(&encode(&header).unwrap()).unwrap();
    assert_eq!(back.name, "  my doc");
}

#[test]
fn encode_rejects_a_name_that_is_too_long() {
    let mut header = sample_header();
    header.name = "n".repeat(129);
    assert_eq!(encode(&header), Err(ContainerError::FieldTooLong));
    assert_eq!(HeaderBinaryV0::from_header(&header), Err(ContainerError::FieldTooLong));
}

#[test]
fn encode_rejects_a_file_name_that_is_too_long() {
    let mut header = sample_header();
    header.file_name = "\u{e9}".repeat(65);
    assert_eq!(header.file_name.chars().count(), 65);
    assert_eq!(encode(&header), Err(ContainerError::FieldTooLong));
}

#[test]
fn from_parameters_rejects_texts_that_are_too_long() {
    let long = "x".repeat(129);
    assert_eq!(
        HeaderBinaryV0::from_parameters(&DataType::File, &long, None, "f", 1),
        Err(ContainerError::FieldTooLong)
    );
    assert_eq!(
        HeaderBinaryV0::from_parameters_at(&DataType::File, "n", None, &long, 1, 0),
        Err(ContainerError::FieldTooLong)
    );
}

#[test]
fn decode_rejects_a_wrong_magic_number() {
    let mut bytes = encode(&sample_header()).unwrap();
    bytes[9] = b'x';
    assert_eq!(decode(&bytes), Err(ContainerError::InvalidMagicNumber));
    assert_eq!(decode(&[0u8; 1024]), Err(ContainerError::InvalidMagicNumber));
}

#[test]
fn decode_rejects_an_unknown_version() {
    let mut bytes = encode(&sample_header()).unwrap();
    bytes[11] = 1;
    assert_eq!(decode(&bytes), Err(ContainerError::UnsupportedVersion));
    let mut header = sample_header();
    header.version = 0x0100;
    let bytes = encode(&header).unwrap();
    assert_eq!(&bytes[10..12], &[1u8, 0]);
    assert_eq!(decode(&bytes), Err(ContainerError::UnsupportedVersion));
}

#[test]
fn decode_rejects_an_unknown_datatype() {
    let mut bytes = encode(&sample_header()).unwrap();
    bytes[12] = 2;
    assert_eq!(decode(&bytes), Err(ContainerError::UnknownDataType));
}

#[test]
fn decode_rejects_text_that_is_not_utf8() {
    let mut bytes = encode(&sample_header()).unwrap();
    bytes[13] = 0xff;
    assert_eq!(decode(&bytes), Err(ContainerError::InvalidUtf8));
    let mut bytes = encode(&sample_header()).unwrap();
    bytes[284] = 0xc3;
    assert_eq!(decode(&bytes), Err(ContainerError::InvalidUtf8));
}

#[test]
fn decode_checks_in_the_stated_order() {
    let mut bytes = encode(&sample_header()).unwrap();
    bytes[13] = 0xff;
    bytes[12] = 9;
    assert_eq!(decode(&bytes), Err(ContainerError::UnknownDataType));
    bytes[10] = 9;
    assert_eq!(decode(&bytes), Err(ContainerError::UnsupportedVersion));
    bytes[0] = 9;
    assert_eq!(decode(&bytes), Err(ContainerError::InvalidMagicNumber));
}

#[test]
fn decode_ignores_the_reserved_bytes() {
    let mut bytes = encode(&sample_header()).unwrap();
    bytes[293] = 7;
    bytes[1023] = 7;
    assert_eq!(decode(&bytes).unwrap(), sample_header());
}

#[test]
fn created_and_edited_are_read_apart() {
    let mut header = sample_header();
    header.created = 10;
    header.edited = 20;
    let binary = HeaderBinaryV0::from_header(&header).unwrap();
    let back = binary.to_header().unwrap();
    assert_eq!(back.created, 10);
    assert_eq!(back.edited, 20);
}

#[test]
fn binary_header_survives_its_bytes() {
    let binary = HeaderBinaryV0::from_header(&sample_header()).unwrap();
    let bytes = binary.to_bytes();
    assert_eq!(bytes.len(), 1024);
    let mut array = [0u8; 1024];
    array.copy_from_slice(&bytes);
    assert_eq!(HeaderBinaryV0::from_bytes(&array), binary);
    assert_eq!(HeaderBinaryV0::from_bytes(&array).to_bytes(), bytes);
}

#[test]
fn from_bytes_cuts_at_the_fixed_offsets() {
    let mut array = [0u8; 1024];
    for (i, b) in array.iter_mut().enumerate() {
        *b = (i % 251) as u8;
    }
    let binary = HeaderBinaryV0::from_bytes(&array);
    assert_eq!(&binary.magic_number[..], &array[0..10]);
    assert_eq!(&binary.version[..], &array[10..12]);
    assert_eq!(&binary.datatype[..], &array[12..13]);
    assert_eq!(&binary.name[..], &array[13..141]);
    assert_eq!(&binary.created[..], &array[141..149]);
    assert_eq!(&binary.edited[..], &array[149..157]);
    assert_eq!(&binary.file_name[..], &array[157..285]);
    assert_eq!(&binary.buffer_size[..], &array[285..293]);
    let bytes = binary.to_bytes();
    assert_eq!(&bytes[..293], &array[..293]);
    assert!(bytes[293..].iter().all(|b| *b == 0));
}

#[test]
fn from_binary_header_agrees_with_to_header() {
    let binary = HeaderBinaryV0::from_header(&sample_header()).unwrap();
    assert_eq!(HeaderV0::from_binary_header(&binary), binary.to_header());
    let mut broken = binary.clone();
    broken.datatype = [200];
    assert_eq!(HeaderV0::from_binary_header(&broken), Err(ContainerError::UnknownDataType));
    assert_eq!(broken.to_header(), Err(ContainerError::UnknownDataType));
}

#[test]
fn datatype_codes_and_names() {
    assert_eq!(DataType::Password.code(), 0);
    assert_eq!(DataType::File.code(), 1);
    assert_eq!(DataType::from_code(0), Some(DataType::Password));
    assert_eq!(DataType::from_code(1), Some(DataType::File));
    assert_eq!(DataType::from_code(2), None);
    assert_eq!(DataType::from_code(255), None);
    assert_eq!(DataType::Password.to_string(), "Password");
    assert_eq!(DataType::File.to_string(), "File");
}

#[test]
fn error_kinds() {
    assert_eq!(ContainerError::InvalidMagicNumber.kind(), ErrorKind::Format);
    assert_eq!(ContainerError::UnsupportedVersion.kind(), ErrorKind::Format);
    assert_eq!(ContainerError::TruncatedRecord.kind(), ErrorKind::Format);
    assert_eq!(ContainerError::FieldTooLong.kind(), ErrorKind::Format);
    assert_eq!(ContainerError::InvalidUtf8.kind(), ErrorKind::Codec);
    assert_eq!(ContainerError::UnknownDataType.kind(), ErrorKind::Codec);
    assert_eq!(ContainerError::KeyDerivationFailed.kind(), ErrorKind::Crypto);
    assert_eq!(ContainerError::AuthenticationFailed.kind(), ErrorKind::Crypto);
    assert_eq!(ContainerError::PayloadTooLong.kind(), ErrorKind::Crypto);
    assert_eq!(ContainerError::ShortRead.kind(), ErrorKind::Io);
    assert_eq!(ContainerError::EndOfFile.kind(), ErrorKind::Io);
    assert_eq!(ContainerError::OffsetOverflow.kind(), ErrorKind::Io);
}

#[test]
fn big_endian_bytes() {
    assert_eq!(to_be_bytes::<8>(4096), [0, 0, 0, 0, 0, 0, 16, 0]);
    assert_eq!(to_be_bytes::<8>(u64::MAX), [255; 8]);
    assert_eq!(to_be_bytes::<8>(0x0102_0304_0506_0708), 0x0102_0304_0506_0708u64.to_be_bytes());
    assert_eq!(to_be_bytes::<2>(0x0102), [1, 2]);
    assert_eq!(to_be_bytes::<2>(0x0001_0203), [2, 3]);
    assert_eq!(to_be_bytes::<0>(5), []);
    assert_eq!(from_be_bytes::<8>(&[0, 0, 0, 0, 0, 7, 161, 32]), 500_000);
    assert_eq!(from_be_bytes::<8>(&[255; 8]), u64::MAX);
    assert_eq!(from_be_bytes::<2>(&[1, 2]), 258);
    assert_eq!(from_be_bytes::<0>(&[]), 0);
}

#[test]
fn slots_and_trimming() {
    assert_eq!(fill_slot::<5>(b"ab"), *b"ab   ");
    assert_eq!(fill_slot::<2>(b"abcd"), *b"ab");
    assert_eq!(fill_slot::<3>(b""), *b"   ");
    assert_eq!(trim(b"ab   "), b"ab".to_vec());
    assert_eq!(trim(b"  a b "), b"  a b".to_vec());
    assert_eq!(trim(b"   "), Vec::<u8>::new());
    assert_eq!(trim(b""), Vec::<u8>::new());
    assert_eq!(trim(b"ab\t"), b"ab\t".to_vec());
}

//! The calls this library makes into other crates and into parts of the
//! standard library that the verifier knows nothing about. Each function
//! here is a thin layer over one such call; its contract is taken on trust
//! from the callee's source and documentation, and the rest of the library
//! is proved against it.

use aes_gcm::aead::{Aead, NewAead};
use aes_gcm::{Aes256Gcm, Key, Nonce};
use argon2::password_hash::SaltString;
use argon2::{Argon2, PasswordHasher};
use pad::PadStr;
use rand::rngs::OsRng;
use rand::Rng;
use vstd::prelude::*;
use vstd::utf8::{encode_utf8, valid_utf8};

verus! {

/// The longest plaintext, in bytes, that AES-GCM is defined for: 2^36 - 32.
/// Shortly beyond it the cipher's 32-bit block counter would wrap around.
pub const AEAD_MAX_PLAINTEXT: u64 = 0xF_FFFF_FFE0;

/// The longest ciphertext with its tag: the longest plaintext and sixteen
/// bytes more.
pub const AEAD_MAX_CIPHERTEXT: u64 = 0xF_FFFF_FFF0;

/// The bytes that AES-GCM appends as authentication tag.
pub const AEAD_TAG_SIZE: usize = 16;

/// The bytes of an AES-256 key.
pub const AEAD_KEY_SIZE: usize = 32;

#[verifier::external_type_specification]
#[verifier::external_body]
pub struct ExFromUtf8Error(std::string::FromUtf8Error);

#[verifier::external_type_specification]
#[verifier::external_body]
pub struct ExPasswordHashError(argon2::password_hash::Error);

#[verifier::external_type_specification]
#[verifier::external_body]
pub struct ExAeadError(aes_gcm::Error);

/// The number of terminal columns that `unicode_width` gives a text, which
/// is what `pad` measures a string by.
pub uninterp spec fn display_width(text: Seq<char>) -> nat;

/// The hash that Argon2id (version 0x13, the crate's default parameters)
/// computes of a password and a salt in the PHC text form, or `None` where
/// `argon2` refuses the pair.
pub uninterp spec fn argon2_hash(password: Seq<u8>, salt: Seq<char>) -> Option<Seq<u8>>;

/// What AES-256-GCM makes of a plaintext under a key and a nonce, with no
/// associated data: the ciphertext followed by its tag.
pub uninterp spec fn aes_gcm_sealed(key: Seq<u8>, nonce: Seq<u8>, plaintext: Seq<u8>) -> Seq<u8>;

/// The plaintext that AES-256-GCM recovers from a ciphertext with its tag,
/// or `None` where the tag does not authenticate it.
pub uninterp spec fn aes_gcm_opened(key: Seq<u8>, nonce: Seq<u8>, ciphertext: Seq<u8>) -> Option<
    Seq<u8>,
>;

/// `String::from_utf8`. Claimed: it accepts exactly the byte strings that
/// are well-formed UTF-8, and the text it returns is made of those bytes.
#[verifier::external_body]
pub(crate) fn string_from_utf8(bytes: Vec<u8>) -> (text: Result<String, std::string::FromUtf8Error>)
    ensures
        text is Ok <==> valid_utf8(bytes@),
        text matches Ok(s) ==> encode_utf8(s@) == bytes@,
{
    String::from_utf8(bytes)
}

/// `pad::PadStr::pad_to_width`. Claimed: the text comes back followed by
/// as many spaces as its display width is short of `width`, and unchanged
/// where it is already that wide.
#[verifier::external_body]
pub(crate) fn pad_to_width(text: &str, width: usize) -> (padded: String)
    ensures
        padded@ == text@ + Seq::new(
            if display_width(text@) < width {
                (width - display_width(text@)) as nat
            } else {
                0
            },
            |i: int| ' ',
        ),
{
    text.pad_to_width(width)
}

/// `chrono::Local::now` and `DateTime::timestamp`: the seconds since the
/// Unix epoch on this machine's clock. Nothing is claimed of the value.
#[verifier::external_body]
pub(crate) fn unix_time_now() -> i64 {
    chrono::Local::now().timestamp()
}

/// `SaltString::generate` of `password_hash`, on the operating system's
/// random number generator: sixteen random bytes in unpadded Base64.
/// Nothing is claimed of the value.
#[verifier::external_body]
pub(crate) fn random_salt() -> String {
    SaltString::generate(&mut OsRng).as_str().to_owned()
}

/// `rand::Rng::gen` on the thread's generator: twelve random bytes.
/// Nothing is claimed of the value.
#[verifier::external_body]
pub(crate) fn random_nonce() -> [u8; 12] {
    rand::thread_rng().gen::<[u8; 12]>()
}

/// `argon2::PasswordHasher::hash_password` on `Argon2::default()`, and the
/// `hash` field of what it returns. Claimed: the outcome depends on the
/// password and the salt alone.
#[verifier::external_body]
pub(crate) fn argon2_hash_password(password: &[u8], salt: &str) -> (hash: Result<
    Option<Vec<u8>>,
    argon2::password_hash::Error,
>)
    ensures
        match hash {
            Ok(Some(bytes)) => argon2_hash(password@, salt@) == Some(bytes@),
            _ => argon2_hash(password@, salt@) is None,
        },
{
    Argon2::default().hash_password(password, salt).map(|h| h.hash.map(|o| o.as_bytes().to_vec()))
}

/// Whether `other` is `sealed` with another tag: it is as long, has the
/// same bytes before the last sixteen, and is not the same.
pub open spec fn differs_in_tag_only(sealed: Seq<u8>, other: Seq<u8>) -> bool {
    &&& sealed.len() >= AEAD_TAG_SIZE
    &&& other.len() == sealed.len()
    &&& other.take(sealed.len() - AEAD_TAG_SIZE) == sealed.take(sealed.len() - AEAD_TAG_SIZE)
    &&& other != sealed
}

/// `aes_gcm::aead::Aead::encrypt` on `Aes256Gcm`, for a plaintext within
/// the cipher's limit. Claimed: it succeeds; what it returns depends on
/// the three arguments alone, is sixteen bytes longer than the plaintext,
/// and opens to the plaintext under the same key and nonce; and the same
/// bytes with any other tag at their end do not open, since the cipher
/// computes the one tag of a ciphertext and compares.
#[verifier::external_body]
pub(crate) fn aes_gcm_seal(key: &[u8], nonce: &[u8; 12], plaintext: &[u8]) -> (sealed: Result<
    Vec<u8>,
    aes_gcm::Error,
>)
    requires
        key@.len() == AEAD_KEY_SIZE,
        plaintext@.len() <= AEAD_MAX_PLAINTEXT,
    ensures
        sealed is Ok,
        sealed matches Ok(c) ==> c@ == aes_gcm_sealed(key@, nonce@, plaintext@),
        sealed matches Ok(c) ==> c@.len() == plaintext@.len() + AEAD_TAG_SIZE,
        sealed matches Ok(c) ==> aes_gcm_opened(key@, nonce@, c@) == Some(plaintext@),
        sealed matches Ok(c) ==> forall|other: Seq<u8>|
            differs_in_tag_only(c@, other) ==> #[trigger] aes_gcm_opened(key@, nonce@, other)
                is None,
{
    Aes256Gcm::new(Key::from_slice(key)).encrypt(Nonce::from_slice(nonce), plaintext)
}

/// `aes_gcm::aead::Aead::decrypt` on `Aes256Gcm`, for a ciphertext within
/// the cipher's limit. Claimed: the outcome depends on the three arguments
/// alone.
#[verifier::external_body]
pub(crate) fn aes_gcm_open(key: &[u8], nonce: &[u8; 12], ciphertext: &[u8]) -> (opened: Result<
    Vec<u8>,
    aes_gcm::Error,
>)
    requires
        key@.len() == AEAD_KEY_SIZE,
        ciphertext@.len() <= AEAD_MAX_CIPHERTEXT,
    ensures
        match opened {
            Ok(plaintext) => aes_gcm_opened(key@, nonce@, ciphertext@) == Some(plaintext@),
            Err(_) => aes_gcm_opened(key@, nonce@, ciphertext@) is None,
        },
{
    Aes256Gcm::new(Key::from_slice(key)).decrypt(Nonce::from_slice(nonce), ciphertext)
}

} // verus!

use crate::error::ContainerError;
use crate::header_binary_v0::{HeaderBinaryV0, HEADER_SIZE};
use crate::primitives::{
    aes_gcm_open, aes_gcm_opened, aes_gcm_seal, aes_gcm_sealed, argon2_hash,
    argon2_hash_password, differs_in_tag_only, random_nonce, random_salt, string_from_utf8,
    AEAD_KEY_SIZE, AEAD_MAX_CIPHERTEXT, AEAD_MAX_PLAINTEXT, AEAD_TAG_SIZE,
};
use crate::wire::{append_bytes, take_array};
use vstd::prelude::*;
use vstd::slice::{slice_subrange, slice_to_vec};
use vstd::utf8::{
    decode_utf8, encode_utf8, encode_utf8_decode_utf8, encode_utf8_valid_utf8, valid_utf8,
};

verus! {

pub const SALT_SIZE: usize = 22;

pub const NONCE_SIZE: usize = 12;

/// Where the salt begins in a record.
pub const SALT_OFFSET: usize = 1024;

/// Where the nonce begins in a record.
pub const NONCE_OFFSET: usize = 1046;

/// Where the ciphertext begins in a record: the size of the shortest
/// record.
pub const CIPHERTEXT_OFFSET: usize = 1058;

/// One record of a container: the header in the clear, what the key and
/// the cipher were fed with, and the payload.
#[derive(Clone, Debug)]
pub struct Entry {
    /// The header as it stands on disk.
    pub header: [u8; HEADER_SIZE],
    /// Random salt of the key derivation, as text.
    pub salt: [u8; SALT_SIZE],
    /// Random nonce of the cipher.
    pub nonce: [u8; NONCE_SIZE],
    /// Whether `ciphertext` holds the sealed payload or the plain one. This
    /// lives in memory only.
    pub encrypted: bool,
    /// The payload: sealed, with its tag at the end, or plain.
    pub ciphertext: Vec<u8>,
}

/// The key that a password and a salt give: the Argon2id hash of the
/// password under the salt read as UTF-8 text, if there is one and it has
/// the size of a key.
pub open spec fn key_of(password: Seq<u8>, salt: Seq<u8>) -> Option<Seq<u8>> {
    if !valid_utf8(salt) {
        None
    } else {
        match argon2_hash(password, decode_utf8(salt)) {
            Some(key) => if key.len() == AEAD_KEY_SIZE {
                Some(key)
            } else {
                None
            },
            None => None,
        }
    }
}

/// What opening an entry with a password gives: the plaintext, or the
/// reason there is none. A ciphertext longer than the cipher can have made
/// is not authentic, whatever the password; that is settled first.
pub open spec fn opened(entry: Entry, password: Seq<u8>) -> Result<Seq<u8>, ContainerError> {
    if entry.ciphertext@.len() > AEAD_MAX_CIPHERTEXT {
        Err(ContainerError::AuthenticationFailed)
    } else {
        match key_of(password, entry.salt@) {
            None => Err(ContainerError::KeyDerivationFailed),
            Some(key) => match aes_gcm_opened(key, entry.nonce@, entry.ciphertext@) {
                Some(plaintext) => Ok(plaintext),
                None => Err(ContainerError::AuthenticationFailed),
            },
        }
    }
}

/// Whether `entry` is what sealing `plaintext` behind `header` under
/// `password` gives, for the salt and the nonce that the entry holds.
pub open spec fn is_sealing_of(
    entry: Entry,
    plaintext: Seq<u8>,
    header: Seq<u8>,
    password: Seq<u8>,
) -> bool {
    &&& entry.header@ == header
    &&& entry.encrypted
    &&& plaintext.len() <= AEAD_MAX_PLAINTEXT
    &&& key_of(password, entry.salt@) matches Some(key)
    &&& entry.ciphertext@ == aes_gcm_sealed(key, entry.nonce@, plaintext)
    &&& entry.ciphertext@.len() == plaintext.len() + AEAD_TAG_SIZE
    &&& aes_gcm_opened(key, entry.nonce@, entry.ciphertext@) == Some(plaintext)
    &&& forall|other: Seq<u8>|
        differs_in_tag_only(entry.ciphertext@, other) ==> #[trigger] aes_gcm_opened(
            key,
            entry.nonce@,
            other,
        ) is None
}

/// Opening what was sealed, with the password it was sealed under, gives
/// the plaintext again.
pub proof fn lemma_open_sealed(
    entry: Entry,
    plaintext: Seq<u8>,
    header: Seq<u8>,
    password: Seq<u8>,
)
    requires
        is_sealing_of(entry, plaintext, header, password),
    ensures
        opened(entry, password) == Ok::<Seq<u8>, ContainerError>(plaintext),
{
}

/// A sealed entry whose tag was changed does not open: with the password
/// it was sealed under, and the salt, the nonce and every byte before the
/// tag as they were, any other last sixteen bytes are refused.
///
/// This is the part of tamper detection that holds of every key. A change
/// before the tag, and another password, are refused by the strength of
/// the cipher and the key derivation, which is no theorem.
pub proof fn lemma_changed_tag_is_refused(
    entry: Entry,
    plaintext: Seq<u8>,
    header: Seq<u8>,
    password: Seq<u8>,
    changed: Entry,
)
    requires
        is_sealing_of(entry, plaintext, header, password),
        changed.salt@ == entry.salt@,
        changed.nonce@ == entry.nonce@,
        differs_in_tag_only(entry.ciphertext@, changed.ciphertext@),
    ensures
        opened(changed, password) == Err::<Seq<u8>, ContainerError>(
            ContainerError::AuthenticationFailed,
        ),
{
}

/// The key for a password and a salt text, if Argon2id gives one of the
/// right size.
fn derive_key(password: &[u8], salt: &str) -> (key: Option<Vec<u8>>)
    ensures
        match key {
            Some(k) => key_of(password@, encode_utf8(salt@)) == Some(k@),
            None => key_of(password@, encode_utf8(salt@)) is None,
        },
{
    proof {
        encode_utf8_valid_utf8(salt@);
        encode_utf8_decode_utf8(salt@);
    }
    match argon2_hash_password(password, salt) {
        Ok(Some(key)) => if key.len() == AEAD_KEY_SIZE {
            Some(key)
        } else {
            None
        },
        Ok(None) => None,
        Err(_) => None,
    }
}

/// Seals `value` under `password` with a salt and a nonce that the caller
/// has drawn. Kept private: a nonce must never be used twice under one
/// key, so none is ever taken from outside the library.
fn seal(
    value: &[u8],
    header: &HeaderBinaryV0,
    password: &[u8],
    salt: &str,
    nonce: [u8; NONCE_SIZE],
) -> (entry: Result<Entry, ContainerError>)
    requires
        value@.len() <= AEAD_MAX_PLAINTEXT,
    ensures
        entry is Ok <==> encode_utf8(salt@).len() == SALT_SIZE && key_of(
            password@,
            encode_utf8(salt@),
        ) is Some,
        entry matches Ok(e) ==> is_sealing_of(e, value@, header.wire(), password@) && e.salt@
            == encode_utf8(salt@) && e.nonce == nonce,
        entry matches Err(e) ==> e == ContainerError::KeyDerivationFailed,
{
    let salt_bytes = salt.as_bytes();
    if salt_bytes.len() != SALT_SIZE {
        return Err(ContainerError::KeyDerivationFailed);
    }
    let key = match derive_key(password, salt) {
        Some(key) => key,
        None => { return Err(ContainerError::KeyDerivationFailed); },
    };
    let ciphertext = match aes_gcm_seal(key.as_slice(), &nonce, value) {
        Ok(ciphertext) => ciphertext,
        // Never taken: the cipher seals every plaintext within its limit.
        Err(_) => { return Err(ContainerError::PayloadTooLong); },
    };
    let header_bytes = header.to_bytes();
    let header_array = take_array::<HEADER_SIZE>(header_bytes.as_slice(), 0);
    assert(header_array@ =~= header.wire());
    let salt_array = take_array::<SALT_SIZE>(salt_bytes, 0);
    assert(salt_array@ =~= encode_utf8(salt@));
    Ok(Entry { header: header_array, salt: salt_array, nonce, encrypted: true, ciphertext })
}

impl Entry {
    /// The bytes of this entry on disk: header, salt, nonce, payload.
    pub open spec fn wire(&self) -> Seq<u8> {
        self.header@ + self.salt@ + self.nonce@ + self.ciphertext@
    }

    /// Each part is found in the bytes at its offset.
    pub proof fn lemma_wire_parts(&self)
        ensures
            self.wire().len() == CIPHERTEXT_OFFSET + self.ciphertext@.len(),
            self.wire().subrange(0, HEADER_SIZE as int) == self.header@,
            self.wire().subrange(SALT_OFFSET as int, NONCE_OFFSET as int) == self.salt@,
            self.wire().subrange(NONCE_OFFSET as int, CIPHERTEXT_OFFSET as int) == self.nonce@,
            self.wire().skip(CIPHERTEXT_OFFSET as int) == self.ciphertext@,
    {
        let wire = self.wire();
        assert(wire.subrange(0, HEADER_SIZE as int) =~= self.header@);
        assert(wire.subrange(SALT_OFFSET as int, NONCE_OFFSET as int) =~= self.salt@);
        assert(wire.subrange(NONCE_OFFSET as int, CIPHERTEXT_OFFSET as int) =~= self.nonce@);
        assert(wire.skip(CIPHERTEXT_OFFSET as int) =~= self.ciphertext@);
    }

    /// Seals `value` behind `header` under `password`, with a salt and a
    /// nonce drawn afresh from the system's random number generators.
    ///
    /// A plaintext longer than the cipher takes is refused before anything
    /// is drawn. Otherwise the entry comes back unless no key can be
    /// derived for the salt that was drawn.
    pub fn encrypt(value: &[u8], header: &HeaderBinaryV0, password: &[u8]) -> (entry: Result<
        Self,
        ContainerError,
    >)
        ensures
            entry == Err::<Entry, ContainerError>(ContainerError::PayloadTooLong) <==> value@.len()
                > AEAD_MAX_PLAINTEXT,
            entry matches Ok(e) ==> is_sealing_of(e, value@, header.wire(), password@),
            entry matches Err(e) ==> e == ContainerError::PayloadTooLong || e
                == ContainerError::KeyDerivationFailed,
    {
        if value.len() as u64 > AEAD_MAX_PLAINTEXT {
            return Err(ContainerError::PayloadTooLong);
        }
        let salt = random_salt();
        let nonce = random_nonce();
        seal(value, header, password, salt.as_str(), nonce)
    }

    /// Opens this entry with `password`. The entry that comes back holds
    /// the plaintext in place of the ciphertext and is marked as not
    /// encrypted; this one is left as it is.
    ///
    /// A wrong password and a changed ciphertext give the same error, and
    /// so does a ciphertext longer than the cipher can have made, which is
    /// refused before any key is derived.
    pub fn decrypt(&self, password: &str) -> (entry: Result<Self, ContainerError>)
        ensures
            match entry {
                Ok(e) => opened(*self, encode_utf8(password@)) == Ok::<Seq<u8>, ContainerError>(
                    e.ciphertext@,
                ) && e.header == self.header && e.salt == self.salt && e.nonce == self.nonce
                    && !e.encrypted,
                Err(e) => opened(*self, encode_utf8(password@)) == Err::<
                    Seq<u8>,
                    ContainerError,
                >(e),
            },
    {
        if self.ciphertext.len() as u64 > AEAD_MAX_CIPHERTEXT {
            return Err(ContainerError::AuthenticationFailed);
        }
        let salt = match string_from_utf8(slice_to_vec(&self.salt)) {
            Ok(salt) => salt,
            Err(_) => { return Err(ContainerError::KeyDerivationFailed); },
        };
        let key = match derive_key(password.as_bytes(), salt.as_str()) {
            Some(key) => key,
            None => { return Err(ContainerError::KeyDerivationFailed); },
        };
        match aes_gcm_open(key.as_slice(), &self.nonce, self.ciphertext.as_slice()) {
            Ok(plaintext) => Ok(
                Entry {
                    header: self.header,
                    salt: self.salt,
                    nonce: self.nonce,
                    encrypted: false,
                    ciphertext: plaintext,
                },
            ),
            Err(_) => Err(ContainerError::AuthenticationFailed),
        }
    }

    /// Cuts the bytes of a record into its parts. `encrypted` says what
    /// the payload is taken to be.
    pub fn from_bytes(file: &[u8], encrypted: bool) -> (entry: Result<Self, ContainerError>)
        ensures
            entry is Ok <==> file@.len() >= CIPHERTEXT_OFFSET,
            entry matches Ok(e) ==> e.wire() == file@ && e.encrypted == encrypted,
            entry matches Err(e) ==> e == ContainerError::TruncatedRecord,
    {
        if file.len() < CIPHERTEXT_OFFSET {
            return Err(ContainerError::TruncatedRecord);
        }
        let mut position: usize = 0;
        let header = take_array::<HEADER_SIZE>(file, position);
        position += HEADER_SIZE;
        let salt = take_array::<SALT_SIZE>(file, position);
        position += SALT_SIZE;
        let nonce = take_array::<NONCE_SIZE>(file, position);
        position += NONCE_SIZE;
        let ciphertext = slice_to_vec(slice_subrange(file, position, file.len()));
        let entry = Entry { header, salt, nonce, encrypted, ciphertext };
        assert(entry.wire() =~= file@);
        Ok(entry)
    }

    pub fn to_bytes(&self) -> (file: Vec<u8>)
        ensures
            file@ == self.wire(),
    {
        let mut file = Vec::new();
        append_bytes(&mut file, &self.header);
        append_bytes(&mut file, &self.salt);
        append_bytes(&mut file, &self.nonce);
        append_bytes(&mut file, self.ciphertext.as_slice());
        assert(file@ =~= self.wire());
        file
    }
}

} // verus!

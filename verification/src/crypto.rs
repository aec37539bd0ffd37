//! Encryption of a model's private data: AES-256-GCM under a fresh nonce, and
//! base64 for what is stored as text.

use rustc_serialize::base64::{FromBase64, ToBase64};
use sodiumoxide::crypto::aead::aes256gcm::Aes256Gcm;
use vstd::prelude::*;

use crate::error::CryptoError;

verus! {

#[verifier::external_type_specification]
#[verifier::external_body]
pub struct ExAes256Gcm(sodiumoxide::crypto::aead::aes256gcm::Aes256Gcm);

/// The length of a key.
pub const KEY_LEN: usize = 32;

/// The length of a nonce.
pub const NONCE_LEN: usize = 12;

/// The length of an authentication tag.
pub const TAG_LEN: usize = 16;

/// The longest message that one nonce covers.
pub const MAX_MESSAGE: u64 = 68_719_476_704;

/// `sodiumoxide::init` brings libsodium up. Whether that works is up to the machine.
pub assume_specification[ sodiumoxide::init ]() -> (r: Result<(), ()>)
;

/// `Aes256Gcm::new` gives the cipher where the processor has it: it is up to the
/// machine.
pub assume_specification[ sodiumoxide::crypto::aead::aes256gcm::Aes256Gcm::new ]() -> (r: Result<
    sodiumoxide::crypto::aead::aes256gcm::Aes256Gcm,
    (),
>)
;

/// `randombytes` gives as many random bytes as were asked for.
pub assume_specification[ sodiumoxide::randombytes::randombytes ](size: usize) -> (r: Vec<u8>)
    ensures
        r@.len() == size,
;

/// What AES-256-GCM makes of a message: the ciphertext with its tag.
pub uninterp spec fn aes_sealed(key: Seq<u8>, nonce: Seq<u8>, message: Seq<u8>) -> Seq<u8>;

/// What AES-256-GCM makes of a ciphertext with its tag, if the tag is right.
pub uninterp spec fn aes_opened(key: Seq<u8>, nonce: Seq<u8>, sealed: Seq<u8>) -> Option<Seq<u8>>;

/// Calls `Aes256Gcm::seal` without additional data. Its result is a function of key,
/// nonce and message, is longer than the message by the tag, and opens to the message
/// under the same key and nonce.
#[verifier::external_body]
fn aes_seal(aes: &Aes256Gcm, key: &[u8], nonce: &[u8], message: &[u8]) -> (r: Vec<u8>)
    requires
        key@.len() == KEY_LEN,
        nonce@.len() == NONCE_LEN,
        message@.len() <= MAX_MESSAGE,
    ensures
        r@ == aes_sealed(key@, nonce@, message@),
        r@.len() == message@.len() + TAG_LEN,
        aes_opened(key@, nonce@, r@) == Some(message@),
{
    let n = sodiumoxide::crypto::aead::aes256gcm::Nonce::from_slice(nonce).unwrap();
    let k = sodiumoxide::crypto::aead::aes256gcm::Key::from_slice(key).unwrap();
    aes.seal(message, None, &n, &k)
}

/// Calls `Aes256Gcm::open` without additional data. Its result is a function of key,
/// nonce and ciphertext.
#[verifier::external_body]
fn aes_open(aes: &Aes256Gcm, key: &[u8], nonce: &[u8], sealed: &[u8]) -> (r: Option<Vec<u8>>)
    requires
        key@.len() == KEY_LEN,
        nonce@.len() == NONCE_LEN,
        sealed@.len() <= MAX_MESSAGE + TAG_LEN,
    ensures
        match r {
            Some(m) => aes_opened(key@, nonce@, sealed@) == Some(m@),
            None => aes_opened(key@, nonce@, sealed@) is None,
        },
{
    let n = sodiumoxide::crypto::aead::aes256gcm::Nonce::from_slice(nonce).unwrap();
    let k = sodiumoxide::crypto::aead::aes256gcm::Key::from_slice(key).unwrap();
    aes.open(sealed, None, &n, &k).ok()
}

/// The base64 text of bytes, in the standard alphabet with padding.
pub uninterp spec fn base64_written(data: Seq<u8>) -> Seq<char>;

/// The bytes of a base64 text, if it is one.
pub uninterp spec fn base64_read(text: Seq<char>) -> Option<Seq<u8>>;

/// Calls `to_base64` of `rustc_serialize` with the standard configuration. Its result
/// is a function of the bytes, and reads back as the bytes.
#[verifier::external_body]
fn base64_encode(data: &[u8]) -> (r: String)
    ensures
        r@ == base64_written(data@),
        base64_read(r@) == Some(data@),
{
    data.to_base64(rustc_serialize::base64::STANDARD)
}

/// The base64 text of bytes.
pub fn to_base64(data: &Vec<u8>) -> (r: String)
    ensures
        r@ == base64_written(data@),
        base64_read(r@) == Some(data@),
{
    base64_encode(data.as_slice())
}

/// Calls `from_base64` of `rustc_serialize`. Its result is a function of the text.
#[verifier::external_body]
fn base64_decode(text: &str) -> (r: Option<Vec<u8>>)
    ensures
        match r {
            Some(data) => base64_read(text@) == Some(data@),
            None => base64_read(text@) is None,
        },
{
    text.from_base64().ok()
}

/// The bytes of a base64 text.
pub fn from_base64(text: &str) -> (r: Result<Vec<u8>, CryptoError>)
    ensures
        match r {
            Ok(data) => base64_read(text@) == Some(data@),
            Err(e) => base64_read(text@) is None && e == CryptoError::Base64,
        },
{
    match base64_decode(text) {
        Some(data) => Ok(data),
        None => Err(CryptoError::Base64),
    }
}

/// The cipher, where this machine has it. Nothing is promised of that: `cipher_from` says what
/// comes of each answer, and a function that takes the cipher what holds with it and without.
pub fn cipher() -> (r: Option<Aes256Gcm>) {
    match sodiumoxide::init() {
        Ok(_) => cipher_from(Aes256Gcm::new()),
        Err(_) => cipher_from(Err(())),
    }
}

/// The cipher, for what asking for it gave. Where libsodium could not be brought up, that is
/// an error.
pub fn cipher_from(found: Result<Aes256Gcm, ()>) -> (r: Option<Aes256Gcm>)
    ensures
        match found {
            Ok(aes) => r == Some(aes),
            Err(_) => r is None,
        },
{
    match found {
        Ok(aes) => Some(aes),
        Err(_) => None,
    }
}

/// Why a message cannot be encrypted, if it cannot.
pub open spec fn encrypt_error(key: Seq<u8>, message: Seq<u8>, available: bool) -> Option<
    CryptoError,
> {
    if !available {
        Some(CryptoError::Unavailable)
    } else if key.len() != KEY_LEN {
        Some(CryptoError::BadKey)
    } else if message.len() > MAX_MESSAGE {
        Some(CryptoError::TooLong)
    } else {
        None
    }
}

/// What is made of a message under a nonce: the nonce, and the ciphertext after it.
pub open spec fn encrypted(key: Seq<u8>, nonce: Seq<u8>, message: Seq<u8>) -> Seq<u8> {
    nonce + aes_sealed(key, nonce, message)
}

/// What is made of data that should be a nonce and a ciphertext after it.
pub open spec fn decrypted(key: Seq<u8>, data: Seq<u8>, available: bool) -> Result<
    Seq<u8>,
    CryptoError,
> {
    if !available {
        Err(CryptoError::Unavailable)
    } else if key.len() != KEY_LEN {
        Err(CryptoError::BadKey)
    } else if data.len() < NONCE_LEN {
        Err(CryptoError::BadData)
    } else if data.len() > NONCE_LEN + MAX_MESSAGE + TAG_LEN {
        Err(CryptoError::TooLong)
    } else {
        match aes_opened(key, data.take(NONCE_LEN as int), data.skip(NONCE_LEN as int)) {
            Some(message) => Ok(message),
            None => Err(CryptoError::Authentication),
        }
    }
}

/// Encrypts a message under the nonce given.
pub fn encrypt_with(
    aes: &Option<Aes256Gcm>,
    nonce: &Vec<u8>,
    key: &Vec<u8>,
    message: &[u8],
) -> (r: Result<Vec<u8>, CryptoError>)
    requires
        nonce@.len() == NONCE_LEN,
    ensures
        match r {
            Ok(data) => {
                &&& encrypt_error(key@, message@, aes is Some) is None
                &&& data@ == encrypted(key@, nonce@, message@)
                &&& decrypted(key@, data@, true) == Ok::<Seq<u8>, CryptoError>(message@)
            },
            Err(e) => encrypt_error(key@, message@, aes is Some) == Some(e),
        },
{
    match aes {
        None => Err(CryptoError::Unavailable),
        Some(aes) => {
            if key.len() != KEY_LEN {
                return Err(CryptoError::BadKey);
            }
            if message.len() as u64 > MAX_MESSAGE {
                return Err(CryptoError::TooLong);
            }
            let mut sealed = aes_seal(aes, key.as_slice(), nonce.as_slice(), message);
            let mut data = nonce.clone();
            data.append(&mut sealed);
            assert(data@ =~= encrypted(key@, nonce@, message@));
            assert(data@.take(NONCE_LEN as int) =~= nonce@);
            assert(data@.skip(NONCE_LEN as int) =~= aes_sealed(key@, nonce@, message@));
            Ok(data)
        },
    }
}

/// Encrypts a message under a nonce drawn at random.
pub fn encrypt(aes: &Option<Aes256Gcm>, key: &Vec<u8>, message: &[u8]) -> (r: Result<
    Vec<u8>,
    CryptoError,
>)
    ensures
        match r {
            Ok(data) => {
                &&& encrypt_error(key@, message@, aes is Some) is None
                &&& exists|nonce: Seq<u8>|
                    nonce.len() == NONCE_LEN && data@ == #[trigger] encrypted(
                        key@,
                        nonce,
                        message@,
                    )
                &&& decrypted(key@, data@, true) == Ok::<Seq<u8>, CryptoError>(message@)
            },
            Err(e) => encrypt_error(key@, message@, aes is Some) == Some(e),
        },
{
    if aes.is_none() {
        return Err(CryptoError::Unavailable);
    }
    let nonce = sodiumoxide::randombytes::randombytes(NONCE_LEN);
    encrypt_with(aes, &nonce, key, message)
}

/// Decrypts what [`encrypt`] made.
pub fn decrypt(aes: &Option<Aes256Gcm>, key: &Vec<u8>, data: &Vec<u8>) -> (r: Result<
    Vec<u8>,
    CryptoError,
>)
    ensures
        match r {
            Ok(message) => decrypted(key@, data@, aes is Some) == Ok::<Seq<u8>, CryptoError>(
                message@,
            ),
            Err(e) => decrypted(key@, data@, aes is Some) == Err::<Seq<u8>, CryptoError>(e),
        },
{
    match aes {
        None => Err(CryptoError::Unavailable),
        Some(aes) => {
            if key.len() != KEY_LEN {
                return Err(CryptoError::BadKey);
            }
            if data.len() < NONCE_LEN {
                return Err(CryptoError::BadData);
            }
            if (data.len() - NONCE_LEN) as u64 > MAX_MESSAGE + TAG_LEN as u64 {
                return Err(CryptoError::TooLong);
            }
            let mut nonce = data.clone();
            let sealed = nonce.split_off(NONCE_LEN);
            assert(nonce@ =~= data@.take(NONCE_LEN as int));
            assert(sealed@ =~= data@.skip(NONCE_LEN as int));
            match aes_open(aes, key.as_slice(), nonce.as_slice(), sealed.as_slice()) {
                Some(message) => Ok(message),
                None => Err(CryptoError::Authentication),
            }
        },
    }
}

/// A key drawn at random, where this machine has a random source.
pub fn random_key() -> (r: Result<Vec<u8>, CryptoError>)
    ensures
        match r {
            Ok(key) => key@.len() == KEY_LEN,
            Err(e) => e == CryptoError::Unavailable,
        },
{
    match sodiumoxide::init() {
        Ok(_) => Ok(sodiumoxide::randombytes::randombytes(KEY_LEN)),
        Err(_) => Err(CryptoError::Unavailable),
    }
}

/// What is encrypted is the nonce, and after it what the cipher makes of the message; nothing
/// else.
pub proof fn nonce_comes_first(key: Seq<u8>, nonce: Seq<u8>, message: Seq<u8>)
    requires
        nonce.len() == NONCE_LEN,
    ensures
        encrypted(key, nonce, message).take(12) == nonce,
        encrypted(key, nonce, message).skip(12) == aes_sealed(key, nonce, message),
{
    assert(encrypted(key, nonce, message).take(12) =~= nonce);
    assert(encrypted(key, nonce, message).skip(12) =~= aes_sealed(key, nonce, message));
}

/// A message can be encrypted exactly where there is the cipher, the key has the length that the
/// cipher takes, and the message is not longer than one nonce covers; each error tells which it
/// was, in this order.
pub proof fn when_a_message_is_encrypted(key: Seq<u8>, message: Seq<u8>, available: bool)
    ensures
        encrypt_error(key, message, available) is None <==> available && key.len() == 32
            && message.len() <= 68_719_476_704,
        encrypt_error(key, message, available) == Some(CryptoError::Unavailable) <==> !available,
        encrypt_error(key, message, available) == Some(CryptoError::BadKey) <==> available
            && key.len() != 32,
        encrypt_error(key, message, available) == Some(CryptoError::TooLong) <==> available
            && key.len() == 32 && message.len() > 68_719_476_704,
{
}

/// Data are decrypted to a message exactly where there is the cipher, the key has the length that
/// it takes, and what stands after the first twelve bytes opens to the message under the key and
/// those bytes; each error tells why not.
pub proof fn when_data_are_decrypted(key: Seq<u8>, data: Seq<u8>, available: bool, message: Seq<u8>)
    ensures
        ({
            let sized = 12 <= data.len() <= 68_719_476_732;
            let opened = aes_opened(key, data.take(12), data.skip(12));
            let r = decrypted(key, data, available);
            &&& r == Ok::<Seq<u8>, CryptoError>(message) <==> available && key.len() == 32 && sized
                && opened == Some(message)
            &&& r == Err::<Seq<u8>, CryptoError>(CryptoError::Unavailable) <==> !available
            &&& r == Err::<Seq<u8>, CryptoError>(CryptoError::BadKey) <==> available && key.len()
                != 32
            &&& r == Err::<Seq<u8>, CryptoError>(CryptoError::BadData) <==> available && key.len()
                == 32 && data.len() < 12
            &&& r == Err::<Seq<u8>, CryptoError>(CryptoError::TooLong) <==> available && key.len()
                == 32 && data.len() > 68_719_476_732
            &&& r == Err::<Seq<u8>, CryptoError>(CryptoError::Authentication) <==> available
                && key.len() == 32 && sized && opened is None
        }),
{
}

} // verus!

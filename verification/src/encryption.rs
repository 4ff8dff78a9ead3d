//! Encrypting single values: AES-256-GCM under the server's key, with the
//! nonce in front of the ciphertext, the whole in base64 behind `{cipher}`.

use crate::text::{from_chars, slice_chars, to_chars};
use aes_gcm::aead::{Aead, KeyInit};
use base64::Engine;
use rand::RngCore;
use vstd::prelude::*;
use vstd::utf8::{decode_utf8, encode_utf8, valid_utf8};

verus! {

/// The length of a nonce, in bytes.
pub const NONCE_LEN: usize = 12;

/// The length of a key, in bytes.
pub const KEY_LEN: usize = 32;

/// The length of the tag that the cipher puts behind a ciphertext, in bytes.
pub const TAG_LEN: usize = 16;

/// The length up to which the cipher takes a plaintext, in bytes: 2^36.
pub const PLAINTEXT_MAX: u64 = 0x10_0000_0000;

/// Why a value could not be encrypted or decrypted.
#[derive(Clone, Copy, Debug, PartialEq, Eq, Structural)]
pub enum CipherError {
    /// The nonce does not have twelve bytes.
    Nonce,
    /// The cipher refused to encrypt.
    Encrypt,
    /// The value is too long for the tag to be put behind it, or the
    /// encrypted value too long to be written in base64.
    TooLong,
    /// What follows `{cipher}` is not base64.
    Decode,
    /// The encrypted data is too short to hold a nonce.
    TooShort,
    /// The cipher refused to decrypt: wrong key, or data tampered with.
    Decrypt,
    /// The decrypted data is not UTF-8.
    Utf8,
}

/// What AES-256-GCM, as the `aes-gcm` crate computes it, makes of a
/// plaintext under a key and a nonce: the ciphertext with its tag, or
/// nothing where the key does not have 32 bytes or the cipher refuses.
pub uninterp spec fn aes_gcm_sealed(key: Seq<u8>, nonce: Seq<u8>, plaintext: Seq<u8>) -> Option<
    Seq<u8>,
>;

/// What AES-256-GCM, as the `aes-gcm` crate computes it, makes of a
/// ciphertext under a key and a nonce: the plaintext, or nothing where the
/// key does not have 32 bytes or the ciphertext does not authenticate.
pub uninterp spec fn aes_gcm_opened(key: Seq<u8>, nonce: Seq<u8>, ciphertext: Seq<u8>) -> Option<
    Seq<u8>,
>;

/// The standard base64 text of some bytes, with padding, as the `base64`
/// crate writes it.
pub uninterp spec fn base64_text(bytes: Seq<u8>) -> Seq<char>;

/// The bytes that a standard base64 text stands for, as the `base64` crate
/// reads it, or nothing where it refuses the text.
pub uninterp spec fn base64_bytes(text: Seq<char>) -> Option<Seq<u8>>;

/// `Aes256Gcm::new_from_slice` with `key`, then `Aead::encrypt` of
/// `plaintext` under `nonce`. The outcome depends on the three alone and is
/// what [`aes_gcm_sealed`] names. With a key of 32 bytes the call fails
/// only on a plaintext of more than 2^36 bytes, and the ciphertext is the
/// tag of 16 bytes longer than the plaintext. The nonce has to have twelve
/// bytes, since `Nonce::from_slice` panics on any other length, and the
/// plaintext has to leave room for the tag.
#[verifier::external_body]
fn seal(key: &[u8], nonce: &[u8], plaintext: &[u8]) -> (out: Option<Vec<u8>>)
    requires
        nonce@.len() == NONCE_LEN,
        plaintext@.len() + TAG_LEN <= usize::MAX,
    ensures
        match out {
            Some(sealed) => aes_gcm_sealed(key@, nonce@, plaintext@) == Some(sealed@),
            None => aes_gcm_sealed(key@, nonce@, plaintext@) is None,
        },
        key@.len() == KEY_LEN && plaintext@.len() <= PLAINTEXT_MAX ==> out is Some
            && out->Some_0@.len() == plaintext@.len() + TAG_LEN,
{
    let cipher = aes_gcm::Aes256Gcm::new_from_slice(key).ok()?;
    cipher.encrypt(aes_gcm::Nonce::from_slice(nonce), plaintext).ok()
}

/// `Aes256Gcm::new_from_slice` with `key`, then `Aead::decrypt` of
/// `ciphertext` under `nonce`. The outcome depends on the three alone and is
/// what [`aes_gcm_opened`] names. The nonce has to have twelve bytes.
#[verifier::external_body]
fn open(key: &[u8], nonce: &[u8], ciphertext: &[u8]) -> (out: Option<Vec<u8>>)
    requires
        nonce@.len() == NONCE_LEN,
    ensures
        match out {
            Some(opened) => aes_gcm_opened(key@, nonce@, ciphertext@) == Some(opened@),
            None => aes_gcm_opened(key@, nonce@, ciphertext@) is None,
        },
{
    let cipher = aes_gcm::Aes256Gcm::new_from_slice(key).ok()?;
    cipher.decrypt(aes_gcm::Nonce::from_slice(nonce), ciphertext).ok()
}

/// `Engine::encode` of the engine `STANDARD`: the text that
/// [`base64_text`] names. The call panics where the length of the text
/// does not fit in `usize`, which the precondition excludes.
#[verifier::external_body]
fn base64_encode(bytes: &[u8]) -> (out: String)
    requires
        bytes@.len() / 3 * 4 + 4 <= usize::MAX,
    ensures
        out@ == base64_text(bytes@),
{
    base64::engine::general_purpose::STANDARD.encode(bytes)
}

/// `Engine::decode` of the engine `STANDARD`: the bytes that
/// [`base64_bytes`] names, or nothing where the text is refused.
#[verifier::external_body]
fn base64_decode(text: &str) -> (out: Option<Vec<u8>>)
    ensures
        match out {
            Some(bytes) => base64_bytes(text@) == Some(bytes@),
            None => base64_bytes(text@) is None,
        },
{
    base64::engine::general_purpose::STANDARD.decode(text).ok()
}

/// Twelve bytes from `rand::thread_rng`, by `RngCore::fill_bytes`. Nothing is
/// known of them but their number. The generator panics where the system
/// gives it no seed.
#[verifier::external_body]
fn random_nonce() -> (out: Vec<u8>)
    ensures
        out@.len() == NONCE_LEN,
{
    let mut nonce = vec![0u8; NONCE_LEN];
    rand::thread_rng().fill_bytes(&mut nonce);
    nonce
}

/// `String::from_utf8`: the text that the bytes encode, where they are
/// UTF-8.
#[verifier::external_body]
fn string_from_utf8(bytes: Vec<u8>) -> (out: Option<String>)
    ensures
        match out {
            Some(text) => valid_utf8(bytes@) && text@ == decode_utf8(bytes@),
            None => !valid_utf8(bytes@),
        },
{
    String::from_utf8(bytes).ok()
}

/// The key that values are encrypted under.
pub open spec fn key_bytes() -> Seq<u8> {
    encode_utf8("default-secret-key-32-characters"@)
}

/// The mark in front of an encrypted value.
pub open spec fn cipher_mark() -> Seq<char> {
    "{cipher}"@
}

/// Whether `text` begins with `prefix`.
pub open spec fn begins_with(text: Seq<char>, prefix: Seq<char>) -> bool {
    prefix.len() <= text.len() && text.take(prefix.len() as int) == prefix
}

/// The encrypted form of `plaintext` under `nonce`: the mark, then the
/// base64 of the nonce followed by the ciphertext.
pub open spec fn encrypted_with(plaintext: Seq<char>, nonce: Seq<u8>) -> Result<
    Seq<char>,
    CipherError,
> {
    if nonce.len() != NONCE_LEN {
        Err(CipherError::Nonce)
    } else if encode_utf8(plaintext).len() + TAG_LEN > usize::MAX {
        Err(CipherError::TooLong)
    } else {
        match aes_gcm_sealed(key_bytes(), nonce, encode_utf8(plaintext)) {
            None => Err(CipherError::Encrypt),
            Some(sealed) => if (nonce + sealed).len() / 3 * 4 + 4 <= usize::MAX {
                Ok(cipher_mark() + base64_text(nonce + sealed))
            } else {
                Err(CipherError::TooLong)
            },
        }
    }
}

/// The plaintext of `encrypted`. A text without the mark stands for itself.
pub open spec fn decrypted(encrypted: Seq<char>) -> Result<Seq<char>, CipherError> {
    if !begins_with(encrypted, cipher_mark()) {
        Ok(encrypted)
    } else {
        match base64_bytes(encrypted.skip(cipher_mark().len() as int)) {
            None => Err(CipherError::Decode),
            Some(data) => if data.len() < NONCE_LEN {
                Err(CipherError::TooShort)
            } else {
                match aes_gcm_opened(
                    key_bytes(),
                    data.take(NONCE_LEN as int),
                    data.skip(NONCE_LEN as int),
                ) {
                    None => Err(CipherError::Decrypt),
                    Some(plain) => if valid_utf8(plain) {
                        Ok(decode_utf8(plain))
                    } else {
                        Err(CipherError::Utf8)
                    },
                }
            },
        }
    }
}

/// Whether `chars` begins with `prefix`.
pub fn starts_with_chars(chars: &Vec<char>, prefix: &Vec<char>) -> (out: bool)
    ensures
        out == begins_with(chars@, prefix@),
{
    if prefix.len() > chars.len() {
        return false;
    }
    let mut i: usize = 0;
    while i < prefix.len()
        invariant
            i <= prefix.len() <= chars.len(),
            forall|j: int| 0 <= j < i ==> chars@[j] == prefix@[j],
        decreases prefix.len() - i,
    {
        if chars[i] != prefix[i] {
            proof {
                assert(chars@.take(prefix@.len() as int)[i as int] == chars@[i as int]);
            }
            return false;
        }
        i += 1;
    }
    assert(chars@.take(prefix@.len() as int) =~= prefix@);
    true
}

/// Copies `bytes[from..to]` into a vector of its own.
fn slice_bytes(bytes: &Vec<u8>, from: usize, to: usize) -> (out: Vec<u8>)
    requires
        from <= to <= bytes.len(),
    ensures
        out@ == bytes@.subrange(from as int, to as int),
{
    let mut out: Vec<u8> = Vec::new();
    let mut i: usize = from;
    while i < to
        invariant
            from <= i <= to <= bytes.len(),
            out@ == bytes@.subrange(from as int, i as int),
        decreases to - i,
    {
        out.push(bytes[i]);
        assert(bytes@.subrange(from as int, i + 1) =~= bytes@.subrange(from as int, i as int).push(
            bytes@[i as int],
        ));
        i += 1;
    }
    out
}

/// Whether a plaintext is short enough to be encrypted: at most 2^36
/// bytes, and such that the base64 of nonce, ciphertext and tag can be
/// written.
pub open spec fn encryptable(plaintext: Seq<char>) -> bool {
    let bytes = encode_utf8(plaintext).len();
    bytes <= PLAINTEXT_MAX && (NONCE_LEN + bytes + TAG_LEN) / 3 * 4 + 4 <= usize::MAX
}

/// The key has 32 bytes.
pub proof fn lemma_key_length()
    ensures
        key_bytes().len() == KEY_LEN,
{
    let key = "default-secret-key-32-characters";
    reveal_strlit("default-secret-key-32-characters");
    assert(key@.len() == 32);
    assert(vstd::utf8::is_ascii_chars(key@));
    vstd::utf8::is_ascii_chars_encode_utf8(key@);
}

/// Encrypts `plaintext` under `nonce`, which has to have twelve bytes. With
/// such a nonce every plaintext that is short enough is encrypted.
pub fn encrypt_with_nonce(plaintext: &str, nonce: &Vec<u8>) -> (out: Result<String, CipherError>)
    ensures
        match out {
            Ok(text) => encrypted_with(plaintext@, nonce@) == Ok::<Seq<char>, CipherError>(text@),
            Err(e) => encrypted_with(plaintext@, nonce@) == Err::<Seq<char>, CipherError>(e),
        },
        nonce@.len() == NONCE_LEN && encryptable(plaintext@) ==> out is Ok,
{
    if nonce.len() != NONCE_LEN {
        return Err(CipherError::Nonce);
    }
    if plaintext.as_bytes().len() > usize::MAX - TAG_LEN {
        return Err(CipherError::TooLong);
    }
    proof {
        lemma_key_length();
    }
    let key = "default-secret-key-32-characters".as_bytes();
    let sealed = match seal(key, nonce.as_slice(), plaintext.as_bytes()) {
        Some(sealed) => sealed,
        None => {
            return Err(CipherError::Encrypt);
        },
    };
    let mut data = slice_bytes(nonce, 0, nonce.len());
    let mut rest = sealed;
    let ghost sealed_bytes = rest@;
    data.append(&mut rest);
    assert(data@ =~= nonce@ + sealed_bytes);
    if data.len() / 3 > (usize::MAX - 4) / 4 {
        return Err(CipherError::TooLong);
    }
    let mut out = "{cipher}".to_owned();
    out.append(base64_encode(data.as_slice()).as_str());
    Ok(out)
}

/// Encrypts `plaintext` under a nonce drawn at random: the result is the
/// encrypted form of `plaintext` under some nonce of twelve bytes. Every
/// plaintext that is short enough is encrypted.
pub fn encrypt(plaintext: &str) -> (out: Result<String, CipherError>)
    ensures
        encryptable(plaintext@) ==> out is Ok,
        exists|nonce: Seq<u8>|
            nonce.len() == NONCE_LEN && match out {
                Ok(text) => #[trigger] encrypted_with(plaintext@, nonce) == Ok::<
                    Seq<char>,
                    CipherError,
                >(text@),
                Err(e) => encrypted_with(plaintext@, nonce) == Err::<Seq<char>, CipherError>(e),
            },
{
    let nonce = random_nonce();
    let out = encrypt_with_nonce(plaintext, &nonce);
    proof {
        let witness = nonce@;
        assert(witness.len() == NONCE_LEN && match out {
            Ok(text) => encrypted_with(plaintext@, witness) == Ok::<Seq<char>, CipherError>(
                text@,
            ),
            Err(e) => encrypted_with(plaintext@, witness) == Err::<Seq<char>, CipherError>(e),
        });
    }
    out
}

/// Decrypts `encrypted`. A text that does not begin with `{cipher}` is
/// handed back as it is.
pub fn decrypt(encrypted: &str) -> (out: Result<String, CipherError>)
    ensures
        match out {
            Ok(text) => decrypted(encrypted@) == Ok::<Seq<char>, CipherError>(text@),
            Err(e) => decrypted(encrypted@) == Err::<Seq<char>, CipherError>(e),
        },
{
    let chars = to_chars(encrypted);
    let mark = to_chars("{cipher}");
    if !starts_with_chars(&chars, &mark) {
        return Ok(encrypted.to_owned());
    }
    let payload = from_chars(&slice_chars(&chars, mark.len(), chars.len()));
    assert(payload@ =~= encrypted@.skip(cipher_mark().len() as int));
    let data = match base64_decode(payload.as_str()) {
        Some(data) => data,
        None => {
            return Err(CipherError::Decode);
        },
    };
    if data.len() < NONCE_LEN {
        return Err(CipherError::TooShort);
    }
    let nonce = slice_bytes(&data, 0, NONCE_LEN);
    let ciphertext = slice_bytes(&data, NONCE_LEN, data.len());
    assert(nonce@ =~= data@.take(NONCE_LEN as int));
    assert(ciphertext@ =~= data@.skip(NONCE_LEN as int));
    let key = "default-secret-key-32-characters".as_bytes();
    let plain = match open(key, nonce.as_slice(), ciphertext.as_slice()) {
        Some(plain) => plain,
        None => {
            return Err(CipherError::Decrypt);
        },
    };
    match string_from_utf8(plain) {
        Some(text) => Ok(text),
        None => Err(CipherError::Utf8),
    }
}

} // verus!

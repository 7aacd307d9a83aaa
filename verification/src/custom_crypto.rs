//! Authenticated encryption of short buffers and of stream segments.
//!
//! The cipher is AES-256-GCM inside the STREAM construction with a 32-bit
//! big-endian segment counter and a last-segment flag. Key and nonce are both
//! derived from a password through MD5, so equal passwords always give equal
//! ciphertexts.

use aead::stream::{NewStream, StreamBE32, StreamPrimitive};
use aead::KeyInit;
use aes_gcm::Aes256Gcm;
use base64::Engine;
use vstd::prelude::*;
use vstd::slice::*;
use vstd::string::*;
use vstd::utf8::*;

verus! {

/// Length of the authentication tag that closes every segment.
pub const TAG_LEN: usize = 16;

/// Length of the cipher key.
pub const KEY_LEN: usize = 32;

/// Length of the nonce prefix; the remaining five nonce bytes carry the
/// segment counter and the last-segment flag.
pub const NONCE_LEN: usize = 7;

/// Largest plaintext that one segment can hold.
pub const MAX_SEGMENT: u64 = 0x10_0000_0000;

/// What can go wrong while encrypting or decrypting.
#[derive(Debug, Clone, Copy, PartialEq, Eq, Structural)]
pub enum CryptoError {
    /// The plaintext is longer than one segment can hold, or its encoding
    /// would not fit in memory.
    TooLong,
    /// The stream already holds the largest number of segments.
    CounterExhausted,
    /// The text is not canonical padded base64 in the URL-safe alphabet.
    InvalidBase64,
    /// The ciphertext is shorter than an authentication tag.
    Truncated,
    /// The tag does not match: wrong password or altered ciphertext.
    TagMismatch,
    /// The decrypted bytes are not UTF-8.
    InvalidUtf8,
}

/// The MD5 digest of `data`, sixteen bytes.
pub uninterp spec fn md5_digest(data: Seq<u8>) -> Seq<u8>;

/// The ciphertext of one segment: the encrypted bytes followed by the tag.
pub uninterp spec fn sealed_segment(
    key: Seq<u8>,
    nonce: Seq<u8>,
    position: u32,
    last: bool,
    plaintext: Seq<u8>,
) -> Seq<u8>;

/// The plaintext of one segment, or `None` where the tag does not verify.
pub uninterp spec fn opened_segment(
    key: Seq<u8>,
    nonce: Seq<u8>,
    position: u32,
    last: bool,
    ciphertext: Seq<u8>,
) -> Option<Seq<u8>>;

/// The padded URL-safe base64 text of `data`.
pub uninterp spec fn base64url_text(data: Seq<u8>) -> Seq<char>;

/// The bytes that a padded URL-safe base64 text stands for, or `None`
/// where the text is not canonical.
pub uninterp spec fn base64url_bytes(text: Seq<char>) -> Option<Seq<u8>>;

/// The lower-case hexadecimal digit of a value below sixteen.
pub open spec fn hex_digit(nibble: int) -> u8 {
    if nibble < 10 {
        (48 + nibble) as u8
    } else {
        (87 + nibble) as u8
    }
}

/// Lower-case hexadecimal text: two digits per byte, high nibble first.
pub open spec fn hex_text(data: Seq<u8>) -> Seq<char> {
    Seq::new(
        2 * data.len(),
        |i: int|
            hex_digit(
                if i % 2 == 0 {
                    data[i / 2] as int / 16
                } else {
                    data[i / 2] as int % 16
                },
            ) as char,
    )
}

/// The cipher key for a password: the hexadecimal text of its MD5 digest,
/// taken as thirty-two ASCII bytes.
pub open spec fn stream_key(password: Seq<u8>) -> Seq<u8> {
    Seq::new(hex_text(md5_digest(password)).len(), |i: int| hex_text(md5_digest(password))[i] as u8)
}

/// The nonce prefix for a password: the first seven bytes of its MD5 digest.
pub open spec fn stream_nonce(password: Seq<u8>) -> Seq<u8> {
    md5_digest(password).take(NONCE_LEN as int)
}

/// Calls `md5::compute` and hands back the sixteen digest bytes. The digest
/// is a function of the input alone; nothing more is claimed of it.
#[verifier::external_body]
fn md5_compute(data: &[u8]) -> (digest: [u8; 16])
    ensures
        digest@ == md5_digest(data@),
{
    md5::compute(data).0
}

/// Calls `hex::encode`, which writes each byte as two digits from
/// `0123456789abcdef`, the high nibble first.
#[verifier::external_body]
pub(crate) fn hex_encode(data: &[u8]) -> (text: String)
    ensures
        text@ == hex_text(data@),
{
    hex::encode(data)
}

/// Encrypts one segment: `StreamPrimitive::encrypt` of the `aead` crate, on
/// a `StreamBE32` made by `from_aead` over `Aes256Gcm::new_from_slice`.
/// The cipher accepts every plaintext of at most `MAX_SEGMENT` bytes and
/// refuses longer ones. The result is the encrypted bytes followed by the
/// tag, a function of the five arguments alone, and opening it with the
/// same key, nonce, position and flag gives the plaintext back.
#[verifier::external_body]
fn seal_segment(key: &[u8], nonce: &[u8], position: u32, last: bool, plaintext: &[u8]) -> (sealed:
    Option<Vec<u8>>)
    requires
        key@.len() == KEY_LEN,
        nonce@.len() == NONCE_LEN,
    ensures
        sealed is Some <==> plaintext@.len() <= MAX_SEGMENT,
        sealed matches Some(c) ==> {
            &&& c@ == sealed_segment(key@, nonce@, position, last, plaintext@)
            &&& c@.len() == plaintext@.len() + TAG_LEN
            &&& opened_segment(key@, nonce@, position, last, c@) == Some(plaintext@)
        },
{
    let cipher = Aes256Gcm::new_from_slice(key).ok()?;
    StreamBE32::from_aead(cipher, nonce.into()).encrypt(position, last, plaintext).ok()
}

/// Decrypts one segment: `StreamPrimitive::decrypt` of the `aead` crate, on
/// a `StreamBE32` made by `from_aead` over `Aes256Gcm::new_from_slice`.
/// The outcome is a function of the five arguments alone; where the
/// segment opens, the plaintext is shorter than the ciphertext by exactly
/// the tag.
#[verifier::external_body]
fn open_segment(key: &[u8], nonce: &[u8], position: u32, last: bool, ciphertext: &[u8]) -> (opened:
    Option<Vec<u8>>)
    requires
        key@.len() == KEY_LEN,
        nonce@.len() == NONCE_LEN,
    ensures
        opened is Some <==> opened_segment(key@, nonce@, position, last, ciphertext@) is Some,
        opened matches Some(p) ==> {
            &&& opened_segment(key@, nonce@, position, last, ciphertext@) == Some(p@)
            &&& ciphertext@.len() == p@.len() + TAG_LEN
        },
{
    let cipher = Aes256Gcm::new_from_slice(key).ok()?;
    StreamBE32::from_aead(cipher, nonce.into()).decrypt(position, last, ciphertext).ok()
}

/// Whether the base64 text of `len` bytes can be sized without overflow.
pub open spec fn base64_fits(len: nat) -> bool {
    len / 3 < usize::MAX / 4
}

/// The length of the padded base64 text of `len` bytes: four characters
/// for every three bytes begun.
pub open spec fn base64_len(len: nat) -> nat {
    4 * ((len + 2) / 3)
}

/// Whether a character belongs to padded URL-safe base64 text: a letter, a
/// digit, `-`, `_`, or the padding `=`.
pub open spec fn is_base64url_char(c: char) -> bool {
    ('A' <= c <= 'Z') || ('a' <= c <= 'z') || ('0' <= c <= '9') || c == '-' || c == '_' || c
        == '='
}

/// Whether every character of a text belongs to padded URL-safe base64.
pub open spec fn is_base64url_text(text: Seq<char>) -> bool {
    forall|i: int| 0 <= i < text.len() ==> is_base64url_char(#[trigger] text[i])
}

/// Encodes with `base64::prelude::BASE64_URL_SAFE`: the URL-safe alphabet
/// with padding. The text is a function of the bytes alone, it has four
/// characters for every three bytes begun, all of them letters, digits,
/// `-`, `_` or `=`, and decoding it with the same engine gives the bytes
/// back. The engine panics where the length of the text overflows, which
/// `requires` leaves out.
#[verifier::external_body]
fn base64url_encode(data: &[u8]) -> (text: String)
    requires
        base64_fits(data@.len()),
    ensures
        text@ == base64url_text(data@),
        base64url_bytes(text@) == Some(data@),
        text@.len() == base64_len(data@.len()),
        is_base64url_text(text@),
{
    base64::prelude::BASE64_URL_SAFE.encode(data)
}

/// Decodes with `base64::prelude::BASE64_URL_SAFE`, which accepts only
/// canonical padded text in the URL-safe alphabet. The outcome is a
/// function of the text alone.
#[verifier::external_body]
fn base64url_decode(text: &str) -> (data: Option<Vec<u8>>)
    ensures
        data is Some <==> base64url_bytes(text@) is Some,
        data matches Some(d) ==> base64url_bytes(text@) == Some(d@),
{
    base64::prelude::BASE64_URL_SAFE.decode(text.as_bytes()).ok()
}

/// `String::from_utf8`: succeeds exactly on valid UTF-8, and the string
/// then holds the characters that the bytes encode.
#[verifier::external_body]
fn string_from_utf8(bytes: Vec<u8>) -> (text: Option<String>)
    ensures
        text is Some <==> valid_utf8(bytes@),
        text matches Some(s) ==> s@ == decode_utf8(bytes@),
{
    String::from_utf8(bytes).ok()
}

/// The keyed state of an encrypting stream: the derived key and nonce, and
/// the position of the next segment.
pub struct StreamEncryptor {
    key: Vec<u8>,
    nonce: Vec<u8>,
    position: u32,
}

/// The keyed state of a decrypting stream.
pub struct StreamDecryptor {
    key: Vec<u8>,
    nonce: Vec<u8>,
    position: u32,
}

/// The ciphertext of a short buffer: a single last segment at position 0.
pub open spec fn encrypted_buff(buff: Seq<u8>, password: Seq<u8>) -> Seq<u8> {
    sealed_segment(stream_key(password), stream_nonce(password), 0, true, buff)
}

/// What decrypting a short buffer gives: the plaintext, or the reason for
/// the failure.
pub open spec fn decrypted_buff(buff: Seq<u8>, password: Seq<u8>) -> Result<Seq<u8>, CryptoError> {
    if buff.len() < TAG_LEN {
        Err(CryptoError::Truncated)
    } else {
        match opened_segment(stream_key(password), stream_nonce(password), 0, true, buff) {
            Some(plain) => Ok(plain),
            None => Err(CryptoError::TagMismatch),
        }
    }
}

/// Whether a buffer of `len` bytes can be encrypted and then written as
/// base64 text.
pub open spec fn base64_encryptable(len: nat) -> bool {
    len <= MAX_SEGMENT && base64_fits(len + TAG_LEN as nat)
}

/// The base64 text of the ciphertext of a short buffer.
pub open spec fn encrypted_base64(buff: Seq<u8>, password: Seq<u8>) -> Seq<char> {
    base64url_text(encrypted_buff(buff, password))
}

/// What decrypting base64 text gives.
pub open spec fn decrypted_base64(text: Seq<char>, password: Seq<u8>) -> Result<
    Seq<u8>,
    CryptoError,
> {
    match base64url_bytes(text) {
        None => Err(CryptoError::InvalidBase64),
        Some(buff) => decrypted_buff(buff, password),
    }
}

/// The remote name of a file: the base64 text of its encrypted UTF-8 bytes.
pub open spec fn encrypted_file_name(name: Seq<char>, password: Seq<u8>) -> Seq<char> {
    encrypted_base64(encode_utf8(name), password)
}

/// What decrypting a remote name gives.
pub open spec fn decrypted_file_name(text: Seq<char>, password: Seq<u8>) -> Result<
    Seq<char>,
    CryptoError,
> {
    match decrypted_base64(text, password) {
        Err(e) => Err(e),
        Ok(bytes) => if valid_utf8(bytes) {
            Ok(decode_utf8(bytes))
        } else {
            Err(CryptoError::InvalidUtf8)
        },
    }
}

/// Whether an executable result holds what a specification result describes.
pub open spec fn bytes_result_is(
    r: Result<Vec<u8>, CryptoError>,
    expected: Result<Seq<u8>, CryptoError>,
) -> bool {
    match r {
        Ok(v) => expected == Ok::<Seq<u8>, CryptoError>(v@),
        Err(e) => expected == Err::<Seq<u8>, CryptoError>(e),
    }
}

/// Whether an executable result holds the text that a specification result
/// describes.
pub open spec fn text_result_is(
    r: Result<String, CryptoError>,
    expected: Result<Seq<char>, CryptoError>,
) -> bool {
    match r {
        Ok(s) => expected == Ok::<Seq<char>, CryptoError>(s@),
        Err(e) => expected == Err::<Seq<char>, CryptoError>(e),
    }
}

/// The hexadecimal text of `data` is ASCII, and its bytes are its digits.
pub proof fn lemma_hex_text_bytes(data: Seq<u8>)
    ensures
        is_ascii_chars(hex_text(data)),
        encode_utf8(hex_text(data)) =~= Seq::new(
            hex_text(data).len(),
            |i: int| hex_text(data)[i] as u8,
        ),
{
    let text = hex_text(data);
    assert forall|i: int| 0 <= i < text.len() implies (text[i] as nat) < 128 by {
        let n: int = if i % 2 == 0 {
            data[i / 2] as int / 16
        } else {
            data[i / 2] as int % 16
        };
        assert(0 <= n < 16);
        assert(text[i] == hex_digit(n) as char);
    }
    assert(is_ascii_chars(text));
    is_ascii_chars_encode_utf8(text);
}

/// Derives the cipher key and the nonce prefix from a password.
fn derive_key(password: &[u8]) -> (pair: (Vec<u8>, Vec<u8>))
    ensures
        pair.0@ == stream_key(password@),
        pair.1@ == stream_nonce(password@),
        pair.0@.len() == KEY_LEN,
        pair.1@.len() == NONCE_LEN,
{
    let digest = md5_compute(password);
    let key_hex = hex_encode(digest.as_slice());
    proof {
        lemma_hex_text_bytes(digest@);
    }
    let key = slice_to_vec(key_hex.as_str().as_bytes());
    let nonce = slice_to_vec(slice_subrange(digest.as_slice(), 0, NONCE_LEN));
    assert(key@ =~= stream_key(password@));
    assert(nonce@ =~= stream_nonce(password@));
    (key, nonce)
}

impl StreamEncryptor {
    #[verifier::type_invariant]
    spec fn well_formed(self) -> bool {
        self.key@.len() == KEY_LEN && self.nonce@.len() == NONCE_LEN
    }

    /// The cipher key.
    pub closed spec fn key(self) -> Seq<u8> {
        self.key@
    }

    /// The nonce prefix.
    pub closed spec fn nonce(self) -> Seq<u8> {
        self.nonce@
    }

    /// The position of the next segment.
    pub closed spec fn position(self) -> u32 {
        self.position
    }

    /// Whether this is the fresh encryptor for `password`.
    pub open spec fn starts(self, password: Seq<u8>) -> bool {
        &&& self.key() == stream_key(password)
        &&& self.nonce() == stream_nonce(password)
        &&& self.position() == 0
    }

    /// Reads the position of the next segment.
    pub fn position_now(&self) -> (p: u32)
        ensures
            p == self.position(),
    {
        self.position
    }

    /// Encrypts an intermediate segment and moves on to the next position.
    ///
    /// Fails, leaving the stream where it was, when the counter has no
    /// position left for a later last segment or when the chunk is too long.
    pub fn encrypt_next(&mut self, chunk: &[u8]) -> (r: Result<Vec<u8>, CryptoError>)
        ensures
            final(self).key() == old(self).key(),
            final(self).nonce() == old(self).nonce(),
            old(self).position() == u32::MAX ==> r == Err::<Vec<u8>, CryptoError>(
                CryptoError::CounterExhausted,
            ),
            old(self).position() < u32::MAX && chunk@.len() > MAX_SEGMENT ==> r == Err::<
                Vec<u8>,
                CryptoError,
            >(CryptoError::TooLong),
            r is Ok <==> old(self).position() < u32::MAX && chunk@.len() <= MAX_SEGMENT,
            r is Err ==> final(self).position() == old(self).position(),
            r matches Ok(c) ==> {
                &&& final(self).position() == old(self).position() + 1
                &&& c@ == sealed_segment(
                    old(self).key(),
                    old(self).nonce(),
                    old(self).position(),
                    false,
                    chunk@,
                )
                &&& c@.len() == chunk@.len() + TAG_LEN
                &&& opened_segment(
                    old(self).key(),
                    old(self).nonce(),
                    old(self).position(),
                    false,
                    c@,
                ) == Some(chunk@)
            },
    {
        proof {
            use_type_invariant(&*self);
        }
        if self.position == u32::MAX {
            return Err(CryptoError::CounterExhausted);
        }
        match seal_segment(self.key.as_slice(), self.nonce.as_slice(), self.position, false, chunk) {
            Some(c) => {
                self.position = self.position + 1;
                Ok(c)
            },
            None => Err(CryptoError::TooLong),
        }
    }

    /// Encrypts the last segment of the stream, which ends the stream.
    pub fn encrypt_last(self, chunk: &[u8]) -> (r: Result<Vec<u8>, CryptoError>)
        ensures
            r is Ok <==> chunk@.len() <= MAX_SEGMENT,
            r is Err ==> r == Err::<Vec<u8>, CryptoError>(CryptoError::TooLong),
            r matches Ok(c) ==> {
                &&& c@ == sealed_segment(self.key(), self.nonce(), self.position(), true, chunk@)
                &&& c@.len() == chunk@.len() + TAG_LEN
                &&& opened_segment(self.key(), self.nonce(), self.position(), true, c@) == Some(
                    chunk@,
                )
            },
    {
        proof {
            use_type_invariant(&self);
        }
        match seal_segment(self.key.as_slice(), self.nonce.as_slice(), self.position, true, chunk) {
            Some(c) => Ok(c),
            None => Err(CryptoError::TooLong),
        }
    }
}

/// What opening one segment gives: the plaintext, or the reason for the
/// failure.
pub open spec fn opened_or_error(
    key: Seq<u8>,
    nonce: Seq<u8>,
    position: u32,
    last: bool,
    ciphertext: Seq<u8>,
) -> Result<Seq<u8>, CryptoError> {
    if ciphertext.len() < TAG_LEN {
        Err(CryptoError::Truncated)
    } else {
        match opened_segment(key, nonce, position, last, ciphertext) {
            Some(plain) => Ok(plain),
            None => Err(CryptoError::TagMismatch),
        }
    }
}

impl StreamDecryptor {
    #[verifier::type_invariant]
    spec fn well_formed(self) -> bool {
        self.key@.len() == KEY_LEN && self.nonce@.len() == NONCE_LEN
    }

    /// The cipher key.
    pub closed spec fn key(self) -> Seq<u8> {
        self.key@
    }

    /// The nonce prefix.
    pub closed spec fn nonce(self) -> Seq<u8> {
        self.nonce@
    }

    /// The position of the next segment.
    pub closed spec fn position(self) -> u32 {
        self.position
    }

    /// Whether this is the fresh decryptor for `password`.
    pub open spec fn starts(self, password: Seq<u8>) -> bool {
        &&& self.key() == stream_key(password)
        &&& self.nonce() == stream_nonce(password)
        &&& self.position() == 0
    }

    /// Decrypts an intermediate segment and moves on to the next position.
    ///
    /// Fails, leaving the stream where it was, when the counter has no
    /// position left, when the segment is shorter than a tag, or when the
    /// tag does not verify.
    pub fn decrypt_next(&mut self, segment: &[u8]) -> (r: Result<Vec<u8>, CryptoError>)
        ensures
            final(self).key() == old(self).key(),
            final(self).nonce() == old(self).nonce(),
            bytes_result_is(
                r,
                if old(self).position() == u32::MAX {
                    Err(CryptoError::CounterExhausted)
                } else {
                    opened_or_error(
                        old(self).key(),
                        old(self).nonce(),
                        old(self).position(),
                        false,
                        segment@,
                    )
                },
            ),
            r is Ok ==> final(self).position() == old(self).position() + 1 && segment@.len()
                == r.unwrap()@.len() + TAG_LEN,
            r is Err ==> final(self).position() == old(self).position(),
    {
        proof {
            use_type_invariant(&*self);
        }
        if self.position == u32::MAX {
            return Err(CryptoError::CounterExhausted);
        }
        if segment.len() < TAG_LEN {
            return Err(CryptoError::Truncated);
        }
        match open_segment(self.key.as_slice(), self.nonce.as_slice(), self.position, false, segment) {
            Some(p) => {
                self.position = self.position + 1;
                Ok(p)
            },
            None => Err(CryptoError::TagMismatch),
        }
    }

    /// Decrypts the last segment of the stream, which ends the stream.
    pub fn decrypt_last(self, segment: &[u8]) -> (r: Result<Vec<u8>, CryptoError>)
        ensures
            bytes_result_is(
                r,
                opened_or_error(self.key(), self.nonce(), self.position(), true, segment@),
            ),
            r is Ok ==> segment@.len() == r.unwrap()@.len() + TAG_LEN,
    {
        proof {
            use_type_invariant(&self);
        }
        if segment.len() < TAG_LEN {
            return Err(CryptoError::Truncated);
        }
        match open_segment(self.key.as_slice(), self.nonce.as_slice(), self.position, true, segment) {
            Some(p) => Ok(p),
            None => Err(CryptoError::TagMismatch),
        }
    }
}

/// Makes the encryptor for a password, at the start of its stream.
pub fn encryptor_from_key(password: &[u8]) -> (r: Result<StreamEncryptor, CryptoError>)
    ensures
        r is Ok,
        r.unwrap().starts(password@),
{
    let (key, nonce) = derive_key(password);
    Ok(StreamEncryptor { key, nonce, position: 0 })
}

/// Makes the decryptor for a password, at the start of its stream.
pub fn decryptor_from_key(password: &[u8]) -> (r: Result<StreamDecryptor, CryptoError>)
    ensures
        r is Ok,
        r.unwrap().starts(password@),
{
    let (key, nonce) = derive_key(password);
    Ok(StreamDecryptor { key, nonce, position: 0 })
}

/// Encrypts a short buffer as a single last segment.
///
/// The ciphertext is sixteen bytes longer than the buffer, depends on the
/// buffer and the password alone, and decrypts under the same password to
/// the buffer.
pub fn encrypt_buff(buff: &[u8], password: &[u8]) -> (r: Result<Vec<u8>, CryptoError>)
    ensures
        r is Ok <==> buff@.len() <= MAX_SEGMENT,
        r is Err ==> r == Err::<Vec<u8>, CryptoError>(CryptoError::TooLong),
        r matches Ok(c) ==> {
            &&& c@ == encrypted_buff(buff@, password@)
            &&& c@.len() == buff@.len() + TAG_LEN
            &&& decrypted_buff(c@, password@) == Ok::<Seq<u8>, CryptoError>(buff@)
        },
{
    let encryptor = match encryptor_from_key(password) {
        Ok(e) => e,
        Err(e) => { return Err(e); },
    };
    encryptor.encrypt_last(buff)
}

/// Decrypts a short buffer that was encrypted as a single last segment.
pub fn decrypt_buff(buff: &[u8], password: &[u8]) -> (r: Result<Vec<u8>, CryptoError>)
    ensures
        bytes_result_is(r, decrypted_buff(buff@, password@)),
        r is Ok ==> buff@.len() == r.unwrap()@.len() + TAG_LEN,
{
    let decryptor = match decryptor_from_key(password) {
        Ok(d) => d,
        Err(e) => { return Err(e); },
    };
    decryptor.decrypt_last(buff)
}

/// Encrypts a short buffer and writes the ciphertext as base64 text.
///
/// The text depends on the buffer and the password alone, and decrypts
/// under the same password to the buffer. It is padded and drawn from the
/// URL-safe alphabet.
pub fn encrypt_buff_to_base64(buff: &[u8], password: &[u8]) -> (r: Result<String, CryptoError>)
    ensures
        r is Ok <==> base64_encryptable(buff@.len()),
        r is Err ==> r == Err::<String, CryptoError>(CryptoError::TooLong),
        r matches Ok(text) ==> {
            &&& text@ == encrypted_base64(buff@, password@)
            &&& decrypted_base64(text@, password@) == Ok::<Seq<u8>, CryptoError>(buff@)
            &&& text@.len() == base64_len(buff@.len() + TAG_LEN as nat)
            &&& is_base64url_text(text@)
        },
{
    let sealed = match encrypt_buff(buff, password) {
        Ok(c) => c,
        Err(e) => { return Err(e); },
    };
    if sealed.len() / 3 >= usize::MAX / 4 {
        return Err(CryptoError::TooLong);
    }
    Ok(base64url_encode(sealed.as_slice()))
}

/// Decrypts base64 text that holds the ciphertext of a short buffer.
pub fn decrypt_base64(base64_str: &str, password: &[u8]) -> (r: Result<Vec<u8>, CryptoError>)
    ensures
        bytes_result_is(r, decrypted_base64(base64_str@, password@)),
{
    match base64url_decode(base64_str) {
        Some(buff) => decrypt_buff(buff.as_slice(), password),
        None => Err(CryptoError::InvalidBase64),
    }
}

/// Encrypts a file name into the name it carries on the remote.
///
/// The remote name depends on the name and the password alone, and
/// decrypts under the same password to the name. It holds letters, digits,
/// `-`, `_` and `=` only, four for every three bytes of the name and its
/// tag.
pub fn encrypt_file_name(file_name: &str, password: &[u8]) -> (r: Result<String, CryptoError>)
    ensures
        r is Ok <==> base64_encryptable(encode_utf8(file_name@).len()),
        r is Err ==> r == Err::<String, CryptoError>(CryptoError::TooLong),
        r matches Ok(text) ==> {
            &&& text@ == encrypted_file_name(file_name@, password@)
            &&& decrypted_file_name(text@, password@) == Ok::<Seq<char>, CryptoError>(file_name@)
            &&& text@.len() == base64_len(encode_utf8(file_name@).len() + TAG_LEN as nat)
            &&& is_base64url_text(text@)
        },
{
    proof {
        encode_utf8_valid_utf8(file_name@);
        encode_utf8_decode_utf8(file_name@);
    }
    encrypt_buff_to_base64(file_name.as_bytes(), password)
}

/// Decrypts a remote name into the file name it stands for.
pub fn decrypt_file_name(file_name: &str, password: &[u8]) -> (r: Result<String, CryptoError>)
    ensures
        text_result_is(r, decrypted_file_name(file_name@, password@)),
{
    match decrypt_base64(file_name, password) {
        Ok(bytes) => match string_from_utf8(bytes) {
            Some(name) => Ok(name),
            None => Err(CryptoError::InvalidUtf8),
        },
        Err(e) => Err(e),
    }
}

} // verus!

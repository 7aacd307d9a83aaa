//! The hash-and-size pass that precedes an upload.
//!
//! The remote asks for the SHA-1 digest and the length of the bytes it is
//! about to receive. For an encrypted run those are the bytes of the
//! ciphertext, so the pass runs the file through the same chunk framing as
//! the upload itself.

use crate::custom_crypto::{hex_encode, hex_text, stream_key, stream_nonce, CryptoError};
use crate::transfer::{
    sealed_len, sealed_stream, stream_sealable, ChunkEncryptor, CHUNK_LEN, FRAME_LEN,
};
use sha1::Digest;
use vstd::prelude::*;

verus! {

/// A running SHA-1 computation of the `sha1` crate. Nothing inside it is
/// visible to the proofs; `hashed_bytes` names what it has taken in.
#[verifier::external_body]
pub struct Sha1Hasher {
    inner: sha1::Sha1,
}

/// The bytes that a hasher has taken in so far, in order.
pub uninterp spec fn hashed_bytes(hasher: Sha1Hasher) -> Seq<u8>;

/// The SHA-1 digest of `data`, twenty bytes.
pub uninterp spec fn sha1_digest(data: Seq<u8>) -> Seq<u8>;

/// `Sha1::new`: a hasher that has taken in nothing.
#[verifier::external_body]
fn sha1_new() -> (hasher: Sha1Hasher)
    ensures
        hashed_bytes(hasher) == Seq::<u8>::empty(),
{
    Sha1Hasher { inner: sha1::Sha1::new() }
}

/// `Digest::update`: the hasher takes in `data` after what it already holds.
#[verifier::external_body]
fn sha1_update(hasher: &mut Sha1Hasher, data: &[u8])
    ensures
        hashed_bytes(*final(hasher)) == hashed_bytes(*old(hasher)) + data@,
{
    hasher.inner.update(data)
}

/// `Digest::finalize`: the digest of everything taken in, a function of
/// those bytes alone.
#[verifier::external_body]
fn sha1_finalize(hasher: Sha1Hasher) -> (digest: [u8; 20])
    ensures
        digest@ == sha1_digest(hashed_bytes(hasher)),
{
    hasher.inner.finalize().into()
}

/// The bytes that travel to the remote for a file: the file itself, or its
/// ciphertext under the sync password.
pub open spec fn upload_content(password: Option<Seq<u8>>, plain: Seq<u8>) -> Seq<u8> {
    match password {
        None => plain,
        Some(p) => sealed_stream(stream_key(p), stream_nonce(p), plain),
    }
}

/// The number of bytes that travel to the remote for a file of `len`
/// bytes: the file's own length, or that of its ciphertext.
pub open spec fn upload_len(encrypted: bool, len: nat) -> nat {
    if encrypted {
        sealed_len(len)
    } else {
        len
    }
}

/// Whether a file of `len` bytes can be summed: its ciphertext must fit in
/// one stream, or its plain length in sixty-four bits.
pub open spec fn summable(encrypted: bool, len: nat) -> bool {
    if encrypted {
        stream_sealable(len)
    } else {
        len <= u64::MAX
    }
}

/// The invariant of a sum, over its parts: the hasher has taken in exactly
/// the bytes that an upload would have sent so far, and `size` counts them.
spec fn sum_holds(
    hasher: Sha1Hasher,
    size: u64,
    cipher: Option<ChunkEncryptor>,
    password: Option<Seq<u8>>,
    plain: Seq<u8>,
) -> bool {
    &&& size == hashed_bytes(hasher).len()
    &&& match cipher {
        None => password is None && hashed_bytes(hasher) == plain,
        Some(c) => {
            &&& password is Some
            &&& c.key() == stream_key(password->0)
            &&& c.nonce() == stream_nonce(password->0)
            &&& c.plain() == plain
            &&& c.emitted() == hashed_bytes(hasher)
            &&& c.emitted().len() == plain.len() / (CHUNK_LEN as nat) * FRAME_LEN
            &&& stream_sealable(plain.len())
        },
    }
}

/// The digest and the length of what an upload will send, computed from the
/// file as it is read piece by piece.
pub struct ContentSum {
    hasher: Sha1Hasher,
    size: u64,
    cipher: Option<ChunkEncryptor>,
    password: Ghost<Option<Seq<u8>>>,
    plain: Ghost<Seq<u8>>,
}

impl ContentSum {
    #[verifier::type_invariant]
    spec fn well_formed(self) -> bool {
        sum_holds(self.hasher, self.size, self.cipher, self.password@, self.plain@)
    }

    /// The sync password of the run, if it encrypts.
    pub closed spec fn password(self) -> Option<Seq<u8>> {
        self.password@
    }

    /// All file bytes fed so far.
    pub closed spec fn plain(self) -> Seq<u8> {
        self.plain@
    }

    /// Starts the pass, encrypting when there is a sync password.
    pub fn new(sync_password: Option<&[u8]>) -> (sum: Self)
        ensures
            sum.plain() == Seq::<u8>::empty(),
            sum.password() == match sync_password {
                Some(p) => Some(p@),
                None => None,
            },
    {
        match sync_password {
            Some(p) => ContentSum {
                hasher: sha1_new(),
                size: 0,
                cipher: Some(ChunkEncryptor::new(p)),
                password: Ghost(Some(p@)),
                plain: Ghost(Seq::empty()),
            },
            None => ContentSum {
                hasher: sha1_new(),
                size: 0,
                cipher: None,
                password: Ghost(None),
                plain: Ghost(Seq::empty()),
            },
        }
    }

    /// Takes the next piece of the file and hands the sum back.
    ///
    /// Fails when the file can no longer be summed.
    pub fn update(self, data: &[u8]) -> (r: Result<Self, CryptoError>)
        ensures
            r is Ok <==> summable(self.password() is Some, self.plain().len() + data@.len()),
            r is Err ==> r == Err::<Self, CryptoError>(
                if self.password() is Some {
                    CryptoError::CounterExhausted
                } else {
                    CryptoError::TooLong
                },
            ),
            r matches Ok(next) ==> {
                &&& next.password() == self.password()
                &&& next.plain() == self.plain() + data@
            },
    {
        proof {
            use_type_invariant(&self);
        }
        let mut hasher = self.hasher;
        let password = self.password;
        let ghost plain = self.plain@ + data@;
        match self.cipher {
            Some(c) => {
                match c.feed(data) {
                    Ok((next, frames)) => {
                        sha1_update(&mut hasher, frames.as_slice());
                        assert(next.emitted().len() <= u32::MAX * FRAME_LEN);
                        Ok(
                            ContentSum {
                                hasher,
                                size: self.size + frames.len() as u64,
                                cipher: Some(next),
                                password,
                                plain: Ghost(plain),
                            },
                        )
                    },
                    Err(e) => Err(e),
                }
            },
            None => {
                if data.len() as u64 > u64::MAX - self.size {
                    return Err(CryptoError::TooLong);
                }
                sha1_update(&mut hasher, data);
                Ok(
                    ContentSum {
                        hasher,
                        size: self.size + data.len() as u64,
                        cipher: None,
                        password,
                        plain: Ghost(plain),
                    },
                )
            },
        }
    }

    /// Ends the pass: the lower-case hexadecimal SHA-1 digest and the length
    /// of what the upload will send.
    pub fn finish(self) -> (r: (String, u64))
        ensures
            r.0@ == hex_text(sha1_digest(upload_content(self.password(), self.plain()))),
            r.1 == upload_content(self.password(), self.plain()).len(),
            r.1 == upload_len(self.password() is Some, self.plain().len()),
    {
        proof {
            use_type_invariant(&self);
        }
        let mut hasher = self.hasher;
        let mut size = self.size;
        match self.cipher {
            Some(c) => {
                let last = c.finish().unwrap();
                sha1_update(&mut hasher, last.as_slice());
                size = size + last.len() as u64;
            },
            None => {},
        }
        let digest = sha1_finalize(hasher);
        (hex_encode(digest.as_slice()), size)
    }
}

/// The digest and the length of what an upload will send for a file held
/// in memory.
pub fn sum_content(content: &[u8], sync_password: Option<&[u8]>) -> (r: Result<
    (String, u64),
    CryptoError,
>)
    ensures
        r is Ok <==> summable(sync_password is Some, content@.len()),
        r is Err ==> r == Err::<(String, u64), CryptoError>(
            if sync_password is Some {
                CryptoError::CounterExhausted
            } else {
                CryptoError::TooLong
            },
        ),
        r matches Ok(sum) ==> {
            let sent = upload_content(
                match sync_password {
                    Some(p) => Some(p@),
                    None => None,
                },
                content@,
            );
            &&& sum.0@ == hex_text(sha1_digest(sent))
            &&& sum.1 == sent.len()
            &&& sum.1 == upload_len(sync_password is Some, content@.len())
        },
{
    assert(Seq::<u8>::empty() + content@ =~= content@);
    match ContentSum::new(sync_password).update(content) {
        Ok(sum) => Ok(sum.finish()),
        Err(e) => Err(e),
    }
}

} // verus!

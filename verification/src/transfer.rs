//! Chunk framing of encrypted file contents.
//!
//! A file is encrypted in chunks of one mebibyte. Every full chunk becomes an
//! intermediate segment; what is left at the end, possibly nothing, becomes
//! the last segment. Each segment carries a sixteen-byte tag, so ciphertext
//! is read back in frames of one mebibyte and sixteen bytes, the remainder
//! being the last frame. No header and no length prefix delimit the frames.

use crate::custom_crypto::{
    bytes_result_is, decryptor_from_key, encryptor_from_key, opened_or_error, sealed_segment,
    stream_key,
    stream_nonce, CryptoError, StreamDecryptor, StreamEncryptor, TAG_LEN,
};
use vstd::prelude::*;
use vstd::slice::*;
use vstd::string::*;

verus! {

/// Plaintext bytes per intermediate segment.
pub const CHUNK_LEN: usize = 0x10_0000;

/// Ciphertext bytes per intermediate segment: a chunk and its tag.
pub const FRAME_LEN: usize = 0x10_0010;

/// The first `n` chunks of `plain`, each sealed as an intermediate segment.
pub open spec fn sealed_chunks(key: Seq<u8>, nonce: Seq<u8>, plain: Seq<u8>, n: nat) -> Seq<u8>
    decreases n,
{
    if n == 0 {
        Seq::empty()
    } else {
        sealed_chunks(key, nonce, plain, (n - 1) as nat) + sealed_segment(
            key,
            nonce,
            (n - 1) as u32,
            false,
            plain.subrange((n - 1) * CHUNK_LEN, n * CHUNK_LEN),
        )
    }
}

/// Whether a plaintext of `len` bytes fits in one stream: the intermediate
/// segments must leave a counter value for the last one.
pub open spec fn stream_sealable(len: nat) -> bool {
    len / (CHUNK_LEN as nat) <= u32::MAX
}

/// The ciphertext of a whole stream: every full chunk sealed as an
/// intermediate segment, then the remainder sealed as the last segment.
pub open spec fn sealed_stream(key: Seq<u8>, nonce: Seq<u8>, plain: Seq<u8>) -> Seq<u8> {
    let n = plain.len() / (CHUNK_LEN as nat);
    sealed_chunks(key, nonce, plain, n) + sealed_segment(
        key,
        nonce,
        n as u32,
        true,
        plain.skip(n * CHUNK_LEN),
    )
}

/// What opening the intermediate frame number `i` of `cipher` gives.
pub open spec fn opened_frame(key: Seq<u8>, nonce: Seq<u8>, cipher: Seq<u8>, i: nat) -> Result<
    Seq<u8>,
    CryptoError,
> {
    if i >= u32::MAX {
        Err(CryptoError::CounterExhausted)
    } else {
        opened_or_error(key, nonce, i as u32, false, cipher.subrange(i * FRAME_LEN, (i + 1) * FRAME_LEN))
    }
}

/// What opening the first `n` frames of `cipher` gives: their plaintexts in
/// order, or the failure of the first frame that does not open.
pub open spec fn opened_frames(key: Seq<u8>, nonce: Seq<u8>, cipher: Seq<u8>, n: nat) -> Result<
    Seq<u8>,
    CryptoError,
>
    decreases n,
{
    if n == 0 {
        Ok(Seq::empty())
    } else {
        match opened_frames(key, nonce, cipher, (n - 1) as nat) {
            Err(e) => Err(e),
            Ok(head) => match opened_frame(key, nonce, cipher, (n - 1) as nat) {
                Err(e) => Err(e),
                Ok(chunk) => Ok(head + chunk),
            },
        }
    }
}

/// What decrypting a whole stream gives: every full frame opened as an
/// intermediate segment, then the remainder opened as the last segment.
pub open spec fn opened_stream(key: Seq<u8>, nonce: Seq<u8>, cipher: Seq<u8>) -> Result<
    Seq<u8>,
    CryptoError,
> {
    let n = cipher.len() / (FRAME_LEN as nat);
    match opened_frames(key, nonce, cipher, n) {
        Err(e) => Err(e),
        Ok(head) => match opened_or_error(key, nonce, n as u32, true, cipher.skip(n * FRAME_LEN)) {
            Err(e) => Err(e),
            Ok(tail) => Ok(head + tail),
        },
    }
}

/// The length of the ciphertext of a stream of `len` plaintext bytes: a tag
/// for every full chunk and one for the last segment.
pub open spec fn sealed_len(len: nat) -> nat {
    len + (len / (CHUNK_LEN as nat) + 1) * TAG_LEN as nat
}

/// The sealed chunks of a text depend only on the chunks themselves.
pub proof fn lemma_sealed_chunks_prefix(
    key: Seq<u8>,
    nonce: Seq<u8>,
    a: Seq<u8>,
    b: Seq<u8>,
    n: nat,
)
    requires
        n * CHUNK_LEN <= a.len() <= b.len(),
        a == b.take(a.len() as int),
    ensures
        sealed_chunks(key, nonce, a, n) == sealed_chunks(key, nonce, b, n),
    decreases n,
{
    if n > 0 {
        lemma_sealed_chunks_prefix(key, nonce, a, b, (n - 1) as nat);
        assert(a.subrange((n - 1) * CHUNK_LEN, n * CHUNK_LEN) =~= b.subrange(
            (n - 1) * CHUNK_LEN,
            n * CHUNK_LEN,
        ));
    }
}

/// The opened frames of a text depend only on the frames themselves.
pub proof fn lemma_opened_frames_prefix(
    key: Seq<u8>,
    nonce: Seq<u8>,
    a: Seq<u8>,
    b: Seq<u8>,
    n: nat,
)
    requires
        n * FRAME_LEN <= a.len() <= b.len(),
        a == b.take(a.len() as int),
    ensures
        opened_frames(key, nonce, a, n) == opened_frames(key, nonce, b, n),
    decreases n,
{
    if n > 0 {
        lemma_opened_frames_prefix(key, nonce, a, b, (n - 1) as nat);
        assert(a.subrange((n - 1) * FRAME_LEN, n * FRAME_LEN) =~= b.subrange(
            (n - 1) * FRAME_LEN,
            n * FRAME_LEN,
        ));
    }
}

/// Once a frame has failed, opening more frames fails in the same way.
pub proof fn lemma_opened_frames_stay_failed(
    key: Seq<u8>,
    nonce: Seq<u8>,
    cipher: Seq<u8>,
    k: nat,
    n: nat,
)
    requires
        k <= n,
        opened_frames(key, nonce, cipher, k) is Err,
    ensures
        opened_frames(key, nonce, cipher, n) == opened_frames(key, nonce, cipher, k),
    decreases n,
{
    if k < n {
        lemma_opened_frames_stay_failed(key, nonce, cipher, k, (n - 1) as nat);
    }
}

/// A frame that has failed fails the stream, whatever follows it.
pub proof fn lemma_failed_frame_fails_stream(
    key: Seq<u8>,
    nonce: Seq<u8>,
    fed: Seq<u8>,
    rest: Seq<u8>,
)
    requires
        opened_frames(key, nonce, fed, fed.len() / (FRAME_LEN as nat)) is Err,
    ensures
        opened_stream(key, nonce, fed + rest) == opened_frames(
            key,
            nonce,
            fed,
            fed.len() / (FRAME_LEN as nat),
        ),
{
    let all = fed + rest;
    let n = fed.len() / (FRAME_LEN as nat);
    assert(fed =~= all.take(fed.len() as int));
    lemma_opened_frames_prefix(key, nonce, fed, all, n);
    lemma_opened_frames_stay_failed(key, nonce, all, n, all.len() / (FRAME_LEN as nat));
}

/// The invariant of an encryptor, over its parts: the ciphertext handed out
/// is that of the full chunks fed, frame by frame, and what has not filled a
/// chunk yet is buffered.
spec fn encryptor_holds(
    cipher: StreamEncryptor,
    buffer: Seq<u8>,
    plain: Seq<u8>,
    emitted: Seq<u8>,
) -> bool {
    let n = cipher.position() as nat;
    &&& buffer.len() < CHUNK_LEN
    &&& plain.len() == n * CHUNK_LEN + buffer.len()
    &&& buffer == plain.skip(n * CHUNK_LEN)
    &&& emitted.len() == n * FRAME_LEN
    &&& emitted == sealed_chunks(cipher.key(), cipher.nonce(), plain, n)
    &&& opened_frames(cipher.key(), cipher.nonce(), emitted, n) == Ok::<Seq<u8>, CryptoError>(
        plain.take(n * CHUNK_LEN),
    )
}

/// Whether a stream that holds `buffered` bytes at `position` has room for
/// `more` bytes of plaintext.
fn has_room(position: u32, buffered: usize, more: usize) -> (r: bool)
    requires
        buffered < CHUNK_LEN,
    ensures
        r == stream_sealable((position * CHUNK_LEN + buffered + more) as nat),
{
    let full: u64 = (more / CHUNK_LEN) as u64;
    let rest: u64 = ((buffered + more % CHUNK_LEN) / CHUNK_LEN) as u64;
    position as u64 + full + rest <= u32::MAX as u64
}

/// Takes a piece of plaintext into the parts of an encryptor.
fn feed_encryptor(
    cipher: &mut StreamEncryptor,
    buffer: &mut Vec<u8>,
    plain: &mut Ghost<Seq<u8>>,
    emitted: &mut Ghost<Seq<u8>>,
    data: &[u8],
) -> (r: Result<Vec<u8>, CryptoError>)
    requires
        encryptor_holds(*old(cipher), old(buffer)@, old(plain)@, old(emitted)@),
    ensures
        encryptor_holds(*final(cipher), final(buffer)@, final(plain)@, final(emitted)@),
        final(cipher).key() == old(cipher).key(),
        final(cipher).nonce() == old(cipher).nonce(),
        r is Ok <==> stream_sealable(old(plain)@.len() + data@.len()),
        r is Err ==> {
            &&& r == Err::<Vec<u8>, CryptoError>(CryptoError::CounterExhausted)
            &&& final(plain)@ == old(plain)@
            &&& final(emitted)@ == old(emitted)@
        },
        r matches Ok(c) ==> {
            &&& final(plain)@ == old(plain)@ + data@
            &&& final(emitted)@ == old(emitted)@ + c@
            &&& final(emitted)@ == sealed_chunks(
                final(cipher).key(),
                final(cipher).nonce(),
                final(plain)@,
                final(plain)@.len() / (CHUNK_LEN as nat),
            )
            &&& final(emitted)@.len() == final(plain)@.len() / (CHUNK_LEN as nat) * FRAME_LEN
        },
{
    if !has_room(cipher.position_now(), buffer.len(), data.len()) {
        return Err(CryptoError::CounterExhausted);
    }
    let ghost plain0 = plain@;
    let ghost emitted0 = emitted@;
    let ghost key = cipher.key();
    let ghost nonce = cipher.nonce();
    let mut out: Vec<u8> = Vec::new();
    let mut offset: usize = 0;
    assert(plain0 + data@.take(0) =~= plain0);
    assert(emitted0 + out@ =~= emitted0);
    while offset < data.len()
        invariant
            encryptor_holds(*cipher, buffer@, plain@, emitted@),
            cipher.key() == key,
            cipher.nonce() == nonce,
            offset <= data@.len(),
            plain@ == plain0 + data@.take(offset as int),
            emitted@ == emitted0 + out@,
            stream_sealable(plain@.len() + (data@.len() - offset) as nat),
        decreases data@.len() - offset,
    {
        let ghost n = cipher.position() as nat;
        let ghost before = plain@;
        let space: usize = CHUNK_LEN - buffer.len();
        let remaining: usize = data.len() - offset;
        let take: usize = if remaining < space {
            remaining
        } else {
            space
        };
        let piece = slice_subrange(data, offset, offset + take);
        buffer.extend_from_slice(piece);
        *plain = Ghost(plain@ + piece@);
        proof {
            assert(data@.take(offset as int) + piece@ =~= data@.take(offset + take));
            assert(plain@ =~= plain0 + data@.take(offset + take));
            assert(before =~= plain@.take(before.len() as int));
            lemma_sealed_chunks_prefix(key, nonce, before, plain@, n);
            assert(buffer@ =~= plain@.skip(n * CHUNK_LEN));
            assert(plain@.take(n * CHUNK_LEN) =~= before.take(n * CHUNK_LEN));
        }
        offset = offset + take;
        if buffer.len() == CHUNK_LEN {
            let ghost sent = emitted@;
            let frame = cipher.encrypt_next(buffer.as_slice()).unwrap();
            out.extend_from_slice(frame.as_slice());
            *emitted = Ghost(emitted@ + frame@);
            buffer.clear();
            proof {
                let full = plain@;
                let chunk = full.subrange(n * CHUNK_LEN, (n + 1) * CHUNK_LEN);
                assert(chunk =~= full.skip(n * CHUNK_LEN));
                assert(emitted@.subrange(n * FRAME_LEN, (n + 1) * FRAME_LEN) =~= frame@);
                assert(sent =~= emitted@.take(sent.len() as int));
                lemma_opened_frames_prefix(key, nonce, sent, emitted@, n);
                assert(full.take(n * CHUNK_LEN) + chunk =~= full.take((n + 1) * CHUNK_LEN));
                assert(opened_frame(key, nonce, emitted@, n) == Ok::<Seq<u8>, CryptoError>(chunk));
                assert(buffer@ =~= full.skip((n + 1) * CHUNK_LEN));
                assert(emitted0 + out@ =~= emitted@);
            }
        }
    }
    assert(data@.take(offset as int) =~= data@);
    Ok(out)
}

/// Encrypts a stream of bytes that arrives in pieces of any size.
///
/// The pieces are gathered into chunks; every chunk that fills up is sealed
/// as an intermediate segment at once, and `finish` seals what is left as the
/// last segment.
pub struct ChunkEncryptor {
    cipher: StreamEncryptor,
    buffer: Vec<u8>,
    plain: Ghost<Seq<u8>>,
    emitted: Ghost<Seq<u8>>,
}

impl ChunkEncryptor {
    #[verifier::type_invariant]
    spec fn well_formed(self) -> bool {
        encryptor_holds(self.cipher, self.buffer@, self.plain@, self.emitted@)
    }

    /// The cipher key.
    pub closed spec fn key(self) -> Seq<u8> {
        self.cipher.key()
    }

    /// The nonce prefix.
    pub closed spec fn nonce(self) -> Seq<u8> {
        self.cipher.nonce()
    }

    /// All plaintext fed so far.
    pub closed spec fn plain(self) -> Seq<u8> {
        self.plain@
    }

    /// All ciphertext handed out so far.
    pub closed spec fn emitted(self) -> Seq<u8> {
        self.emitted@
    }

    /// Starts the stream for a password.
    pub fn new(password: &[u8]) -> (e: Self)
        ensures
            e.key() == stream_key(password@),
            e.nonce() == stream_nonce(password@),
            e.plain() == Seq::<u8>::empty(),
            e.emitted() == Seq::<u8>::empty(),
    {
        let cipher = encryptor_from_key(password).unwrap();
        let buffer: Vec<u8> = Vec::new();
        let ghost nothing = Seq::<u8>::empty();
        assert(nothing.skip(0) =~= buffer@);
        assert(nothing.take(0) =~= nothing);
        ChunkEncryptor { cipher, buffer, plain: Ghost(nothing), emitted: Ghost(nothing) }
    }

    /// Takes the next piece of plaintext and hands the encryptor back with
    /// the frames of the chunks that the piece completes, in order.
    ///
    /// Fails when the stream would hold more intermediate segments than the
    /// counter allows.
    pub fn feed(self, data: &[u8]) -> (r: Result<(Self, Vec<u8>), CryptoError>)
        ensures
            r is Ok <==> stream_sealable(self.plain().len() + data@.len()),
            r is Err ==> r == Err::<(Self, Vec<u8>), CryptoError>(CryptoError::CounterExhausted),
            r matches Ok((next, c)) ==> {
                &&& next.key() == self.key()
                &&& next.nonce() == self.nonce()
                &&& next.plain() == self.plain() + data@
                &&& next.emitted() == self.emitted() + c@
                &&& next.emitted() == sealed_chunks(
                    next.key(),
                    next.nonce(),
                    next.plain(),
                    next.plain().len() / (CHUNK_LEN as nat),
                )
                &&& next.emitted().len() == next.plain().len() / (CHUNK_LEN as nat) * FRAME_LEN
            },
    {
        proof {
            use_type_invariant(&self);
        }
        let mut cipher = self.cipher;
        let mut buffer = self.buffer;
        let mut plain = self.plain;
        let mut emitted = self.emitted;
        match feed_encryptor(&mut cipher, &mut buffer, &mut plain, &mut emitted, data) {
            Ok(frames) => Ok((ChunkEncryptor { cipher, buffer, plain, emitted }, frames)),
            Err(e) => Err(e),
        }
    }

    /// Seals what is left as the last segment and hands out its frame.
    ///
    /// With it the ciphertext handed out is that of the whole stream, and it
    /// decrypts to the plaintext that was fed.
    pub fn finish(self) -> (r: Result<Vec<u8>, CryptoError>)
        ensures
            r is Ok,
            r matches Ok(c) ==> {
                &&& self.emitted() + c@ == sealed_stream(self.key(), self.nonce(), self.plain())
                &&& opened_stream(self.key(), self.nonce(), self.emitted() + c@) == Ok::<
                    Seq<u8>,
                    CryptoError,
                >(self.plain())
                &&& (self.emitted() + c@).len() == sealed_len(self.plain().len())
            },
    {
        proof {
            use_type_invariant(&self);
        }
        let ghost n = self.cipher.position() as nat;
        let ghost key = self.key();
        let ghost nonce = self.nonce();
        let ghost plain = self.plain@;
        let ghost emitted = self.emitted@;
        let ghost rest = self.buffer@;
        let r = self.cipher.encrypt_last(self.buffer.as_slice());
        proof {
            let c = r.unwrap()@;
            let total = emitted + c;
            assert(plain.len() / (CHUNK_LEN as nat) == n);
            assert(total.len() / (FRAME_LEN as nat) == n);
            assert(emitted =~= total.take(emitted.len() as int));
            lemma_opened_frames_prefix(key, nonce, emitted, total, n);
            assert(total.skip(n * FRAME_LEN) =~= c);
            assert(plain.take(n * CHUNK_LEN) + rest =~= plain);
        }
        r
    }
}

/// What a decryptor holds after handing out `tail` as its last piece, or
/// after failing: the whole plaintext, or the failure.
pub open spec fn with_tail(produced: Seq<u8>, r: Result<Vec<u8>, CryptoError>) -> Result<
    Seq<u8>,
    CryptoError,
> {
    match r {
        Ok(tail) => Ok(produced + tail@),
        Err(e) => Err(e),
    }
}

/// The invariant of a decryptor, over its parts: the plaintext handed out
/// is that of the full frames fed, and what has not filled a frame yet is
/// buffered.
spec fn decryptor_holds(
    cipher: StreamDecryptor,
    buffer: Seq<u8>,
    fed: Seq<u8>,
    produced: Seq<u8>,
) -> bool {
    let n = cipher.position() as nat;
    &&& buffer.len() < FRAME_LEN
    &&& fed.len() == n * FRAME_LEN + buffer.len()
    &&& buffer == fed.skip(n * FRAME_LEN)
    &&& opened_frames(cipher.key(), cipher.nonce(), fed, n) == Ok::<Seq<u8>, CryptoError>(produced)
}

/// Takes a piece of ciphertext into the parts of a decryptor. After a
/// failure the parts are of no use.
#[verifier::loop_isolation(false)]
fn feed_decryptor(
    cipher: &mut StreamDecryptor,
    buffer: &mut Vec<u8>,
    fed: &mut Ghost<Seq<u8>>,
    produced: &mut Ghost<Seq<u8>>,
    data: &[u8],
) -> (r: Result<Vec<u8>, CryptoError>)
    requires
        decryptor_holds(*old(cipher), old(buffer)@, old(fed)@, old(produced)@),
    ensures
        final(cipher).key() == old(cipher).key(),
        final(cipher).nonce() == old(cipher).nonce(),
        r matches Ok(p) ==> {
            &&& decryptor_holds(*final(cipher), final(buffer)@, final(fed)@, final(produced)@)
            &&& final(fed)@ == old(fed)@ + data@
            &&& final(produced)@ == old(produced)@ + p@
        },
        opened_frames(
            old(cipher).key(),
            old(cipher).nonce(),
            old(fed)@ + data@,
            (old(fed)@ + data@).len() / (FRAME_LEN as nat),
        ) == with_tail(old(produced)@, r),
{
    let ghost fed0 = fed@;
    let ghost produced0 = produced@;
    let ghost key = cipher.key();
    let ghost nonce = cipher.nonce();
    let ghost all = fed0 + data@;
    let mut out: Vec<u8> = Vec::new();
    let mut offset: usize = 0;
    assert(fed0 + data@.take(0) =~= fed0);
    assert(produced0 + out@ =~= produced0);
    while offset < data.len()
        invariant
            decryptor_holds(*cipher, buffer@, fed@, produced@),
            cipher.key() == key,
            cipher.nonce() == nonce,
            offset <= data@.len(),
            fed@ == fed0 + data@.take(offset as int),
            produced@ == produced0 + out@,
        decreases data@.len() - offset,
    {
        let ghost n = cipher.position() as nat;
        let ghost before = fed@;
        let space: usize = FRAME_LEN - buffer.len();
        let remaining: usize = data.len() - offset;
        let take: usize = if remaining < space {
            remaining
        } else {
            space
        };
        let piece = slice_subrange(data, offset, offset + take);
        buffer.extend_from_slice(piece);
        *fed = Ghost(fed@ + piece@);
        proof {
            assert(data@.take(offset as int) + piece@ =~= data@.take(offset + take));
            assert(fed@ =~= fed0 + data@.take(offset + take));
            assert(before =~= fed@.take(before.len() as int));
            lemma_opened_frames_prefix(key, nonce, before, fed@, n);
            assert(buffer@ =~= fed@.skip(n * FRAME_LEN));
            assert(fed@ =~= all.take(fed@.len() as int));
        }
        offset = offset + take;
        if buffer.len() == FRAME_LEN {
            proof {
                assert(buffer@ =~= fed@.subrange(n * FRAME_LEN, (n + 1) * FRAME_LEN));
            }
            match cipher.decrypt_next(buffer.as_slice()) {
                Ok(chunk) => {
                    out.extend_from_slice(chunk.as_slice());
                    *produced = Ghost(produced@ + chunk@);
                    buffer.clear();
                    proof {
                        assert(buffer@ =~= fed@.skip((n + 1) * FRAME_LEN));
                        assert(produced0 + out@ =~= produced@);
                    }
                },
                Err(e) => {
                    proof {
                        assert(opened_frames(key, nonce, fed@, n + 1) == Err::<
                            Seq<u8>,
                            CryptoError,
                        >(e));
                        lemma_opened_frames_prefix(key, nonce, fed@, all, n + 1);
                        lemma_opened_frames_stay_failed(
                            key,
                            nonce,
                            all,
                            n + 1,
                            all.len() / (FRAME_LEN as nat),
                        );
                    }
                    return Err(e);
                },
            }
        }
    }
    assert(data@.take(offset as int) =~= data@);
    Ok(out)
}

/// Decrypts a stream of ciphertext that arrives in pieces of any size.
///
/// The pieces are gathered into frames; every frame that fills up is opened
/// as an intermediate segment at once, and `finish` opens what is left as the
/// last segment. A failure ends the stream: the decryptor is given up with
/// it.
pub struct ChunkDecryptor {
    cipher: StreamDecryptor,
    buffer: Vec<u8>,
    fed: Ghost<Seq<u8>>,
    produced: Ghost<Seq<u8>>,
}

/// What a step of a decryptor leaves: the plaintext so far with the piece
/// just handed out, or the failure.
pub open spec fn with_piece(
    produced: Seq<u8>,
    r: Result<(ChunkDecryptor, Vec<u8>), CryptoError>,
) -> Result<Seq<u8>, CryptoError> {
    match r {
        Ok((_, piece)) => Ok(produced + piece@),
        Err(e) => Err(e),
    }
}

impl ChunkDecryptor {
    #[verifier::type_invariant]
    spec fn well_formed(self) -> bool {
        decryptor_holds(self.cipher, self.buffer@, self.fed@, self.produced@)
    }

    /// The cipher key.
    pub closed spec fn key(self) -> Seq<u8> {
        self.cipher.key()
    }

    /// The nonce prefix.
    pub closed spec fn nonce(self) -> Seq<u8> {
        self.cipher.nonce()
    }

    /// All ciphertext fed so far.
    pub closed spec fn fed(self) -> Seq<u8> {
        self.fed@
    }

    /// All plaintext handed out so far.
    pub closed spec fn produced(self) -> Seq<u8> {
        self.produced@
    }

    /// Starts the stream for a password.
    pub fn new(password: &[u8]) -> (d: Self)
        ensures
            d.key() == stream_key(password@),
            d.nonce() == stream_nonce(password@),
            d.fed() == Seq::<u8>::empty(),
            d.produced() == Seq::<u8>::empty(),
    {
        let cipher = decryptor_from_key(password).unwrap();
        let buffer: Vec<u8> = Vec::new();
        let ghost nothing = Seq::<u8>::empty();
        assert(nothing.skip(0) =~= buffer@);
        ChunkDecryptor { cipher, buffer, fed: Ghost(nothing), produced: Ghost(nothing) }
    }

    /// Takes the next piece of ciphertext and hands the decryptor back with
    /// the plaintext of the frames that the piece completes, in order.
    ///
    /// Fails with the failure of the first frame that does not open.
    pub fn feed(self, data: &[u8]) -> (r: Result<(Self, Vec<u8>), CryptoError>)
        ensures
            r matches Ok((next, p)) ==> {
                &&& next.key() == self.key()
                &&& next.nonce() == self.nonce()
                &&& next.fed() == self.fed() + data@
                &&& next.produced() == self.produced() + p@
            },
            opened_frames(
                self.key(),
                self.nonce(),
                self.fed() + data@,
                (self.fed() + data@).len() / (FRAME_LEN as nat),
            ) == with_piece(self.produced(), r),
    {
        proof {
            use_type_invariant(&self);
        }
        let mut cipher = self.cipher;
        let mut buffer = self.buffer;
        let mut fed = self.fed;
        let mut produced = self.produced;
        match feed_decryptor(&mut cipher, &mut buffer, &mut fed, &mut produced, data) {
            Ok(chunks) => Ok((ChunkDecryptor { cipher, buffer, fed, produced }, chunks)),
            Err(e) => Err(e),
        }
    }

    /// Opens what is left as the last segment and hands out its plaintext.
    ///
    /// With it the plaintext handed out is that of the whole stream, or the
    /// failure is that of the stream.
    pub fn finish(self) -> (r: Result<Vec<u8>, CryptoError>)
        ensures
            opened_stream(self.key(), self.nonce(), self.fed()) == with_tail(self.produced(), r),
    {
        proof {
            use_type_invariant(&self);
        }
        let ghost n = self.cipher.position() as nat;
        proof {
            assert(self.fed@.len() / (FRAME_LEN as nat) == n);
        }
        self.cipher.decrypt_last(self.buffer.as_slice())
    }
}

/// Encrypts a whole file held in memory.
///
/// The ciphertext is that of the stream, a tag longer for every chunk begun,
/// and it decrypts under the same password to the plaintext.
pub fn encrypt_stream(plain: &[u8], password: &[u8]) -> (r: Result<Vec<u8>, CryptoError>)
    ensures
        r is Ok <==> stream_sealable(plain@.len()),
        r is Err ==> r == Err::<Vec<u8>, CryptoError>(CryptoError::CounterExhausted),
        r matches Ok(c) ==> {
            &&& c@ == sealed_stream(stream_key(password@), stream_nonce(password@), plain@)
            &&& c@.len() == sealed_len(plain@.len())
            &&& opened_stream(stream_key(password@), stream_nonce(password@), c@) == Ok::<
                Seq<u8>,
                CryptoError,
            >(plain@)
        },
{
    let (encryptor, mut cipher) = match ChunkEncryptor::new(password).feed(plain) {
        Ok(fed) => fed,
        Err(e) => {
            return Err(e);
        },
    };
    let last = encryptor.finish().unwrap();
    cipher.extend_from_slice(last.as_slice());
    assert(Seq::<u8>::empty() + plain@ =~= plain@);
    Ok(cipher)
}

/// Decrypts a whole file held in memory.
pub fn decrypt_stream(cipher: &[u8], password: &[u8]) -> (r: Result<Vec<u8>, CryptoError>)
    ensures
        bytes_result_is(
            r,
            opened_stream(stream_key(password@), stream_nonce(password@), cipher@),
        ),
{
    assert(Seq::<u8>::empty() + cipher@ =~= cipher@);
    let (decryptor, mut plain) = match ChunkDecryptor::new(password).feed(cipher) {
        Ok(fed) => fed,
        Err(e) => {
            return Err(e);
        },
    };
    assert(decryptor.fed() =~= cipher@);
    assert(decryptor.produced() =~= plain@);
    let ghost head = plain@;
    match decryptor.finish() {
        Ok(tail) => {
            plain.extend_from_slice(tail.as_slice());
            assert(plain@ == head + tail@);
            Ok(plain)
        },
        Err(e) => Err(e),
    }
}

/// Bytes read at a time from a file that is sent as it is.
pub const PLAIN_READ_LEN: usize = 0x400;

/// What follows the remote's answer to the opening of an upload.
#[derive(Debug, Clone, Copy, PartialEq, Eq, Structural)]
pub enum UploadNext {
    /// The remote already holds these bytes: nothing is sent.
    Done,
    /// Send the body, then complete the upload.
    SendBody,
}

/// Why an upload cannot go on.
#[derive(Debug, Clone, Copy, PartialEq, Eq, Structural)]
pub enum UploadError {
    /// The remote holds a file of that name with other contents.
    AlreadyExists,
}

/// Decides what follows the opening of an upload. A match by digest ends
/// the upload at once; a file that exists without such a match is an error.
pub fn after_begin_upload(rapid_upload: bool, exist: bool) -> (r: Result<UploadNext, UploadError>)
    ensures
        r == if rapid_upload {
            Ok::<UploadNext, UploadError>(UploadNext::Done)
        } else if exist {
            Err::<UploadNext, UploadError>(UploadError::AlreadyExists)
        } else {
            Ok::<UploadNext, UploadError>(UploadNext::SendBody)
        },
{
    if rapid_upload {
        Ok(UploadNext::Done)
    } else if exist {
        Err(UploadError::AlreadyExists)
    } else {
        Ok(UploadNext::SendBody)
    }
}

/// The path that a download is written to before it takes its place.
pub fn temp_path(target: &str) -> (path: String)
    ensures
        path@ == target@ + ".tmp"@,
{
    String::from_str(target).concat(".tmp")
}

} // verus!

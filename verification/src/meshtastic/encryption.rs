//! Key derivation from pre-shared keys, and the per-packet stream cipher.
use crate::meshtastic::little_endian::{
    lemma_u128_of_two_u32, u128_le_bytes, u128_to_le, u32_to_le,
};
use aes::cipher::{KeyIvInit, StreamCipher, StreamCipherError, StreamCipherSeek};
use base64::Engine;
use vstd::prelude::*;
use vstd::slice::slice_to_vec;

verus! {

/// The error of `base64::Engine::decode`. It is handed on unread.
#[verifier::external_type_specification]
#[verifier::external_body]
pub struct ExDecodeError(base64::DecodeError);

/// The error of `aes::cipher::StreamCipher::apply_keystream_b2b`. It is
/// handed on unread.
#[verifier::external_type_specification]
#[verifier::external_body]
pub struct ExStreamCipherError(StreamCipherError);

/// Why a pre-shared key yields no channel key.
#[derive(Clone, Copy, Debug, PartialEq, Eq, Structural)]
pub enum KeyError {
    /// The text is not standard base64.
    InvalidEncoding,
    /// The text decodes to no bytes at all. Encryption is switched off by a
    /// single zero byte, never by an empty key.
    EmptyPsk,
    /// The text decodes to more than 32 bytes.
    UnsupportedKeyLength,
}

/// The key behind the one-byte shorthand `1`.
pub const DEFAULT_PSK: [u8; 16] = [
    0xd4, 0xf1, 0xbb, 0x3a, 0x20, 0x29, 0x07, 0x59, 0xf0, 0xbc, 0xff, 0xab, 0xcf, 0x4e, 0x69, 0x01,
];

/// `psk` behind as many zero bytes as it lacks to be `len` bytes long.
pub open spec fn zero_padded(psk: Seq<u8>, len: nat) -> Seq<u8> {
    Seq::new((len - psk.len()) as nat, |i: int| 0u8) + psk
}

/// The default key with `selector - 1` added to its last byte, modulo 256.
pub open spec fn modified_default_key(selector: u8) -> Seq<u8> {
    DEFAULT_PSK@.update(15, ((DEFAULT_PSK@[15] + selector - 1) % 256) as u8)
}

/// The channel key that the decoded pre-shared key `psk` stands for:
/// `Ok(None)` is a channel without encryption, `Ok(Some(key))` one keyed with
/// the 16 or 32 bytes of `key`.
pub open spec fn derived_key(psk: Seq<u8>) -> Result<Option<Seq<u8>>, KeyError> {
    if psk.len() == 0 {
        Err(KeyError::EmptyPsk)
    } else if psk.len() == 16 || psk.len() == 32 {
        Ok(Some(psk))
    } else if psk.len() == 1 {
        if psk[0] == 0 {
            Ok(None)
        } else {
            Ok(Some(modified_default_key(psk[0])))
        }
    } else if psk.len() < 16 {
        Ok(Some(zero_padded(psk, 16)))
    } else if psk.len() < 32 {
        Ok(Some(zero_padded(psk, 32)))
    } else {
        Err(KeyError::UnsupportedKeyLength)
    }
}

/// What standard base64 with padding decodes `text` to; `None` where `text`
/// is not such an encoding.
pub uninterp spec fn base64_standard_decoding(text: Seq<char>) -> Option<Seq<u8>>;

/// The channel key that the base64 text `text` stands for.
pub open spec fn psk_to_key_spec(text: Seq<char>) -> Result<Option<Seq<u8>>, KeyError> {
    match base64_standard_decoding(text) {
        Some(psk) => derived_key(psk),
        None => Err(KeyError::InvalidEncoding),
    }
}

/// A derivation result with the key bytes as a sequence.
pub open spec fn key_view(derived: Result<Option<Vec<u8>>, KeyError>) -> Result<
    Option<Seq<u8>>,
    KeyError,
> {
    match derived {
        Ok(Some(key)) => Ok(Some(key@)),
        Ok(None) => Ok(None),
        Err(e) => Err(e),
    }
}

/// `base64::Engine::decode` on the engine `BASE64_STANDARD`. Trusted: the
/// call succeeds exactly on the texts that have a standard decoding, and
/// then returns it. The decoder reads nothing but its input.
#[verifier::external_body]
fn decode_standard(text: &str) -> (decoded: Result<Vec<u8>, base64::DecodeError>)
    ensures
        match decoded {
            Ok(bytes) => base64_standard_decoding(text@) == Some(bytes@),
            Err(_) => base64_standard_decoding(text@) is None,
        },
{
    base64::prelude::BASE64_STANDARD.decode(text)
}

/// `count` zero bytes.
fn zeros(count: usize) -> (bytes: Vec<u8>)
    ensures
        bytes@ == Seq::new(count as nat, |i: int| 0u8),
{
    let mut bytes: Vec<u8> = Vec::new();
    let mut i: usize = 0;
    while i < count
        invariant
            i <= count,
            bytes@ == Seq::new(i as nat, |j: int| 0u8),
        decreases count - i,
    {
        bytes.push(0u8);
        i = i + 1;
    }
    bytes
}

/// Turns the decoded pre-shared key `psk` into the channel key it stands for.
///
/// Keys of 16 or 32 bytes are taken as they are. A single byte is a
/// shorthand: zero switches encryption off, any other value selects a
/// variation of the default key. Other keys of up to 32 bytes are padded with
/// leading zeros to the next key size.
pub fn key_from_psk(psk: Vec<u8>) -> (derived: Result<Option<Vec<u8>>, KeyError>)
    ensures
        key_view(derived) == derived_key(psk@),
        psk@.len() == 0 <==> derived == Err::<Option<Vec<u8>>, KeyError>(KeyError::EmptyPsk),
        psk@.len() > 32 <==> derived == Err::<Option<Vec<u8>>, KeyError>(
            KeyError::UnsupportedKeyLength,
        ),
        derived matches Ok(Some(key)) ==> key@.len() == 16 || key@.len() == 32,
{
    let len = psk.len();
    if len == 0 {
        return Err(KeyError::EmptyPsk);
    }
    if len == 16 || len == 32 {
        return Ok(Some(psk));
    }
    if len == 1 {
        if psk[0] == 0 {
            return Ok(None);
        }
        let mut key = DEFAULT_PSK;
        key[15] = key[15].wrapping_add(psk[0] - 1);
        return Ok(Some(slice_to_vec(key.as_slice())));
    }
    if len < 16 {
        let mut key = zeros(16 - len);
        let mut psk = psk;
        key.append(&mut psk);
        return Ok(Some(key));
    }
    if len < 32 {
        let mut key = zeros(32 - len);
        let mut psk = psk;
        key.append(&mut psk);
        return Ok(Some(key));
    }
    Err(KeyError::UnsupportedKeyLength)
}

/// Derives the channel key from a pre-shared key given as standard base64
/// text.
pub fn psk_to_key(psk_str: &str) -> (derived: Result<Option<Vec<u8>>, KeyError>)
    ensures
        key_view(derived) == psk_to_key_spec(psk_str@),
        derived matches Ok(Some(key)) ==> key@.len() == 16 || key@.len() == 32,
{
    match decode_standard(psk_str) {
        Ok(psk) => key_from_psk(psk),
        Err(_) => Err(KeyError::InvalidEncoding),
    }
}

/// Why a buffer was not encrypted.
#[derive(Clone, Copy, Debug, PartialEq, Eq, Structural)]
pub enum CipherError {
    /// Source and destination differ in length.
    LengthMismatch,
}

/// Number of keystream bytes that one key and nonce give: 2^32 - 1 blocks of
/// sixteen bytes, after which the 32-bit block counter would repeat.
pub const KEYSTREAM_LEN: u64 = 0xf_ffff_fff0;

/// The 128-bit number that starts the block counter of a packet: the packet
/// id in the low 64 bits, the sender above them.
pub open spec fn nonce_value(packet_id: u32, sender: u32) -> u128 {
    (packet_id as u128) | ((sender as u128) << 64)
}

/// The nonce of a packet: the sixteen bytes of its `nonce_value`, least
/// significant first.
pub open spec fn nonce_bytes(packet_id: u32, sender: u32) -> Seq<u8> {
    u128_to_le(nonce_value(packet_id, sender))
}

/// `data` with each byte XORed with the byte of `mask` at the same place.
pub open spec fn xor_bytes(data: Seq<u8>, mask: Seq<u8>) -> Seq<u8> {
    Seq::new(data.len(), |i: int| data[i] ^ mask[i])
}

/// Byte `index` of the keystream that AES-128 in counter mode gives for
/// `key` and `nonce`. Block `n` of the keystream is the encryption of the
/// nonce with `n` added to its first four bytes, read as a little-endian
/// number.
pub uninterp spec fn aes128_ctr32le_keystream_byte(key: Seq<u8>, nonce: Seq<u8>, index: nat) -> u8;

/// The same for AES-256.
pub uninterp spec fn aes256_ctr32le_keystream_byte(key: Seq<u8>, nonce: Seq<u8>, index: nat) -> u8;

/// Byte `index` of the keystream of the cipher that the length of `key`
/// selects.
pub open spec fn keystream_byte(key: Seq<u8>, nonce: Seq<u8>, index: nat) -> u8 {
    if key.len() == 16 {
        aes128_ctr32le_keystream_byte(key, nonce, index)
    } else {
        aes256_ctr32le_keystream_byte(key, nonce, index)
    }
}

/// The `len` bytes of keystream from byte `offset` on.
pub open spec fn keystream(key: Seq<u8>, nonce: Seq<u8>, offset: nat, len: nat) -> Seq<u8> {
    Seq::new(len, |i: int| keystream_byte(key, nonce, (offset + i) as nat))
}

/// `ctr::Ctr32LE::<aes::Aes128>`: `new`, `seek` to `offset`, then
/// `apply_keystream`. Trusted: each byte of the buffer is XORed with the
/// keystream byte of its place, counted from `offset`; the keystream depends
/// on key and nonce alone. Up to `KEYSTREAM_LEN` neither `seek` nor
/// `apply_keystream` panics.
#[verifier::external_body]
fn aes128_apply(key: &[u8; 16], nonce: &[u8; 16], offset: u64, buf: &mut [u8])
    requires
        offset + old(buf)@.len() <= KEYSTREAM_LEN,
    ensures
        final(buf)@ == xor_bytes(
            old(buf)@,
            Seq::new(
                old(buf)@.len(),
                |i: int| aes128_ctr32le_keystream_byte(key@, nonce@, (offset + i) as nat),
            ),
        ),
{
    let mut stream = ctr::Ctr32LE::<aes::Aes128>::new(key.into(), nonce.into());
    stream.seek(offset);
    stream.apply_keystream(buf);
}

/// `ctr::Ctr32LE::<aes::Aes256>`: `new`, `seek` to `offset`, then
/// `apply_keystream`. Trusted as `aes128_apply` is.
#[verifier::external_body]
fn aes256_apply(key: &[u8; 32], nonce: &[u8; 16], offset: u64, buf: &mut [u8])
    requires
        offset + old(buf)@.len() <= KEYSTREAM_LEN,
    ensures
        final(buf)@ == xor_bytes(
            old(buf)@,
            Seq::new(
                old(buf)@.len(),
                |i: int| aes256_ctr32le_keystream_byte(key@, nonce@, (offset + i) as nat),
            ),
        ),
{
    let mut stream = ctr::Ctr32LE::<aes::Aes256>::new(key.into(), nonce.into());
    stream.seek(offset);
    stream.apply_keystream(buf);
}

/// `ctr::Ctr32LE::<aes::Aes128>`: `new`, `seek` to `offset`, then
/// `apply_keystream_b2b`. Trusted: the call fails exactly where the two
/// buffers differ in length, and then writes nothing; otherwise each byte of
/// `output` is the byte of `input` XORed with the keystream byte of its
/// place, counted from `offset`.
#[verifier::external_body]
fn aes128_apply_b2b(
    key: &[u8; 16],
    nonce: &[u8; 16],
    offset: u64,
    input: &[u8],
    output: &mut [u8],
) -> (applied: Result<(), StreamCipherError>)
    requires
        offset + input@.len() <= KEYSTREAM_LEN,
    ensures
        applied is Ok <==> input@.len() == old(output)@.len(),
        applied is Ok ==> final(output)@ == xor_bytes(
            input@,
            Seq::new(
                input@.len(),
                |i: int| aes128_ctr32le_keystream_byte(key@, nonce@, (offset + i) as nat),
            ),
        ),
        applied is Err ==> final(output)@ == old(output)@,
{
    let mut stream = ctr::Ctr32LE::<aes::Aes128>::new(key.into(), nonce.into());
    stream.seek(offset);
    stream.apply_keystream_b2b(input, output)
}

/// `ctr::Ctr32LE::<aes::Aes256>`: `new`, `seek` to `offset`, then
/// `apply_keystream_b2b`. Trusted as `aes128_apply_b2b` is.
#[verifier::external_body]
fn aes256_apply_b2b(
    key: &[u8; 32],
    nonce: &[u8; 16],
    offset: u64,
    input: &[u8],
    output: &mut [u8],
) -> (applied: Result<(), StreamCipherError>)
    requires
        offset + input@.len() <= KEYSTREAM_LEN,
    ensures
        applied is Ok <==> input@.len() == old(output)@.len(),
        applied is Ok ==> final(output)@ == xor_bytes(
            input@,
            Seq::new(
                input@.len(),
                |i: int| aes256_ctr32le_keystream_byte(key@, nonce@, (offset + i) as nat),
            ),
        ),
        applied is Err ==> final(output)@ == old(output)@,
{
    let mut stream = ctr::Ctr32LE::<aes::Aes256>::new(key.into(), nonce.into());
    stream.seek(offset);
    stream.apply_keystream_b2b(input, output)
}

/// A counter-mode keystream and how far into it the cipher has come.
pub struct CtrStream<const N: usize> {
    pub key: [u8; N],
    pub nonce: [u8; 16],
    pub position: u64,
}

/// The stream cipher of one packet, AES-128 or AES-256 by the length of the
/// key.
pub enum Cipher {
    AES128(CtrStream<16>),
    AES256(CtrStream<32>),
}

/// What a cipher is to its callers: key, nonce, and the number of keystream
/// bytes already used.
pub struct CipherState {
    pub key: Seq<u8>,
    pub nonce: Seq<u8>,
    pub position: nat,
}

impl CipherState {
    /// `data` after the cipher has been applied to it.
    pub open spec fn applied(self, data: Seq<u8>) -> Seq<u8> {
        xor_bytes(data, keystream(self.key, self.nonce, self.position, data.len()))
    }

    /// The cipher after it has been applied to `len` bytes.
    pub open spec fn advanced(self, len: nat) -> CipherState {
        CipherState { key: self.key, nonce: self.nonce, position: self.position + len }
    }
}

/// The cipher of the packet `packet_id` from `sender` under `key`, before
/// any use.
pub open spec fn fresh_cipher(key: Seq<u8>, packet_id: u32, sender: u32) -> CipherState {
    CipherState { key, nonce: nonce_bytes(packet_id, sender), position: 0 }
}

impl View for Cipher {
    type V = CipherState;

    open spec fn view(&self) -> CipherState {
        match self {
            Cipher::AES128(stream) => CipherState {
                key: stream.key@,
                nonce: stream.nonce@,
                position: stream.position as nat,
            },
            Cipher::AES256(stream) => CipherState {
                key: stream.key@,
                nonce: stream.nonce@,
                position: stream.position as nat,
            },
        }
    }
}

impl Cipher {
    /// Encrypts or decrypts `buf` in place, going on in the keystream where
    /// the last call stopped. The keystream ends after `KEYSTREAM_LEN` bytes,
    /// and no call may go past its end.
    pub fn crypt(&mut self, buf: &mut [u8])
        requires
            old(self)@.position + old(buf)@.len() <= KEYSTREAM_LEN,
        ensures
            final(buf)@ == old(self)@.applied(old(buf)@),
            final(self)@ == old(self)@.advanced(old(buf)@.len()),
            (*final(self) is AES128) <==> (*old(self) is AES128),
    {
        let len = buf.len() as u64;
        match self {
            Cipher::AES128(stream) => {
                aes128_apply(&stream.key, &stream.nonce, stream.position, buf);
                stream.position = stream.position + len;
            },
            Cipher::AES256(stream) => {
                aes256_apply(&stream.key, &stream.nonce, stream.position, buf);
                stream.position = stream.position + len;
            },
        }
    }

    /// Encrypts or decrypts `buf1` into `buf2`, going on in the keystream
    /// where the last call stopped. Where the two differ in length nothing
    /// is written and no keystream is used. The keystream ends after
    /// `KEYSTREAM_LEN` bytes, and no call may go past its end.
    pub fn crypt_b2b(&mut self, buf1: &[u8], buf2: &mut [u8]) -> (done: Result<(), CipherError>)
        requires
            old(self)@.position + buf1@.len() <= KEYSTREAM_LEN,
        ensures
            buf1@.len() == old(buf2)@.len() ==> {
                &&& done is Ok
                &&& final(buf2)@ == old(self)@.applied(buf1@)
                &&& final(self)@ == old(self)@.advanced(buf1@.len())
            },
            buf1@.len() != old(buf2)@.len() ==> {
                &&& done == Err::<(), CipherError>(CipherError::LengthMismatch)
                &&& final(buf2)@ == old(buf2)@
                &&& final(self)@ == old(self)@
            },
            (*final(self) is AES128) <==> (*old(self) is AES128),
    {
        let len = buf1.len() as u64;
        match self {
            Cipher::AES128(stream) => {
                match aes128_apply_b2b(&stream.key, &stream.nonce, stream.position, buf1, buf2) {
                    Ok(()) => {
                        stream.position = stream.position + len;
                        Ok(())
                    },
                    Err(_) => Err(CipherError::LengthMismatch),
                }
            },
            Cipher::AES256(stream) => {
                match aes256_apply_b2b(&stream.key, &stream.nonce, stream.position, buf1, buf2) {
                    Ok(()) => {
                        stream.position = stream.position + len;
                        Ok(())
                    },
                    Err(_) => Err(CipherError::LengthMismatch),
                }
            },
        }
    }
}

/// Copies the first `N` bytes of `bytes`.
fn to_array<const N: usize>(bytes: &[u8]) -> (array: [u8; N])
    requires
        bytes@.len() == N,
    ensures
        array@ == bytes@,
{
    let mut array = [0u8; N];
    let mut i: usize = 0;
    while i < N
        invariant
            i <= N,
            bytes@.len() == N,
            array@.take(i as int) == bytes@.take(i as int),
        decreases N - i,
    {
        array[i] = bytes[i];
        i = i + 1;
        assert(array@.take(i as int) =~= bytes@.take(i as int));
    }
    assert(array@ =~= array@.take(N as int));
    assert(bytes@ =~= bytes@.take(N as int));
    array
}

/// The nonce of the packet `packet_id` from `sender`.
pub fn packet_nonce(packet_id: u32, sender: u32) -> (nonce: [u8; 16])
    ensures
        nonce@ == nonce_bytes(packet_id, sender),
{
    let value: u128 = (packet_id as u128) | ((sender as u128) << 64);
    u128_le_bytes(value)
}

/// Sets up the cipher of the packet `packet_id` from `packet_sender`:
/// AES-128 for a key of 16 bytes, AES-256 for one of 32.
pub fn cipher(key: &[u8], packet_id: u32, packet_sender: u32) -> (made: Cipher)
    requires
        key@.len() == 16 || key@.len() == 32,
    ensures
        made@ == fresh_cipher(key@, packet_id, packet_sender),
        made is AES128 <==> key@.len() == 16,
{
    let nonce = packet_nonce(packet_id, packet_sender);
    if key.len() == 16 {
        Cipher::AES128(CtrStream { key: to_array::<16>(key), nonce, position: 0 })
    } else {
        Cipher::AES256(CtrStream { key: to_array::<32>(key), nonce, position: 0 })
    }
}

/// The nonce holds the packet id in bytes 0 to 3 and the sender in bytes 8
/// to 11, each least significant byte first, and zeros elsewhere.
pub proof fn lemma_nonce_layout(packet_id: u32, sender: u32)
    ensures
        nonce_bytes(packet_id, sender) == u32_to_le(packet_id) + seq![0u8, 0u8, 0u8, 0u8]
            + u32_to_le(sender) + seq![0u8, 0u8, 0u8, 0u8],
{
    lemma_u128_of_two_u32(packet_id, sender);
}

/// XORing the same mask on twice gives the data back.
pub proof fn lemma_xor_bytes_twice(data: Seq<u8>, mask: Seq<u8>)
    ensures
        xor_bytes(xor_bytes(data, mask), mask) == data,
{
    assert forall|i: int| 0 <= i < data.len() implies (data[i] ^ mask[i]) ^ mask[i] == data[i] by {
        let d = data[i];
        let m = mask[i];
        assert((d ^ m) ^ m == d) by (bit_vector);
    }
    assert(xor_bytes(xor_bytes(data, mask), mask) =~= data);
}

/// Applying a cipher twice from the same place in its keystream gives the
/// data back: decryption is encryption.
pub proof fn lemma_applied_twice(state: CipherState, data: Seq<u8>)
    ensures
        state.applied(data).len() == data.len(),
        state.applied(state.applied(data)) == data,
{
    lemma_xor_bytes_twice(data, keystream(state.key, state.nonce, state.position, data.len()));
}

/// Two ciphers set up for the same key, packet and sender undo each other.
pub proof fn lemma_cipher_symmetry(key: Seq<u8>, packet_id: u32, sender: u32, plaintext: Seq<u8>)
    ensures
        fresh_cipher(key, packet_id, sender).applied(
            fresh_cipher(key, packet_id, sender).applied(plaintext),
        ) == plaintext,
{
    lemma_applied_twice(fresh_cipher(key, packet_id, sender), plaintext);
}

/// Applying a cipher to two pieces of data, one call after the other, gives
/// what one call gives on the two pieces joined.
pub proof fn lemma_applied_in_parts(state: CipherState, first: Seq<u8>, second: Seq<u8>)
    ensures
        state.applied(first + second) == state.applied(first) + state.advanced(
            first.len(),
        ).applied(second),
{
    assert(state.applied(first + second) =~= state.applied(first) + state.advanced(
        first.len(),
    ).applied(second));
}

/// A text that decodes to a key of 16 or 32 bytes stands for that key.
pub proof fn lemma_canonical_key_kept(text: Seq<char>, key: Seq<u8>)
    requires
        base64_standard_decoding(text) == Some(key),
        key.len() == 16 || key.len() == 32,
    ensures
        psk_to_key_spec(text) == Ok::<Option<Seq<u8>>, KeyError>(Some(key)),
{
}

/// The one-byte key `selector`, if not zero, stands for the default key with
/// its last byte replaced by `selector`; so `1` stands for the default key
/// itself.
pub proof fn lemma_single_byte_key(selector: u8)
    requires
        selector != 0,
    ensures
        derived_key(seq![selector]) == Ok::<Option<Seq<u8>>, KeyError>(
            Some(DEFAULT_PSK@.update(15, selector)),
        ),
        selector == 1 ==> derived_key(seq![selector]) == Ok::<Option<Seq<u8>>, KeyError>(
            Some(DEFAULT_PSK@),
        ),
{
    assert(DEFAULT_PSK@[15] == 1);
    assert(DEFAULT_PSK@.update(15, 1u8) =~= DEFAULT_PSK@);
}

/// A key of 2 to 15 bytes is padded with leading zeros to 16 bytes, one of
/// 17 to 31 bytes to 32 bytes. The key itself stands at the end, unchanged.
pub proof fn lemma_short_key_padded(psk: Seq<u8>)
    requires
        1 < psk.len() < 32,
        psk.len() != 16,
    ensures
        derived_key(psk) matches Ok(Some(key)) && {
            let size: int = if psk.len() < 16 { 16 } else { 32 };
            &&& key == Seq::new((size - psk.len()) as nat, |i: int| 0u8) + psk
            &&& key.len() == size
            &&& key.subrange(size - psk.len(), size) == psk
            &&& forall|i: int| 0 <= i < size - psk.len() ==> key[i] == 0
        },
{
    let size: int = if psk.len() < 16 { 16 } else { 32 };
    let key = zero_padded(psk, size as nat);
    assert(key.subrange(size - psk.len(), size) =~= psk);
}

/// Every key that comes out of the derivation is 16 or 32 bytes long, so a
/// cipher can be set up with it.
pub proof fn lemma_derived_key_len(psk: Seq<u8>)
    ensures
        derived_key(psk) matches Ok(Some(key)) ==> key.len() == 16 || key.len() == 32,
{
}

/// A key is derived from every pre-shared key of 1 to 32 bytes, and from no
/// other.
pub proof fn lemma_derived_key_errors(psk: Seq<u8>)
    ensures
        derived_key(psk) is Ok <==> 1 <= psk.len() <= 32,
        psk.len() == 0 <==> derived_key(psk) == Err::<Option<Seq<u8>>, KeyError>(
            KeyError::EmptyPsk,
        ),
        psk.len() > 32 <==> derived_key(psk) == Err::<Option<Seq<u8>>, KeyError>(
            KeyError::UnsupportedKeyLength,
        ),
        derived_key(psk) == Ok::<Option<Seq<u8>>, KeyError>(None) <==> psk =~= seq![0u8],
{
}

/// A text that decodes to no bytes is an error, and never stands for a
/// channel without encryption.
pub proof fn lemma_empty_psk_rejected(text: Seq<char>)
    requires
        base64_standard_decoding(text) == Some(Seq::<u8>::empty()),
    ensures
        psk_to_key_spec(text) == Err::<Option<Seq<u8>>, KeyError>(KeyError::EmptyPsk),
{
}

} // verus!

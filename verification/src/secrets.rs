//! Secrets in a container's environment: each is a sealed envelope, which
//! only the holder of a sandbox's private key can open. This module takes
//! an envelope apart and finds the key and the nonce that open it; the
//! opening itself is the caller's.

use crate::text::{before_first, chars_of, find_char, index_of};
use vstd::prelude::*;
use vstd::string::*;

verus! {

/// The number of bytes of a public key.
pub const KEY_LEN: usize = 32;

/// The number of bytes of a nonce.
pub const NONCE_LEN: usize = 24;

/// What `base64::Engine::decode` of the engine
/// `base64::engine::general_purpose::STANDARD` returns for `text`: the
/// bytes that the text encodes, or `None` where it returns an error.
pub uninterp spec fn base64_decoded(text: Seq<char>) -> Option<Seq<u8>>;

/// What `blake2::Digest::digest` returns for `blake2::Blake2b256` on
/// `data`: the BLAKE2b hash of 32 bytes.
pub uninterp spec fn blake2b_256(data: Seq<u8>) -> Seq<u8>;

/// The bytes of a byte string that may be absent.
pub open spec fn bytes_of(o: Option<Vec<u8>>) -> Option<Seq<u8>> {
    match o {
        Some(b) => Some(b@),
        None => None,
    }
}

/// Decodes `text` with `base64::Engine::decode` of the standard engine,
/// which wants the standard alphabet and padding. Nothing is proved of the
/// result: it is [`base64_decoded`] by definition.
#[verifier::external_body]
pub(crate) fn decode_base64(text: &str) -> (bytes: Option<Vec<u8>>)
    ensures
        bytes_of(bytes) == base64_decoded(text@),
{
    match base64::Engine::decode(&base64::engine::general_purpose::STANDARD, text) {
        Ok(bytes) => Some(bytes),
        Err(_) => None,
    }
}

/// Hashes `data` with `blake2::Digest::digest` of `blake2::Blake2b256`.
/// The result is [`blake2b_256`] by definition; that it has 32 bytes is
/// the output size of that type.
#[verifier::external_body]
pub(crate) fn hash_blake2b_256(data: &Vec<u8>) -> (digest: Vec<u8>)
    ensures
        digest@ == blake2b_256(data@),
        digest@.len() == 32,
{
    <blake2::Blake2b256 as blake2::Digest>::digest(data.as_slice()).to_vec()
}

/// Why an envelope cannot be opened.
#[derive(Clone, Copy, Debug, PartialEq, Eq, Structural)]
pub enum SecretError {
    /// The entry has no `=` between a name and a value.
    NoValue,
    /// The value does not begin with `v2:`.
    BadVersion,
    /// What follows `v2:` is no base64.
    BadEncoding,
    /// The envelope is too short to hold the two public keys.
    TooShort,
    /// No key of the sandbox is the recipient's.
    NoKey,
}

/// The parts of an envelope.
pub struct Envelope {
    /// The public key that the envelope was sealed for.
    pub recipient: Vec<u8>,
    /// The public key of the sender, made for this envelope alone.
    pub ephemeral: Vec<u8>,
    /// The sealed text.
    pub sealed: Vec<u8>,
}

/// The bytes of an envelope: the recipient's key, the sender's key, the
/// sealed text.
pub open spec fn framed(recipient: Seq<u8>, ephemeral: Seq<u8>, sealed: Seq<u8>) -> Seq<u8> {
    recipient + ephemeral + sealed
}

/// Copies the bytes `from .. to` of `bytes`.
pub fn copy_range(bytes: &Vec<u8>, from: usize, to: usize) -> (out: Vec<u8>)
    requires
        from <= to <= bytes@.len(),
    ensures
        out@ == bytes@.subrange(from as int, to as int),
{
    let mut out: Vec<u8> = Vec::new();
    let mut i: usize = from;
    while i < to
        invariant
            from <= i <= to <= bytes@.len(),
            out@ == bytes@.subrange(from as int, i as int),
        decreases to - i,
    {
        out.push(bytes[i]);
        assert(out@ =~= bytes@.subrange(from as int, i as int + 1));
        i += 1;
    }
    out
}

/// Takes the bytes of an envelope apart: the first 32 bytes are the
/// recipient's key, the next 32 the sender's, the rest is the sealed text.
pub fn split_envelope(bytes: &Vec<u8>) -> (r: Result<Envelope, SecretError>)
    ensures
        bytes@.len() < 64 ==> r == Err::<Envelope, SecretError>(SecretError::TooShort),
        bytes@.len() >= 64 ==> r is Ok && r->Ok_0.recipient@ == bytes@.subrange(0, 32)
            && r->Ok_0.ephemeral@ == bytes@.subrange(32, 64) && r->Ok_0.sealed@ == bytes@.subrange(
            64,
            bytes@.len() as int,
        ),
{
    if bytes.len() < 2 * KEY_LEN {
        return Err(SecretError::TooShort);
    }
    Ok(
        Envelope {
            recipient: copy_range(bytes, 0, KEY_LEN),
            ephemeral: copy_range(bytes, KEY_LEN, 2 * KEY_LEN),
            sealed: copy_range(bytes, 2 * KEY_LEN, bytes.len()),
        },
    )
}

/// What is taken out of an envelope is what was put in.
pub proof fn lemma_envelope_round_trip(recipient: Seq<u8>, ephemeral: Seq<u8>, sealed: Seq<u8>)
    requires
        recipient.len() == 32,
        ephemeral.len() == 32,
    ensures
        framed(recipient, ephemeral, sealed).len() >= 64,
        framed(recipient, ephemeral, sealed).subrange(0, 32) == recipient,
        framed(recipient, ephemeral, sealed).subrange(32, 64) == ephemeral,
        framed(recipient, ephemeral, sealed).subrange(
            64,
            framed(recipient, ephemeral, sealed).len() as int,
        ) == sealed,
{
    let f = framed(recipient, ephemeral, sealed);
    assert(f.subrange(0, 32) =~= recipient);
    assert(f.subrange(32, 64) =~= ephemeral);
    assert(f.subrange(64, f.len() as int) =~= sealed);
}

/// The index in `keys` of the first key that is `key`, or the length of
/// `keys`.
pub open spec fn key_index(keys: Seq<Vec<u8>>, key: Seq<u8>) -> int
    decreases keys.len(),
{
    if keys.len() == 0 {
        0
    } else if keys[0]@ == key {
        0
    } else {
        1 + key_index(keys.drop_first(), key)
    }
}

/// `key_index(keys, key)` is the first index at which `key` stands.
pub proof fn lemma_key_index(keys: Seq<Vec<u8>>, key: Seq<u8>)
    ensures
        0 <= key_index(keys, key) <= keys.len(),
        key_index(keys, key) < keys.len() ==> keys[key_index(keys, key)]@ == key,
        forall|i: int| 0 <= i < key_index(keys, key) ==> keys[i]@ != key,
    decreases keys.len(),
{
    if keys.len() > 0 && keys[0]@ != key {
        let t = keys.drop_first();
        lemma_key_index(t, key);
        assert forall|i: int| 0 <= i < key_index(keys, key) implies keys[i]@ != key by {
            if i > 0 {
                assert(keys[i] == t[i - 1]);
            }
        }
    }
}

/// Are `a` and `b` the same bytes?
pub fn same_bytes(a: &Vec<u8>, b: &Vec<u8>) -> (r: bool)
    ensures
        r == (a@ == b@),
{
    if a.len() != b.len() {
        return false;
    }
    let mut i: usize = 0;
    while i < a.len()
        invariant
            i <= a.len(),
            a@.len() == b@.len(),
            forall|k: int| 0 <= k < i ==> a@[k] == b@[k],
        decreases a.len() - i,
    {
        if a[i] != b[i] {
            return false;
        }
        i += 1;
    }
    assert(a@ =~= b@);
    true
}

/// Finds the sandbox's key pair for an envelope: the first whose public
/// key is the envelope's recipient.
pub fn find_key(public_keys: &Vec<Vec<u8>>, recipient: &Vec<u8>) -> (r: Result<usize, SecretError>)
    ensures
        key_index(public_keys@, recipient@) < public_keys@.len() ==> r is Ok && r->Ok_0
            == key_index(public_keys@, recipient@),
        key_index(public_keys@, recipient@) >= public_keys@.len() ==> r == Err::<
            usize,
            SecretError,
        >(SecretError::NoKey),
{
    let mut k: usize = 0;
    while k < public_keys.len() && !same_bytes(&public_keys[k], recipient)
        invariant
            k <= public_keys.len(),
            forall|i: int| 0 <= i < k ==> public_keys@[i]@ != recipient@,
        decreases public_keys.len() - k,
    {
        k += 1;
    }
    proof {
        lemma_key_index(public_keys@, recipient@);
    }
    if k < public_keys.len() {
        Ok(k)
    } else {
        Err(SecretError::NoKey)
    }
}

/// The nonce of an envelope, given the hash of the sender's key followed
/// by the recipient's: the first 24 bytes of the hash. `None` for a hash
/// that is shorter.
pub fn nonce_from(digest: &Vec<u8>) -> (nonce: Option<Vec<u8>>)
    ensures
        digest@.len() >= 24 ==> bytes_of(nonce) == Some(digest@.take(24)),
        digest@.len() < 24 ==> nonce is None,
{
    if digest.len() < NONCE_LEN {
        None
    } else {
        let nonce = copy_range(digest, 0, NONCE_LEN);
        assert(nonce@ =~= digest@.take(24));
        Some(nonce)
    }
}

/// The nonce of the envelope with the sender's key `ephemeral` and the
/// recipient's key `recipient`.
pub open spec fn nonce_spec(ephemeral: Seq<u8>, recipient: Seq<u8>) -> Seq<u8> {
    blake2b_256(ephemeral + recipient).take(24)
}

/// Derives the nonce of an envelope from its two public keys.
pub fn envelope_nonce(ephemeral: &Vec<u8>, recipient: &Vec<u8>) -> (nonce: Vec<u8>)
    ensures
        nonce@ == nonce_spec(ephemeral@, recipient@),
{
    let mut data = ephemeral.clone();
    let mut tail = recipient.clone();
    data.append(&mut tail);
    assert(data@ =~= ephemeral@ + recipient@);
    let digest = hash_blake2b_256(&data);
    match nonce_from(&digest) {
        Some(nonce) => nonce,
        None => Vec::new(),
    }
}

/// The name of the variable that the entry `entry` sets: what stands
/// before its first `=`.
pub open spec fn entry_name(entry: Seq<char>) -> Seq<char> {
    before_first(entry, '=')
}

/// The base64 text of the entry `entry`: what stands behind `=v2:`, if
/// the entry has the shape `NAME=v2:<text>`.
pub open spec fn entry_payload(entry: Seq<char>) -> Result<Seq<char>, SecretError> {
    let k = index_of(entry, '=');
    if k >= entry.len() {
        Err(SecretError::NoValue)
    } else if entry.len() >= k + 4 && entry[k + 1] == 'v' && entry[k + 2] == '2' && entry[k + 3]
        == ':' {
        Ok(entry.skip(k + 4))
    } else {
        Err(SecretError::BadVersion)
    }
}

/// A secret of the environment, taken apart.
pub struct Secret {
    /// The name of the variable.
    pub name: String,
    /// The base64 text of the envelope.
    pub payload: String,
}

/// Takes an entry `NAME=v2:<base64>` apart.
pub fn parse_entry(entry: &str) -> (r: Result<Secret, SecretError>)
    ensures
        match r {
            Ok(s) => entry_payload(entry@) == Ok::<Seq<char>, SecretError>(s.payload@) && s.name@
                == entry_name(entry@),
            Err(e) => entry_payload(entry@) == Err::<Seq<char>, SecretError>(e),
        },
{
    let v = chars_of(entry);
    let k = find_char(&v, '=');
    if k >= v.len() {
        return Err(SecretError::NoValue);
    }
    if v.len() - k >= 4 && v[k + 1] == 'v' && v[k + 2] == '2' && v[k + 3] == ':' {
        let name = entry.substring_char(0, k);
        let payload = entry.substring_char(k + 4, v.len());
        assert(name@ =~= entry@.take(k as int));
        assert(payload@ =~= entry@.skip(k + 4));
        Ok(Secret { name: name.to_owned(), payload: payload.to_owned() })
    } else {
        Err(SecretError::BadVersion)
    }
}

/// What it takes to open one secret.
pub struct Sealed {
    /// The name of the variable.
    pub name: String,
    /// Which of the sandbox's key pairs opens the envelope.
    pub key: usize,
    /// The sender's public key.
    pub ephemeral: Vec<u8>,
    /// The nonce.
    pub nonce: Vec<u8>,
    /// The sealed text.
    pub sealed: Vec<u8>,
}

/// Why the envelope with the bytes `bytes` cannot be opened, if it
/// cannot.
pub open spec fn envelope_error(public_keys: Seq<Vec<u8>>, bytes: Option<Seq<u8>>) -> Option<
    SecretError,
> {
    match bytes {
        None => Some(SecretError::BadEncoding),
        Some(b) => if b.len() < 64 {
            Some(SecretError::TooShort)
        } else if key_index(public_keys, b.subrange(0, 32)) >= public_keys.len() {
            Some(SecretError::NoKey)
        } else {
            None
        },
    }
}

/// Does `s` say what opens the envelope `bytes` of the secret named
/// `name`?
pub open spec fn opens(s: Sealed, name: Seq<char>, public_keys: Seq<Vec<u8>>, bytes: Seq<u8>) -> bool {
    &&& s.name@ == name
    &&& bytes.len() >= 64
    &&& s.key == key_index(public_keys, bytes.subrange(0, 32))
    &&& s.key < public_keys.len()
    &&& s.ephemeral@ == bytes.subrange(32, 64)
    &&& s.nonce@ == nonce_spec(bytes.subrange(32, 64), bytes.subrange(0, 32))
    &&& s.sealed@ == bytes.subrange(64, bytes.len() as int)
}

/// Finds what opens the envelope of the secret `name`, given the bytes
/// that its base64 text decodes to.
pub fn unpack(name: String, bytes: &Option<Vec<u8>>, public_keys: &Vec<Vec<u8>>) -> (r: Result<
    Sealed,
    SecretError,
>)
    ensures
        match r {
            Ok(s) => envelope_error(public_keys@, bytes_of(*bytes)) is None && opens(
                s,
                name@,
                public_keys@,
                bytes_of(*bytes)->0,
            ),
            Err(e) => envelope_error(public_keys@, bytes_of(*bytes)) == Some(e),
        },
{
    let all = match bytes {
        Some(b) => b,
        None => {
            return Err(SecretError::BadEncoding);
        },
    };
    let envelope = match split_envelope(all) {
        Ok(e) => e,
        Err(e) => {
            return Err(e);
        },
    };
    let key = match find_key(public_keys, &envelope.recipient) {
        Ok(k) => k,
        Err(e) => {
            return Err(e);
        },
    };
    let nonce = envelope_nonce(&envelope.ephemeral, &envelope.recipient);
    Ok(Sealed { name, key, ephemeral: envelope.ephemeral, nonce, sealed: envelope.sealed })
}

/// Finds what opens the secret `entry` of the environment, where
/// `public_keys` are the public keys of the sandbox's key pairs.
pub fn unseal(entry: &str, public_keys: &Vec<Vec<u8>>) -> (r: Result<Sealed, SecretError>)
    ensures
        match r {
            Ok(s) => entry_payload(entry@) is Ok && envelope_error(
                public_keys@,
                base64_decoded(entry_payload(entry@)->Ok_0),
            ) is None && opens(
                s,
                entry_name(entry@),
                public_keys@,
                base64_decoded(entry_payload(entry@)->Ok_0)->0,
            ),
            Err(e) => match entry_payload(entry@) {
                Err(first) => e == first,
                Ok(text) => envelope_error(public_keys@, base64_decoded(text)) == Some(e),
            },
        },
{
    let secret = match parse_entry(entry) {
        Ok(s) => s,
        Err(e) => {
            return Err(e);
        },
    };
    let bytes = decode_base64(secret.payload.as_str());
    unpack(secret.name, &bytes, public_keys)
}

/// The assignment that a secret `name` with the opened text `value` adds
/// to the environment.
pub fn secret_assignment(name: &str, value: &str) -> (s: String)
    ensures
        s@ == name@ + "="@ + value@,
{
    let mut s = name.to_owned();
    s.append("=");
    s.append(value);
    assert(s@ =~= name@ + "="@ + value@);
    s
}

} // verus!

use vstd::prelude::*;
use aes_gcm::aead::{Aead, KeyInit};
use aes_gcm::{Aes256Gcm, Key, Nonce};
use rand::RngCore;
use crate::error::{CryptoError, DbError};

verus! {

/// Length in bytes of an AES-256 key.
pub const KEY_LEN: usize = 32;

/// Length in bytes of the nonce that opens every sealed blob.
pub const NONCE_LEN: usize = 12;

/// How much longer a sealed blob is than its plaintext: the nonce and a 16-byte tag.
pub const SEAL_OVERHEAD: usize = 28;

/// The ciphertext, authentication tag included, that AES-256-GCM produces
/// from `pt` under `key` and `nonce`.
pub uninterp spec fn aead_seal(key: Seq<u8>, nonce: Seq<u8>, pt: Seq<u8>) -> Seq<u8>;

/// The plaintext that AES-256-GCM recovers from `ct` under `key` and `nonce`,
/// or nothing when the authentication tag does not verify.
pub uninterp spec fn aead_open(key: Seq<u8>, nonce: Seq<u8>, ct: Seq<u8>) -> Option<Seq<u8>>;

/// Relies on `Aes256Gcm::encrypt`: it fails only on a plaintext over 2^36 bytes,
/// appends a 16-byte tag, and what it produces opens to the plaintext again.
#[verifier::external_body]
fn aes_seal(key: &[u8], nonce: &[u8], pt: &[u8]) -> (r: Option<Vec<u8>>)
    requires
        key@.len() == KEY_LEN,
        nonce@.len() == NONCE_LEN,
    ensures
        pt@.len() <= 0x10_0000_0000 ==> r is Some,
        r matches Some(c) ==> c@ == aead_seal(key@, nonce@, pt@)
            && c@.len() == pt@.len() + 16
            && aead_open(key@, nonce@, c@) == Some(pt@),
{
    let cipher = Aes256Gcm::new(Key::<Aes256Gcm>::from_slice(key));
    cipher.encrypt(Nonce::from_slice(nonce), pt).ok()
}

/// Relies on `Aes256Gcm::decrypt`: the plaintext when the tag verifies.
#[verifier::external_body]
fn aes_open(key: &[u8], nonce: &[u8], ct: &[u8]) -> (r: Option<Vec<u8>>)
    requires
        key@.len() == KEY_LEN,
        nonce@.len() == NONCE_LEN,
    ensures
        match r {
            Some(p) => aead_open(key@, nonce@, ct@) == Some(p@),
            None => aead_open(key@, nonce@, ct@) is None,
        },
{
    let cipher = Aes256Gcm::new(Key::<Aes256Gcm>::from_slice(key));
    cipher.decrypt(Nonce::from_slice(nonce), ct).ok()
}

/// Relies on `RngCore::try_fill_bytes` of `rand::rngs::OsRng`: twelve bytes from
/// the operating system, or nothing when its random source fails.
#[verifier::external_body]
fn fresh_nonce() -> (r: Option<Vec<u8>>)
    ensures
        r matches Some(n) ==> n@.len() == NONCE_LEN,
{
    let mut nonce = [0u8; 12];
    rand::rngs::OsRng.try_fill_bytes(&mut nonce).ok().map(|_| nonce.to_vec())
}

/// What opening `blob` under `key` gives: the nonce is its first twelve bytes
/// and the sealed text the rest.
pub open spec fn open_spec(key: Seq<u8>, blob: Seq<u8>) -> Result<Seq<u8>, DbError> {
    if blob.len() < NONCE_LEN {
        Err(DbError::Encryption(CryptoError::InvalidCiphertext))
    } else {
        match aead_open(key, blob.subrange(0, NONCE_LEN as int), blob.subrange(NONCE_LEN as int, blob.len() as int)) {
            Some(p) => Ok(p),
            None => Err(DbError::Encryption(CryptoError::AuthenticationFailed)),
        }
    }
}

/// A fresh vector holding the bytes of `s`.
pub fn copy_bytes(s: &[u8]) -> (r: Vec<u8>)
    ensures
        r@ == s@,
{
    let mut out: Vec<u8> = Vec::with_capacity(s.len());
    let mut i: usize = 0;
    while i < s.len()
        invariant
            0 <= i <= s.len(),
            out@ == s@.subrange(0, i as int),
        decreases s.len() - i,
    {
        out.push(s[i]);
        i = i + 1;
    }
    proof {
        assert(s@.subrange(0, s@.len() as int) =~= s@);
    }
    out
}

/// The authenticated-encryption envelope under one 256-bit key.
pub struct Crypto {
    key: Vec<u8>,
}

impl Crypto {
    pub closed spec fn key(&self) -> Seq<u8> {
        self.key@
    }

    pub closed spec fn wf(&self) -> bool {
        self.key@.len() == KEY_LEN
    }

    /// An envelope under `key`, which must be exactly 32 bytes.
    pub fn new(key: &[u8]) -> (r: Result<Crypto, DbError>)
        ensures
            key@.len() == KEY_LEN <==> r is Ok,
            r matches Ok(c) ==> c.wf() && c.key() == key@,
            key@.len() != KEY_LEN ==> r == Err::<Crypto, DbError>(DbError::Encryption(CryptoError::InvalidKeyLength)),
    {
        if key.len() != KEY_LEN {
            return Err(DbError::Encryption(CryptoError::InvalidKeyLength));
        }
        Ok(Crypto { key: copy_bytes(key) })
    }

    /// Seals `data` under a fresh random nonce: the result is the nonce followed
    /// by the sealed text, and opens to `data` again. It fails with `NoRandomness`
    /// when the system's random source fails, and with `SealFailed` when the
    /// cipher refuses the plaintext.
    pub fn encrypt(&self, data: &[u8]) -> (r: Result<Vec<u8>, DbError>)
        requires
            self.wf(),
        ensures
            r is Err ==> r == Err::<Vec<u8>, DbError>(DbError::Encryption(CryptoError::SealFailed))
                || r == Err::<Vec<u8>, DbError>(DbError::Encryption(CryptoError::NoRandomness)),
            r matches Ok(b) ==> b@.len() == NONCE_LEN + data@.len() + 16
                && b@.subrange(NONCE_LEN as int, b@.len() as int)
                    == aead_seal(self.key(), b@.subrange(0, NONCE_LEN as int), data@)
                && open_spec(self.key(), b@) == Ok::<Seq<u8>, DbError>(data@),
    {
        let nonce = match fresh_nonce() {
            Some(n) => n,
            None => {
                return Err(DbError::Encryption(CryptoError::NoRandomness));
            },
        };
        let sealed = aes_seal(self.key.as_slice(), nonce.as_slice(), data);
        match sealed {
            None => Err(DbError::Encryption(CryptoError::SealFailed)),
            Some(c) => {
                let mut out: Vec<u8> = Vec::new();
                let mut i: usize = 0;
                while i < nonce.len()
                    invariant
                        0 <= i <= nonce.len(),
                        out@ == nonce@.subrange(0, i as int),
                    decreases nonce.len() - i,
                {
                    out.push(nonce[i]);
                    i = i + 1;
                }
                let mut j: usize = 0;
                while j < c.len()
                    invariant
                        0 <= j <= c.len(),
                        nonce@.len() == NONCE_LEN,
                        out@ == nonce@ + c@.subrange(0, j as int),
                    decreases c.len() - j,
                {
                    out.push(c[j]);
                    j = j + 1;
                }
                proof {
                    assert(nonce@.subrange(0, NONCE_LEN as int) =~= nonce@);
                    assert(c@.subrange(0, c@.len() as int) =~= c@);
                    assert(out@.subrange(0, NONCE_LEN as int) =~= nonce@);
                    assert(out@.subrange(NONCE_LEN as int, out@.len() as int) =~= c@);
                }
                Ok(out)
            },
        }
    }

    /// Opens a blob that `encrypt` produced: fails with `InvalidCiphertext` when
    /// it is shorter than a nonce, and with `AuthenticationFailed` when its tag
    /// does not verify (tampered data or another key).
    pub fn decrypt(&self, data: &[u8]) -> (r: Result<Vec<u8>, DbError>)
        requires
            self.wf(),
        ensures
            match r {
                Ok(p) => open_spec(self.key(), data@) == Ok::<Seq<u8>, DbError>(p@),
                Err(e) => open_spec(self.key(), data@) == Err::<Seq<u8>, DbError>(e),
            },
    {
        if data.len() < NONCE_LEN {
            return Err(DbError::Encryption(CryptoError::InvalidCiphertext));
        }
        let (nonce, sealed) = data.split_at(NONCE_LEN);
        match aes_open(self.key.as_slice(), nonce, sealed) {
            Some(p) => Ok(p),
            None => Err(DbError::Encryption(CryptoError::AuthenticationFailed)),
        }
    }
}


/// The key an optional envelope seals under.
pub open spec fn key_of(c: Option<Crypto>) -> Option<Seq<u8>> {
    match c {
        Some(c) => Some(c.key()),
        None => None,
    }
}

pub open spec fn envelope_wf(c: Option<Crypto>) -> bool {
    match c {
        Some(c) => c.wf(),
        None => true,
    }
}

/// What opening `blob` gives: the blob itself when no key is configured.
pub open spec fn envelope_open(key: Option<Seq<u8>>, blob: Seq<u8>) -> Result<Seq<u8>, DbError> {
    match key {
        Some(k) => open_spec(k, blob),
        None => Ok(blob),
    }
}

/// Seals `data` under the envelope, or hands it back when there is none.
pub fn seal_with(crypto: &Option<Crypto>, data: &[u8]) -> (r: Result<Vec<u8>, DbError>)
    requires
        envelope_wf(*crypto),
    ensures
        r is Err ==> r == Err::<Vec<u8>, DbError>(DbError::Encryption(CryptoError::SealFailed))
            || r == Err::<Vec<u8>, DbError>(DbError::Encryption(CryptoError::NoRandomness)),
        r matches Ok(b) ==> envelope_open(key_of(*crypto), b@) == Ok::<Seq<u8>, DbError>(data@),
        crypto is None ==> (r matches Ok(b) && b@ == data@),
        crypto is Some ==> (r matches Ok(b) ==> b@.len() == data@.len() + SEAL_OVERHEAD),
{
    match crypto {
        Some(c) => c.encrypt(data),
        None => Ok(copy_bytes(data)),
    }
}

/// Opens a blob that `seal_with` produced under the same envelope.
pub fn open_with(crypto: &Option<Crypto>, data: &[u8]) -> (r: Result<Vec<u8>, DbError>)
    requires
        envelope_wf(*crypto),
    ensures
        match r {
            Ok(p) => envelope_open(key_of(*crypto), data@) == Ok::<Seq<u8>, DbError>(p@),
            Err(e) => envelope_open(key_of(*crypto), data@) == Err::<Seq<u8>, DbError>(e),
        },
{
    match crypto {
        Some(c) => c.decrypt(data),
        None => Ok(copy_bytes(data)),
    }
}

/// An envelope under `key` when one is given, none otherwise.
pub fn envelope_from(key: Option<&[u8]>) -> (r: Result<Option<Crypto>, DbError>)
    ensures
        r is Err <==> (key matches Some(k) && k@.len() != KEY_LEN),
        r is Err ==> r == Err::<Option<Crypto>, DbError>(DbError::Encryption(CryptoError::InvalidKeyLength)),
        r matches Ok(c) ==> envelope_wf(c) && key_of(c) == (match key {
            Some(k) => Some(k@),
            None => None::<Seq<u8>>,
        }),
{
    match key {
        Some(k) => {
            let c = Crypto::new(k)?;
            Ok(Some(c))
        },
        None => Ok(None),
    }
}

} // verus!

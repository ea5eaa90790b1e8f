use vstd::prelude::*;
use vstd::string::StringExecFns;
use openssl::nid::Nid;
use openssl::asn1::Asn1Time;
use openssl::hash::MessageDigest;
use openssl::pkey::PKey;
use openssl::rsa::Rsa;
use openssl::x509::{X509Builder, X509NameBuilder, X509};
use crate::crypto::{envelope_from, envelope_open, envelope_wf, key_of, open_with, seal_with, Crypto, SEAL_OVERHEAD};
use crate::error::{CertError, DbError};
use crate::text::{join_path, join_spec, stems, stems_with_suffix};

verus! {

/// The canonical PEM encoding of the certificate that `pem` holds, or nothing
/// when `pem` does not parse as one.
pub uninterp spec fn pem_canonical(pem: Seq<u8>) -> Option<Seq<u8>>;

/// The UTF-8 common name in the subject of the certificate that `pem` holds.
pub uninterp spec fn pem_common_name(pem: Seq<u8>) -> Option<Seq<char>>;

/// The longest input that openssl reads from memory (its length must fit a C `int`).
pub const MAX_PEM_LEN: usize = 0x7fff_ffff;

/// The word that marks a passphrase-protected PEM block.
pub open spec fn encrypted_marker() -> Seq<u8> {
    seq![0x45u8, 0x4e, 0x43, 0x52, 0x59, 0x50, 0x54, 0x45, 0x44]
}

pub open spec fn has_infix_bytes(hay: Seq<u8>, needle: Seq<u8>) -> bool {
    exists|i: int| 0 <= i && i + needle.len() <= hay.len() && #[trigger] hay.subrange(i, i + needle.len()) == needle
}

/// Bytes that openssl reads without asking for a passphrase: short enough for a
/// C `int`, and without the `ENCRYPTED` marker of a protected block.
pub open spec fn readable_pem(pem: Seq<u8>) -> bool {
    pem.len() <= MAX_PEM_LEN && !has_infix_bytes(pem, encrypted_marker())
}

/// Whether `needle` stands in `hay` at position `at`.
fn bytes_at(hay: &[u8], needle: &[u8], at: usize) -> (r: bool)
    requires
        at + needle@.len() <= hay@.len(),
    ensures
        r == (hay@.subrange(at as int, at + needle@.len()) == needle@),
{
    let hlen = hay.len();
    let mut j: usize = 0;
    while j < needle.len()
        invariant
            0 <= j <= needle@.len(),
            hlen == hay@.len(),
            at + needle@.len() <= hay@.len(),
            hay@.subrange(at as int, at + j) == needle@.subrange(0, j as int),
        decreases needle.len() - j,
    {
        if hay[at + j] != needle[j] {
            proof {
                assert(hay@.subrange(at as int, at + needle@.len())[j as int] == hay@[at + j]);
            }
            return false;
        }
        proof {
            assert(hay@.subrange(at as int, at + j + 1) =~= hay@.subrange(at as int, at + j).push(hay@[at + j]));
            assert(needle@.subrange(0, j + 1) =~= needle@.subrange(0, j as int).push(needle@[j as int]));
        }
        j = j + 1;
    }
    proof {
        assert(needle@.subrange(0, needle@.len() as int) =~= needle@);
    }
    true
}

/// Whether `needle` occurs in `hay`.
fn contains_bytes(hay: &[u8], needle: &[u8]) -> (r: bool)
    ensures
        r == has_infix_bytes(hay@, needle@),
{
    if needle.len() > hay.len() {
        return false;
    }
    let last = hay.len() - needle.len();
    let mut i: usize = 0;
    while i <= last
        invariant
            0 <= i <= last + 1,
            last + needle@.len() == hay@.len(),
            forall|k: int| 0 <= k < i ==> #[trigger] hay@.subrange(k, k + needle@.len()) != needle@,
        decreases last + 1 - i,
    {
        if bytes_at(hay, needle, i) {
            return true;
        }
        if i == last {
            return false;
        }
        i = i + 1;
    }
    false
}

/// Whether openssl can read `pem` without asking for a passphrase.
fn is_readable_pem(pem: &[u8]) -> (r: bool)
    ensures
        r == readable_pem(pem@),
{
    if pem.len() > MAX_PEM_LEN {
        return false;
    }
    let marker: [u8; 9] = [0x45u8, 0x4e, 0x43, 0x52, 0x59, 0x50, 0x54, 0x45, 0x44];
    proof {
        assert(marker@ =~= encrypted_marker());
    }
    !contains_bytes(pem, marker.as_slice())
}

/// Relies on openssl's `X509::from_pem`, its result encoded again by `to_pem`.
/// `from_pem` asserts that the input's length fits a C `int`, and would ask for
/// a passphrase on a protected block.
#[verifier::external_body]
fn canonical_pem(pem: &[u8]) -> (r: Option<Vec<u8>>)
    requires
        readable_pem(pem@),
    ensures
        match r {
            Some(c) => pem_canonical(pem@) == Some(c@),
            None => pem_canonical(pem@) is None,
        },
{
    X509::from_pem(pem).and_then(|c| c.to_pem()).ok()
}

/// Relies on openssl's `X509NameRef::entries_by_nid` for the common name of
/// the parsed certificate's subject, read with `Asn1StringRef::as_utf8`.
/// `from_pem` asserts that the input's length fits a C `int`, and would ask for
/// a passphrase on a protected block.
#[verifier::external_body]
#[allow(deprecated)]
fn subject_common_name(pem: &[u8]) -> (r: Option<String>)
    requires
        readable_pem(pem@),
    ensures
        match r {
            Some(n) => pem_common_name(pem@) == Some(n@),
            None => pem_common_name(pem@) is None,
        },
{
    let cert = X509::from_pem(pem).ok()?;
    let entry = cert.subject_name().entries_by_nid(Nid::COMMONNAME).next()?;
    entry.data().as_utf8().ok().map(|s| s.to_string())
}

/// The canonical encoding of the certificate `pem` holds; bytes that openssl
/// cannot read without a passphrase, or at all, hold none.
pub open spec fn canonical_of(pem: Seq<u8>) -> Option<Seq<u8>> {
    if !readable_pem(pem) {
        None
    } else {
        pem_canonical(pem)
    }
}

/// The subject's common name of the certificate `pem` holds; bytes that
/// openssl cannot read without a passphrase, or at all, hold none.
pub open spec fn common_name_of(pem: Seq<u8>) -> Option<Seq<char>> {
    if !readable_pem(pem) {
        None
    } else {
        pem_common_name(pem)
    }
}

fn canonical(pem: &[u8]) -> (r: Option<Vec<u8>>)
    ensures
        match r {
            Some(c) => canonical_of(pem@) == Some(c@),
            None => canonical_of(pem@) is None,
        },
{
    if !is_readable_pem(pem) {
        None
    } else {
        canonical_pem(pem)
    }
}

fn common_name(pem: &[u8]) -> (r: Option<String>)
    ensures
        match r {
            Some(n) => common_name_of(pem@) == Some(n@),
            None => common_name_of(pem@) is None,
        },
{
    if !is_readable_pem(pem) {
        None
    } else {
        subject_common_name(pem)
    }
}

/// Size in bits of the RSA key of an issued identity.
pub const KEY_BITS: u32 = 2048;

/// Days for which an issued certificate is valid.
pub const VALID_DAYS: u32 = 365;

/// The longest username an identity can be issued for, in characters (its
/// UTF-8 bytes must fit a C `int`).
pub const MAX_USERNAME_LEN: usize = 0x1fff_ffff;

/// Relies on openssl's `Rsa::generate`, the pair then wrapped by
/// `PKey::from_rsa` and encoded by `private_key_to_pem_pkcs8`.
#[verifier::external_body]
fn new_private_key_pem(bits: u32) -> (r: Option<Vec<u8>>) {
    let rsa = Rsa::generate(bits).ok()?;
    PKey::from_rsa(rsa).ok()?.private_key_to_pem_pkcs8().ok()
}

/// Relies on openssl's `X509Builder`: a version-3 certificate whose subject and
/// issuer are the common name `username`, valid from now for `valid_days`,
/// holding and signed (SHA-256) by the key in `key_pem`, encoded as PEM.
#[verifier::external_body]
fn self_signed_pem(username: &str, key_pem: &[u8], valid_days: u32) -> (r: Option<Vec<u8>>)
    requires
        readable_pem(key_pem@),
        username@.len() <= MAX_USERNAME_LEN,
        valid_days <= 24855,
{
    let key = PKey::private_key_from_pem(key_pem).ok()?;
    let mut name = X509NameBuilder::new().ok()?;
    name.append_entry_by_text("CN", username).ok()?;
    let name = name.build();
    let mut builder = X509Builder::new().ok()?;
    builder.set_version(2).and(builder.set_pubkey(&key)).ok()?;
    builder.set_subject_name(&name).and(builder.set_issuer_name(&name)).ok()?;
    let start = Asn1Time::days_from_now(0).ok()?;
    let end = Asn1Time::days_from_now(valid_days).ok()?;
    builder.set_not_before(&start).and(builder.set_not_after(&end)).ok()?;
    builder.sign(&key, MessageDigest::sha256()).ok()?;
    builder.build().to_pem().ok()
}

/// A freshly issued identity: its certificate and private key as PEM, and the
/// bytes to store for each.
pub struct IssuedIdentity {
    pub certificate: Vec<u8>,
    pub private_key: Vec<u8>,
    pub stored_certificate: Vec<u8>,
    pub stored_key: Vec<u8>,
}

pub open spec fn issue_failed() -> DbError {
    DbError::Certificate(CertError::IssueFailed)
}

pub open spec fn invalid_certificate() -> DbError {
    DbError::Certificate(CertError::InvalidCertificate)
}

/// The possession check: a presented certificate is accepted when its
/// canonical encoding equals that of the stored one. Nothing stored means
/// not accepted; bytes that are no certificate (or too long to read) are an error.
pub open spec fn verify_spec(key: Option<Seq<u8>>, presented: Seq<u8>, stored: Option<Seq<u8>>) -> Result<bool, DbError> {
    match canonical_of(presented) {
        None => Err(invalid_certificate()),
        Some(c) => match stored {
            None => Ok(false),
            Some(s) => match envelope_open(key, s) {
                Err(e) => Err(e),
                Ok(p) => match canonical_of(p) {
                    None => Err(invalid_certificate()),
                    Some(cs) => Ok(c == cs),
                },
            },
        },
    }
}

pub open spec fn view_opt(v: Option<Vec<u8>>) -> Option<Seq<u8>> {
    match v {
        Some(b) => Some(b@),
        None => None,
    }
}

pub open spec fn cert_ext() -> Seq<char> {
    seq!['.', 'c', 'e', 'r', 't']
}

pub open spec fn key_ext() -> Seq<char> {
    seq!['.', 'k', 'e', 'y']
}

pub open spec fn certs_dir() -> Seq<char> {
    seq!['c', 'e', 'r', 't', 's']
}

/// Whether two byte strings are equal.
pub fn bytes_equal(a: &[u8], b: &[u8]) -> (r: bool)
    ensures
        r == (a@ == b@),
{
    if a.len() != b.len() {
        return false;
    }
    let mut i: usize = 0;
    while i < a.len()
        invariant
            0 <= i <= a.len(),
            a.len() == b.len(),
            a@.subrange(0, i as int) == b@.subrange(0, i as int),
        decreases a.len() - i,
    {
        if a[i] != b[i] {
            proof {
                assert(a@[i as int] != b@[i as int]);
            }
            return false;
        }
        proof {
            assert(a@.subrange(0, i + 1) =~= a@.subrange(0, i as int).push(a@[i as int]));
            assert(b@.subrange(0, i + 1) =~= b@.subrange(0, i as int).push(b@[i as int]));
        }
        i = i + 1;
    }
    proof {
        assert(a@ =~= a@.subrange(0, i as int));
        assert(b@ =~= b@.subrange(0, i as int));
    }
    true
}

/// The identity store: `<base>/certs/<username>.cert` and `.key`, each sealed
/// under the envelope when a key is configured.
pub struct CertManager {
    certs_path: String,
    crypto: Option<Crypto>,
}

impl CertManager {
    pub closed spec fn dir(&self) -> Seq<char> {
        self.certs_path@
    }

    pub closed spec fn key(&self) -> Option<Seq<u8>> {
        key_of(self.crypto)
    }

    pub closed spec fn wf(&self) -> bool {
        envelope_wf(self.crypto)
    }

    /// The identity store under the directory `path`, sealing with
    /// `encryption_key` when one is given (it must be 32 bytes).
    pub fn new(path: &str, encryption_key: Option<&[u8]>) -> (r: Result<CertManager, DbError>)
        ensures
            r is Err <==> (encryption_key matches Some(k) && k@.len() != 32),
            r matches Ok(m) ==> m.wf() && m.dir() == join_spec(path@, certs_dir()) && m.key() == (match encryption_key {
                Some(k) => Some(k@),
                None => None::<Seq<u8>>,
            }),
    {
        let crypto = envelope_from(encryption_key)?;
        proof {
            reveal_strlit("certs");
            assert("certs"@ =~= certs_dir());
        }
        let certs_path = join_path(path, "certs");
        Ok(CertManager { certs_path, crypto })
    }

    pub fn certs_path(&self) -> (r: &str)
        ensures
            r@ == self.dir(),
    {
        self.certs_path.as_str()
    }

    /// The file that holds `username`'s certificate.
    pub fn cert_path(&self, username: &str) -> (r: String)
        ensures
            r@ == join_spec(self.dir(), username@ + cert_ext()),
    {
        let name = username.to_owned().concat(".cert");
        proof {
            reveal_strlit(".cert");
            assert(name@ =~= username@ + cert_ext());
        }
        join_path(self.certs_path.as_str(), name.as_str())
    }

    /// The file that holds `username`'s private key.
    pub fn key_path(&self, username: &str) -> (r: String)
        ensures
            r@ == join_spec(self.dir(), username@ + key_ext()),
    {
        let name = username.to_owned().concat(".key");
        proof {
            reveal_strlit(".key");
            assert(name@ =~= username@ + key_ext());
        }
        join_path(self.certs_path.as_str(), name.as_str())
    }

    /// The bytes to store for `data`: sealed under the envelope, if any.
    pub fn encrypt_data(&self, data: &[u8]) -> (r: Result<Vec<u8>, DbError>)
        requires
            self.wf(),
        ensures
            r matches Ok(b) ==> envelope_open(self.key(), b@) == Ok::<Seq<u8>, DbError>(data@),
            r matches Err(e) ==> e is Encryption,
            self.key() is None ==> (r matches Ok(b) && b@ == data@),
            self.key() is Some ==> (r matches Ok(b) ==> b@.len() == data@.len() + SEAL_OVERHEAD),
    {
        seal_with(&self.crypto, data)
    }

    /// The bytes that stored `data` holds.
    pub fn decrypt_data(&self, data: &[u8]) -> (r: Result<Vec<u8>, DbError>)
        requires
            self.wf(),
        ensures
            match r {
                Ok(p) => envelope_open(self.key(), data@) == Ok::<Seq<u8>, DbError>(p@),
                Err(e) => envelope_open(self.key(), data@) == Err::<Seq<u8>, DbError>(e),
            },
    {
        open_with(&self.crypto, data)
    }

    /// Issues a self-signed identity for `username`: a fresh RSA key and a
    /// certificate naming `username` as subject and issuer, both sealed for
    /// storage. An issued certificate is checked to read back with `username`
    /// as its common name, so it is accepted against what is stored for it.
    pub fn generate_cert(&self, username: &str) -> (r: Result<IssuedIdentity, DbError>)
        requires
            self.wf(),
        ensures
            r matches Err(e) ==> e == issue_failed() || e is Encryption,
            r matches Ok(id) ==> canonical_of(id.certificate@) is Some
                && common_name_of(id.certificate@) == Some(username@)
                && envelope_open(self.key(), id.stored_certificate@) == Ok::<Seq<u8>, DbError>(id.certificate@)
                && envelope_open(self.key(), id.stored_key@) == Ok::<Seq<u8>, DbError>(id.private_key@)
                && verify_spec(self.key(), id.certificate@, Some(id.stored_certificate@)) == Ok::<bool, DbError>(true)
                && verify_spec(self.key(), id.certificate@, None) == Ok::<bool, DbError>(false),
            r matches Ok(id) ==> (self.key() is None ==> id.stored_certificate@ == id.certificate@
                && id.stored_key@ == id.private_key@),
            r matches Ok(id) ==> (self.key() is Some ==> id.stored_certificate@.len() == id.certificate@.len() + SEAL_OVERHEAD
                && id.stored_key@.len() == id.private_key@.len() + SEAL_OVERHEAD),
    {
        if username.unicode_len() > MAX_USERNAME_LEN {
            return Err(DbError::Certificate(CertError::IssueFailed));
        }
        let private_key = match new_private_key_pem(KEY_BITS) {
            Some(k) => k,
            None => {
                return Err(DbError::Certificate(CertError::IssueFailed));
            },
        };
        if !is_readable_pem(private_key.as_slice()) {
            return Err(DbError::Certificate(CertError::IssueFailed));
        }
        let certificate = match self_signed_pem(username, private_key.as_slice(), VALID_DAYS) {
            Some(c) => c,
            None => {
                return Err(DbError::Certificate(CertError::IssueFailed));
            },
        };
        if canonical(certificate.as_slice()).is_none() {
            return Err(DbError::Certificate(CertError::IssueFailed));
        }
        let named = match common_name(certificate.as_slice()) {
            Some(n) => n == username.to_owned(),
            None => false,
        };
        if !named {
            return Err(DbError::Certificate(CertError::IssueFailed));
        }
        let stored_certificate = self.encrypt_data(certificate.as_slice())?;
        let stored_key = self.encrypt_data(private_key.as_slice())?;
        proof {
            lemma_issued_certificate_verifies(self.key(), certificate@, stored_certificate@);
        }
        Ok(IssuedIdentity { certificate, private_key, stored_certificate, stored_key })
    }

    /// Checks a presented certificate against what is stored for its user
    /// (`stored` is the stored file's content, nothing when there is none).
    pub fn verify_cert(&self, cert_data: &[u8], stored: Option<Vec<u8>>) -> (r: Result<bool, DbError>)
        requires
            self.wf(),
        ensures
            r == verify_spec(self.key(), cert_data@, view_opt(stored)),
    {
        let presented = match canonical(cert_data) {
            Some(c) => c,
            None => {
                return Err(DbError::Certificate(CertError::InvalidCertificate));
            },
        };
        let sealed = match stored {
            Some(s) => s,
            None => {
                return Ok(false);
            },
        };
        let plain = self.decrypt_data(sealed.as_slice())?;
        match canonical(plain.as_slice()) {
            Some(c) => Ok(bytes_equal(presented.as_slice(), c.as_slice())),
            None => Err(DbError::Certificate(CertError::InvalidCertificate)),
        }
    }

    /// The usernames with a stored certificate, given the names of the files
    /// in the store's directory.
    pub fn list_certs(&self, file_names: &Vec<String>) -> (r: Vec<String>)
        ensures
            r@.map_values(|s: String| s@) == stems(file_names@.map_values(|s: String| s@), cert_ext()),
    {
        proof {
            reveal_strlit(".cert");
            assert(".cert"@ =~= cert_ext());
        }
        stems_with_suffix(file_names, ".cert")
    }
}

/// The username a certificate claims: its subject's common name.
pub fn certificate_username(cert_data: &[u8]) -> (r: Result<String, DbError>)
    ensures
        canonical_of(cert_data@) is None ==> r == Err::<String, DbError>(invalid_certificate()),
        canonical_of(cert_data@) is Some ==> match common_name_of(cert_data@) {
            Some(n) => r matches Ok(u) && u@ == n,
            None => r == Err::<String, DbError>(DbError::Certificate(CertError::NoUsername)),
        },
{
    if canonical(cert_data).is_none() {
        return Err(DbError::Certificate(CertError::InvalidCertificate));
    }
    match common_name(cert_data) {
        Some(n) => Ok(n),
        None => Err(DbError::Certificate(CertError::NoUsername)),
    }
}

/// A certificate that parses is accepted against what its issuance stored,
/// whatever the envelope, and refused once nothing is stored for it.
pub proof fn lemma_issued_certificate_verifies(key: Option<Seq<u8>>, pem: Seq<u8>, stored: Seq<u8>)
    requires
        canonical_of(pem) is Some,
        envelope_open(key, stored) == Ok::<Seq<u8>, DbError>(pem),
    ensures
        verify_spec(key, pem, Some(stored)) == Ok::<bool, DbError>(true),
        verify_spec(key, pem, None) == Ok::<bool, DbError>(false),
{
}

} // verus!

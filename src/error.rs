use vstd::prelude::*;

verus! {

/// Failures of the encryption envelope.
#[derive(Debug, Clone, Copy, PartialEq, Eq, Structural)]
pub enum CryptoError {
    /// A key was given whose length is not 32 bytes.
    InvalidKeyLength,
    /// A blob too short to hold a nonce.
    InvalidCiphertext,
    /// The authentication tag did not verify.
    AuthenticationFailed,
    /// The cipher refused to seal the plaintext (over 2^36 bytes).
    SealFailed,
    /// The system's random source failed to give a nonce.
    NoRandomness,
}

/// Failures on certificate bytes.
#[derive(Debug, Clone, Copy, PartialEq, Eq, Structural)]
pub enum CertError {
    /// The bytes are not a PEM-encoded X.509 certificate.
    InvalidCertificate,
    /// The certificate's subject has no UTF-8 common name.
    NoUsername,
    /// A key pair or certificate could not be produced for the username.
    IssueFailed,
}

/// Failures of the filter evaluator.
#[derive(Debug, Clone)]
pub enum FilterError {
    /// The dotted path named in a condition is absent from the document.
    FieldNotFound(String),
    /// The two sides of a comparison have incompatible JSON types.
    TypeMismatch,
}

/// Every failure the store reports.
#[derive(Debug, Clone)]
pub enum DbError {
    /// An I/O failure of the content store.
    Storage(String),
    /// No document is stored under the given id.
    NotFound(String),
    Encryption(CryptoError),
    Git(String),
    /// A malformed JSON payload.
    Json(String),
    Certificate(CertError),
    Filter(FilterError),
}

} // verus!

use vstd::prelude::*;
use vstd::string::StringExecFns;
use crate::cert::{
    certificate_username, canonical_of, certs_dir, common_name_of, invalid_certificate, issue_failed,
    verify_spec, IssuedIdentity,
    view_opt, CertManager,
};
use crate::crypto::{envelope_from, envelope_open, envelope_wf, key_of, open_with, seal_with, Crypto, SEAL_OVERHEAD};
use crate::text::join_spec;
use crate::document::Document;
use crate::error::{CertError, DbError};
use crate::filter::{eval, Filter};
use crate::json::JsonValue;
use crate::storage::{document_ext, Storage};
use crate::text::stems;

verus! {

/// Relies on `SystemTime::elapsed` from the unix epoch: its whole seconds, or
/// nothing when the clock is set before the epoch.
#[verifier::external_body]
fn unix_now() -> (r: Option<u64>) {
    std::time::UNIX_EPOCH.elapsed().ok().map(|d| d.as_secs())
}

/// The kinds of change that each record a snapshot in the version log.
#[derive(Debug, Clone, Copy, PartialEq, Eq, Structural)]
pub enum Mutation {
    Create,
    Update,
    Delete,
}

pub open spec fn mutation_message(m: Mutation, id: Seq<char>) -> Seq<char> {
    match m {
        Mutation::Create => "Create document "@ + id,
        Mutation::Update => "Update document "@ + id,
        Mutation::Delete => "Delete document "@ + id,
    }
}

/// The message of the snapshot that records `m` on the document `id`.
pub fn commit_message(m: Mutation, id: &str) -> (r: String)
    ensures
        r@ == mutation_message(m, id@),
{
    let head = match m {
        Mutation::Create => "Create document ",
        Mutation::Update => "Update document ",
        Mutation::Delete => "Delete document ",
    };
    head.to_owned().concat(id)
}

/// The documents among `docs` that `filter` accepts, in order; the first
/// failure met while evaluating, left to right, is the result instead.
pub open spec fn select(docs: Seq<Document>, filter: Filter) -> Result<Seq<Document>, DbError>
    decreases docs.len(),
{
    if docs.len() == 0 {
        Ok(Seq::empty())
    } else {
        match select(docs.drop_last(), filter) {
            Err(e) => Err(e),
            Ok(kept) => match eval(filter, docs.last().data) {
                Err(e) => Err(e),
                Ok(b) => if b {
                    Ok(kept.push(docs.last()))
                } else {
                    Ok(kept)
                },
            },
        }
    }
}

pub open spec fn filter_of(f: Option<&Filter>) -> Option<Filter> {
    match f {
        Some(f) => Some(*f),
        None => None,
    }
}

pub open spec fn find_spec(docs: Seq<Document>, filter: Option<Filter>) -> Result<Seq<Document>, DbError> {
    match filter {
        None => Ok(docs),
        Some(f) => select(docs, f),
    }
}

proof fn lemma_select_failure_persists(docs: Seq<Document>, f: Filter, n: int, e: DbError)
    requires
        0 <= n <= docs.len(),
        select(docs.subrange(0, n), f) == Err::<Seq<Document>, DbError>(e),
    ensures
        select(docs, f) == Err::<Seq<Document>, DbError>(e),
    decreases docs.len() - n,
{
    if docs.len() == n {
        assert(docs.subrange(0, n) =~= docs);
    } else {
        let shorter = docs.drop_last();
        assert(shorter.subrange(0, n) =~= docs.subrange(0, n));
        lemma_select_failure_persists(shorter, f, n, e);
    }
}

/// Every document's data is a well-formed JSON value.
pub open spec fn docs_wf(docs: Seq<Document>) -> bool {
    forall|i: int| 0 <= i < docs.len() ==> (#[trigger] docs[i]).data.wf()
}

fn select_matching(docs: Vec<Document>, f: &Filter) -> (r: Result<Vec<Document>, DbError>)
    requires
        f.wf(),
        docs_wf(docs@),
    ensures
        match r {
            Ok(v) => select(docs@, *f) == Ok::<Seq<Document>, DbError>(v@),
            Err(e) => select(docs@, *f) == Err::<Seq<Document>, DbError>(e),
        },
{
    let ghost all = docs@;
    let mut rest = docs;
    let mut out: Vec<Document> = Vec::new();
    let ghost mut i: int = 0;
    proof {
        assert(all.subrange(0, all.len() as int) =~= all);
        assert(all.subrange(0, 0) =~= Seq::<Document>::empty());
    }
    while rest.len() > 0
        invariant
            0 <= i <= all.len(),
            all == docs@,
            f.wf(),
            docs_wf(all),
            rest@ == all.subrange(i, all.len() as int),
            select(all.subrange(0, i), *f) == Ok::<Seq<Document>, DbError>(out@),
        decreases rest.len(),
    {
        let d = rest.remove(0);
        proof {
            assert(d == all[i]);
            assert(rest@ =~= all.subrange(i + 1, all.len() as int));
            assert(all.subrange(0, i + 1).drop_last() =~= all.subrange(0, i));
            assert(all.subrange(0, i + 1).last() == d);
        }
        let m = f.matches(&d);
        match m {
            Err(e) => {
                proof {
                    assert(select(all.subrange(0, i + 1), *f) == Err::<Seq<Document>, DbError>(e));
                    lemma_select_failure_persists(all, *f, i + 1, e);
                }
                return Err(e);
            },
            Ok(b) => {
                if b {
                    out.push(d);
                }
            },
        }
        proof {
            i = i + 1;
        }
    }
    proof {
        assert(all.subrange(0, i) =~= all);
    }
    Ok(out)
}

/// A document stamped as created at `now`.
pub fn new_document(id: &str, data: JsonValue, now: u64) -> (r: Document)
    ensures
        r.id@ == id@,
        r.data == data,
        r.created_at == now,
        r.updated_at == now,
{
    Document { id: id.to_owned(), data, created_at: now, updated_at: now }
}

/// `doc` with its data replaced and its update time refreshed to `now`
/// (kept at its creation time if the clock reads earlier).
pub fn revise_document(doc: Document, data: JsonValue, now: u64) -> (r: Document)
    ensures
        r.id == doc.id,
        r.data == data,
        r.created_at == doc.created_at,
        r.updated_at == if now < doc.created_at { doc.created_at } else { now },
        r.updated_at >= r.created_at,
{
    let updated_at = if now < doc.created_at { doc.created_at } else { now };
    Document { id: doc.id, data, created_at: doc.created_at, updated_at }
}

/// The document service: the content store's layout, the envelope every blob
/// passes through, and the identity store.
pub struct GithubDb {
    storage: Storage,
    crypto: Option<Crypto>,
    cert_manager: CertManager,
}

impl GithubDb {
    pub closed spec fn key(&self) -> Option<Seq<u8>> {
        key_of(self.crypto)
    }

    pub closed spec fn wf(&self) -> bool {
        envelope_wf(self.crypto) && self.cert_manager.wf() && self.cert_manager.key() == key_of(
            self.crypto,
        )
    }

    pub closed spec fn storage_view(&self) -> Storage {
        self.storage
    }

    pub closed spec fn certs_view(&self) -> CertManager {
        self.cert_manager
    }

    /// The service rooted at `path`, sealing every blob under `encryption_key`
    /// when one is given; a key must be exactly 32 bytes.
    pub fn new(path: &str, encryption_key: Option<&[u8]>) -> (r: Result<GithubDb, DbError>)
        ensures
            r is Err <==> (encryption_key matches Some(k) && k@.len() != 32),
            r is Err ==> r matches Err(DbError::Encryption(crate::error::CryptoError::InvalidKeyLength)),
            r matches Ok(db) ==> db.wf() && db.storage_view().base() == path@
                && db.certs_view().dir() == join_spec(path@, certs_dir()) && db.key() == (
            match encryption_key {
                Some(k) => Some(k@),
                None => None::<Seq<u8>>,
            }),
    {
        let crypto = envelope_from(encryption_key)?;
        let cert_manager = CertManager::new(path, encryption_key)?;
        Ok(GithubDb { storage: Storage::new(path), crypto, cert_manager })
    }

    pub fn storage(&self) -> (r: &Storage)
        ensures
            *r == self.storage_view(),
    {
        &self.storage
    }

    pub fn cert_manager(&self) -> (r: &CertManager)
        ensures
            *r == self.certs_view(),
    {
        &self.cert_manager
    }

    /// Issues a self-signed identity for `username`, sealed for storage; the
    /// certificate reads back with `username` as its common name and is
    /// accepted against what is stored for it.
    pub fn generate_certificate(&self, username: &str) -> (r: Result<IssuedIdentity, DbError>)
        requires
            self.wf(),
        ensures
            r matches Err(e) ==> e == issue_failed() || e is Encryption,
            r matches Ok(id) ==> canonical_of(id.certificate@) is Some
                && common_name_of(id.certificate@) == Some(username@)
                && envelope_open(self.key(), id.stored_certificate@) == Ok::<Seq<u8>, DbError>(id.certificate@)
                && envelope_open(self.key(), id.stored_key@) == Ok::<Seq<u8>, DbError>(id.private_key@)
                && verify_spec(self.key(), id.certificate@, Some(id.stored_certificate@)) == Ok::<bool, DbError>(true)
                && verify_spec(self.key(), id.certificate@, None) == Ok::<bool, DbError>(false),
            r matches Ok(id) ==> (self.key() is None ==> id.stored_certificate@ == id.certificate@
                && id.stored_key@ == id.private_key@),
            r matches Ok(id) ==> (self.key() is Some ==> id.stored_certificate@.len() == id.certificate@.len() + SEAL_OVERHEAD
                && id.stored_key@.len() == id.private_key@.len() + SEAL_OVERHEAD),
    {
        self.cert_manager.generate_cert(username)
    }

    /// Checks a presented certificate: the username is its common name, and
    /// `stored` is what the identity store holds for that username.
    pub fn verify_certificate(&self, cert_data: &[u8], stored: Option<Vec<u8>>) -> (r: Result<bool, DbError>)
        requires
            self.wf(),
        ensures
            canonical_of(cert_data@) is None ==> r == Err::<bool, DbError>(invalid_certificate()),
            canonical_of(cert_data@) is Some && common_name_of(cert_data@) is None ==> r
                == Err::<bool, DbError>(DbError::Certificate(CertError::NoUsername)),
            common_name_of(cert_data@) is Some ==> r == verify_spec(self.key(), cert_data@, view_opt(stored)),
    {
        let _username = certificate_username(cert_data)?;
        self.cert_manager.verify_cert(cert_data, stored)
    }

    /// The usernames with a stored certificate, given the identity store's file names.
    pub fn list_certificates(&self, file_names: &Vec<String>) -> (r: Vec<String>)
        ensures
            r@.map_values(|s: String| s@) == stems(
                file_names@.map_values(|s: String| s@),
                crate::cert::cert_ext(),
            ),
    {
        self.cert_manager.list_certs(file_names)
    }

    /// A new document `id` holding `data`, both its times set to now.
    pub fn create(&self, id: &str, data: JsonValue) -> (r: Result<Document, DbError>)
        ensures
            r matches Ok(d) ==> d.id@ == id@ && d.data == data && d.created_at == d.updated_at,
            r matches Err(e) ==> e is Storage,
    {
        match unix_now() {
            Some(now) => Ok(new_document(id, data, now)),
            None => Err(DbError::Storage(String::from_str("system clock is before the unix epoch"))),
        }
    }

    /// `doc` holding `data`, its update time refreshed.
    pub fn update(&self, doc: Document, data: JsonValue) -> (r: Result<Document, DbError>)
        ensures
            r matches Ok(d) ==> d.id == doc.id && d.data == data && d.created_at == doc.created_at
                && d.updated_at >= d.created_at,
            r matches Err(e) ==> e is Storage,
    {
        match unix_now() {
            Some(now) => Ok(revise_document(doc, data, now)),
            None => Err(DbError::Storage(String::from_str("system clock is before the unix epoch"))),
        }
    }

    /// The blob to store for a serialized document.
    pub fn seal_document(&self, json: &[u8]) -> (r: Result<Vec<u8>, DbError>)
        requires
            self.wf(),
        ensures
            r matches Ok(b) ==> envelope_open(self.key(), b@) == Ok::<Seq<u8>, DbError>(json@),
            self.key() is None ==> (r matches Ok(b) && b@ == json@),
            self.key() is Some ==> (r matches Ok(b) ==> b@.len() == json@.len() + SEAL_OVERHEAD),
    {
        seal_with(&self.crypto, json)
    }

    /// The serialized document that a stored blob holds.
    pub fn open_document(&self, blob: &[u8]) -> (r: Result<Vec<u8>, DbError>)
        requires
            self.wf(),
        ensures
            match r {
                Ok(p) => envelope_open(self.key(), blob@) == Ok::<Seq<u8>, DbError>(p@),
                Err(e) => envelope_open(self.key(), blob@) == Err::<Seq<u8>, DbError>(e),
            },
    {
        open_with(&self.crypto, blob)
    }

    /// The ids of the stored documents, given the file names in the store's directory.
    pub fn list(&self, file_names: &Vec<String>) -> (r: Vec<String>)
        ensures
            r@.map_values(|s: String| s@) == stems(file_names@.map_values(|s: String| s@), document_ext()),
    {
        self.storage.list(file_names)
    }

    /// The documents among `docs` (all stored documents, in listing order) that
    /// `filter` accepts; all of them when there is no filter. A failure while
    /// evaluating any document fails the whole query.
    pub fn find(&self, docs: Vec<Document>, filter: Option<&Filter>) -> (r: Result<Vec<Document>, DbError>)
        requires
            docs_wf(docs@),
            filter matches Some(f) ==> f.wf(),
        ensures
            match r {
                Ok(v) => find_spec(docs@, filter_of(filter)) == Ok::<Seq<Document>, DbError>(v@),
                Err(e) => find_spec(docs@, filter_of(filter)) == Err::<Seq<Document>, DbError>(e),
            },
    {
        match filter {
            None => Ok(docs),
            Some(f) => select_matching(docs, f),
        }
    }
}

} // verus!

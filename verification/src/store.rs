//! The cache store: compressed key-value persistence on sled.
//!
//! Three trees of one embedded database hold the crawl's durable state:
//! page results keyed by the query's canonical bytes, entries keyed by
//! their big-endian code, and a metadata tree with the two singletons
//! (the API credential and the resumption checkpoint). Values are
//! gzip-compressed canonical encodings. Each tree is modelled as a map
//! from byte strings to byte strings; every operation's contract speaks
//! of those maps.

use vstd::prelude::*;
use vstd::utf8::{decode_utf8, encode_utf8, valid_utf8};
use crate::codec;
use crate::data::{OpendictData, OpendictResult};
use crate::gzip::{gz_of, gunzip_of, gzip_compress, gzip_decompress};
use crate::query::OpendictQuery;

verus! {

/// A persistence failure.
#[derive(Debug, Clone, Copy, PartialEq, Eq, Structural)]
pub enum StoreError {
    /// The backend could not read or write.
    Backend,
    /// A stored key or value does not decode under the store's own
    /// format: the database was not written by this store.
    Corrupt,
}

#[verifier::external_type_specification]
#[verifier::external_body]
pub struct ExSledDb(sled::Db);

#[verifier::external_type_specification]
#[verifier::external_body]
pub struct ExSledTree(sled::Tree);

#[verifier::external_type_specification]
#[verifier::external_body]
pub struct ExSledError(sled::Error);

/// What a sled tree holds: a map from key bytes to value bytes.
pub uninterp spec fn tree_map(t: sled::Tree) -> Map<Seq<u8>, Seq<u8>>;

/// Relies on `sled::open`: it opens (or creates) the database at the
/// given path. What the trees hold afterwards depends on the disk, so
/// nothing is promised of it.
#[verifier::external_body]
fn sled_open(path: &str) -> (r: Result<sled::Db, sled::Error>)
{
    sled::open(path)
}

/// Relies on `sled::Config::open` with `temporary`: it opens a fresh
/// database backed by temporary storage that is deleted on drop.
#[verifier::external_body]
fn sled_open_temporary() -> (r: Result<sled::Db, sled::Error>)
{
    sled::Config::new().temporary(true).open()
}

/// Relies on `sled::Db::open_tree`: it opens (or creates) the named
/// keyspace. What it holds depends on the disk, so nothing is promised.
#[verifier::external_body]
fn sled_open_tree(db: &sled::Db, name: &[u8]) -> (r: Result<sled::Tree, sled::Error>)
{
    db.open_tree(name)
}

/// Relies on `sled::Tree::get`: it returns the value stored under the
/// key, or `None` when the key is absent.
#[verifier::external_body]
fn sled_get(t: &sled::Tree, key: &[u8]) -> (r: Result<Option<Vec<u8>>, sled::Error>)
    ensures
        match r {
            Ok(Some(v)) => tree_map(*t).contains_key(key@) && tree_map(*t)[key@] == v@,
            Ok(None) => !tree_map(*t).contains_key(key@),
            Err(_) => true,
        },
{
    t.get(key).map(|o| o.map(|v| v.to_vec()))
}

/// Relies on `sled::Tree::insert`: on success the tree holds the value
/// under the key and everything else is unchanged.
#[verifier::external_body]
fn sled_insert(t: &mut sled::Tree, key: &[u8], value: &[u8]) -> (r: Result<(), sled::Error>)
    ensures
        r is Ok ==> tree_map(*final(t)) == tree_map(*old(t)).insert(key@, value@),
{
    (&*t).insert(key, value).map(|_| ())
}

/// Relies on `sled::Tree::flush`: it writes buffered state to disk and
/// changes no contents.
#[verifier::external_body]
fn sled_flush(t: &mut sled::Tree) -> (r: Result<(), sled::Error>)
    ensures
        tree_map(*final(t)) == tree_map(*old(t)),
{
    (&*t).flush().map(|_| ())
}

/// Strict lexicographic order on byte strings, the order in which sled
/// iterates keys.
pub open spec fn lex_lt(a: Seq<u8>, b: Seq<u8>) -> bool
    decreases a.len(),
{
    if b.len() == 0 {
        false
    } else if a.len() == 0 {
        true
    } else if a[0] < b[0] {
        true
    } else if a[0] > b[0] {
        false
    } else {
        lex_lt(a.skip(1), b.skip(1))
    }
}

/// The lexicographic order is strict: nothing is below itself.
proof fn lemma_lex_lt_irreflexive(a: Seq<u8>)
    ensures
        !lex_lt(a, a),
    decreases a.len(),
{
    if a.len() > 0 {
        lemma_lex_lt_irreflexive(a.skip(1));
    }
}

/// Relies on `sled::Tree::iter`: it yields every key of the tree, each
/// exactly once, in ascending lexicographic byte order.
#[verifier::external_body]
fn sled_keys(t: &sled::Tree) -> (r: Result<Vec<Vec<u8>>, sled::Error>)
    ensures
        match r {
            Ok(ks) => {
                &&& forall|i: int|
                    0 <= i < ks.deep_view().len() ==> tree_map(*t).contains_key(
                        #[trigger] ks.deep_view()[i],
                    )
                &&& forall|k: Seq<u8>|
                    tree_map(*t).contains_key(k) ==> exists|i: int|
                        0 <= i < ks.deep_view().len() && #[trigger] ks.deep_view()[i] == k
                &&& forall|i: int, j: int|
                    0 <= i < j < ks.deep_view().len() ==> lex_lt(
                        #[trigger] ks.deep_view()[i],
                        #[trigger] ks.deep_view()[j],
                    )
            },
            Err(_) => true,
        },
{
    let mut out = Vec::new();
    for pair in t.iter() {
        let (key, _) = pair?;
        out.push(key.to_vec());
    }
    Ok(out)
}

/// The metadata key of the credential singleton.
pub open spec fn credential_key() -> Seq<u8> {
    seq![0u8]
}

/// The metadata key of the checkpoint singleton.
pub open spec fn checkpoint_key() -> Seq<u8> {
    seq![1u8]
}

/// The returned queries cover the stored page keys, each exactly once:
/// each query's canonical bytes are a stored key, every stored key is
/// some returned query's canonical bytes, and no two returned queries
/// are the same.
pub open spec fn queries_cover(pages: Map<Seq<u8>, Seq<u8>>, qs: Seq<OpendictQuery>) -> bool {
    &&& forall|i: int|
        0 <= i < qs.len() ==> pages.contains_key(codec::spec_enc_query(#[trigger] qs[i]@))
    &&& forall|k: Seq<u8>|
        pages.contains_key(k) ==> exists|i: int|
            0 <= i < qs.len() && codec::spec_enc_query(#[trigger] qs[i]@) == k
    &&& forall|i: int, j: int| 0 <= i < j < qs.len() ==> #[trigger] qs[i]@ != #[trigger] qs[j]@
}

/// The returned codes cover the stored entry keys and come out in
/// ascending order.
pub open spec fn codes_cover(items: Map<Seq<u8>, Seq<u8>>, cs: Seq<u32>) -> bool {
    &&& forall|i: int|
        0 <= i < cs.len() ==> items.contains_key(codec::spec_enc_u32(#[trigger] cs[i]))
    &&& forall|k: Seq<u8>|
        items.contains_key(k) ==> exists|i: int|
            0 <= i < cs.len() && codec::spec_enc_u32(#[trigger] cs[i]) == k
    &&& forall|i: int, j: int| 0 <= i < j < cs.len() ==> cs[i] < cs[j]
}

/// The open cache store: one database, three keyspaces.
pub struct OpendictStore {
    meta: sled::Tree,
    pages: sled::Tree,
    items: sled::Tree,
    db: sled::Db,
}

impl OpendictStore {
    /// The metadata map: the two singletons.
    pub closed spec fn meta(self) -> Map<Seq<u8>, Seq<u8>> {
        tree_map(self.meta)
    }

    /// The page-result map: compressed page results by encoded query.
    pub closed spec fn pages(self) -> Map<Seq<u8>, Seq<u8>> {
        tree_map(self.pages)
    }

    /// The entry map: compressed entries by big-endian code.
    pub closed spec fn items(self) -> Map<Seq<u8>, Seq<u8>> {
        tree_map(self.items)
    }

    fn from_db(db: sled::Db) -> (r: Result<OpendictStore, StoreError>) {
        let meta = match sled_open_tree(&db, &[109u8, 101u8, 116u8, 97u8]) {
            Ok(t) => t,
            Err(_) => {
                return Err(StoreError::Backend);
            },
        };
        let pages = match sled_open_tree(&db, &[112u8, 97u8, 103u8, 101u8, 115u8]) {
            Ok(t) => t,
            Err(_) => {
                return Err(StoreError::Backend);
            },
        };
        let items = match sled_open_tree(&db, &[105u8, 116u8, 101u8, 109u8, 115u8]) {
            Ok(t) => t,
            Err(_) => {
                return Err(StoreError::Backend);
            },
        };
        Ok(OpendictStore { meta, pages, items, db })
    }

    /// Open (or create) the store at a filesystem path. What the maps
    /// hold afterwards is whatever the database held.
    pub fn open(path: &str) -> (r: Result<OpendictStore, StoreError>) {
        match sled_open(path) {
            Ok(db) => Self::from_db(db),
            Err(_) => Err(StoreError::Backend),
        }
    }

    /// Open a fresh store on temporary storage, deleted when dropped.
    pub fn open_temporary() -> (r: Result<OpendictStore, StoreError>) {
        match sled_open_temporary() {
            Ok(db) => Self::from_db(db),
            Err(_) => Err(StoreError::Backend),
        }
    }

    /// The configured API credential, or `None` when none was set.
    pub fn get_opendict_key(&self) -> (r: Result<Option<String>, StoreError>)
        ensures
            match r {
                Ok(Some(s)) => self.meta().contains_key(credential_key()) && valid_utf8(
                    self.meta()[credential_key()],
                ) && s@ == decode_utf8(self.meta()[credential_key()]),
                Ok(None) => !self.meta().contains_key(credential_key()),
                Err(StoreError::Corrupt) => self.meta().contains_key(credential_key())
                    && !valid_utf8(self.meta()[credential_key()]),
                Err(StoreError::Backend) => true,
            },
    {
        let mut key: Vec<u8> = Vec::new();
        key.push(0u8);
        proof {
            assert(key@ =~= credential_key());
        }
        match sled_get(&self.meta, key.as_slice()) {
            Ok(Some(v)) => match codec::bytes_to_string(v) {
                Some(s) => Ok(Some(s)),
                None => Err(StoreError::Corrupt),
            },
            Ok(None) => Ok(None),
            Err(_) => Err(StoreError::Backend),
        }
    }

    /// Store the API credential, overwriting any earlier one.
    pub fn set_opendict_key(&mut self, s: &str) -> (r: Result<(), StoreError>)
        ensures
            r is Ok ==> final(self).meta() == old(self).meta().insert(
                credential_key(),
                encode_utf8(s@),
            ) && final(self).pages() == old(self).pages() && final(self).items() == old(
                self,
            ).items(),
            r matches Err(e) ==> e == StoreError::Backend,
    {
        let mut key: Vec<u8> = Vec::new();
        key.push(0u8);
        proof {
            assert(key@ =~= credential_key());
        }
        match sled_insert(&mut self.meta, key.as_slice(), s.as_bytes()) {
            Ok(()) => {},
            Err(_) => {
                return Err(StoreError::Backend);
            },
        }
        match sled_flush(&mut self.meta) {
            Ok(()) => Ok(()),
            Err(_) => Err(StoreError::Backend),
        }
    }

    /// The checkpoint: the query most recently advanced past, or `None`
    /// when no crawl has succeeded yet.
    pub fn get_opendict_last_inserted(&self) -> (r: Result<Option<OpendictQuery>, StoreError>)
        ensures
            match r {
                Ok(Some(q)) => self.meta().contains_key(checkpoint_key())
                    && codec::spec_decode_query(self.meta()[checkpoint_key()]) == Some(q@),
                Ok(None) => !self.meta().contains_key(checkpoint_key()),
                Err(StoreError::Corrupt) => self.meta().contains_key(checkpoint_key())
                    && codec::spec_decode_query(self.meta()[checkpoint_key()]) is None,
                Err(StoreError::Backend) => true,
            },
    {
        let mut key: Vec<u8> = Vec::new();
        key.push(1u8);
        proof {
            assert(key@ =~= checkpoint_key());
        }
        match sled_get(&self.meta, key.as_slice()) {
            Ok(Some(v)) => match codec::decode_query(v.as_slice()) {
                Some(q) => Ok(Some(q)),
                None => Err(StoreError::Corrupt),
            },
            Ok(None) => Ok(None),
            Err(_) => Err(StoreError::Backend),
        }
    }

    /// Overwrite the checkpoint with this query.
    pub fn set_opendict_last_inserted(&mut self, query: &OpendictQuery) -> (r: Result<
        (),
        StoreError,
    >)
        ensures
            r is Ok ==> final(self).meta() == old(self).meta().insert(
                checkpoint_key(),
                codec::spec_enc_query(query@),
            ) && final(self).pages() == old(self).pages() && final(self).items() == old(
                self,
            ).items(),
            r matches Err(e) ==> e == StoreError::Backend,
    {
        let mut key: Vec<u8> = Vec::new();
        key.push(1u8);
        proof {
            assert(key@ =~= checkpoint_key());
        }
        let value = codec::encode_query(query);
        match sled_insert(&mut self.meta, key.as_slice(), value.as_slice()) {
            Ok(()) => {},
            Err(_) => {
                return Err(StoreError::Backend);
            },
        }
        match sled_flush(&mut self.meta) {
            Ok(()) => Ok(()),
            Err(_) => Err(StoreError::Backend),
        }
    }

    /// Persist the page result fetched for a query, compressed, under
    /// the query's canonical bytes; an earlier result for the same query
    /// is superseded. With `LOG_CHECKPOINT` the checkpoint moves to this
    /// query in the same call.
    pub fn insert_opendict_data<const LOG_CHECKPOINT: bool>(
        &mut self,
        query: &OpendictQuery,
        data: OpendictResult,
    ) -> (r: Result<(), StoreError>)
        ensures
            r is Ok ==> final(self).pages() == old(self).pages().insert(
                codec::spec_enc_query(query@),
                gz_of(codec::spec_enc_result(data@)),
            ) && final(self).items() == old(self).items() && (if LOG_CHECKPOINT {
                final(self).meta() == old(self).meta().insert(
                    checkpoint_key(),
                    codec::spec_enc_query(query@),
                )
            } else {
                final(self).meta() == old(self).meta()
            }),
            r is Ok ==> gunzip_of(gz_of(codec::spec_enc_result(data@))) == Some(
                codec::spec_enc_result(data@),
            ),
            r matches Err(e) ==> e == StoreError::Backend,
    {
        let key = codec::encode_query(query);
        let payload = codec::encode_result(&data);
        let value = gzip_compress(payload.as_slice());
        match sled_insert(&mut self.pages, key.as_slice(), value.as_slice()) {
            Ok(()) => {},
            Err(_) => {
                return Err(StoreError::Backend);
            },
        }
        if LOG_CHECKPOINT {
            match self.set_opendict_last_inserted(query) {
                Ok(()) => {},
                Err(e) => {
                    return Err(e);
                },
            }
        }
        match sled_flush(&mut self.pages) {
            Ok(()) => Ok(()),
            Err(_) => Err(StoreError::Backend),
        }
    }

    /// The page result stored for a query, or `None` when the query was
    /// never fetched.
    pub fn get_opendict_data(&self, query: &OpendictQuery) -> (r: Result<
        Option<OpendictResult>,
        StoreError,
    >)
        ensures
            match r {
                Ok(Some(data)) => self.pages().contains_key(codec::spec_enc_query(query@))
                    && (gunzip_of(self.pages()[codec::spec_enc_query(query@)]) matches Some(
                    payload,
                ) && codec::spec_decode_result(payload) == Some(data@)),
                Ok(None) => !self.pages().contains_key(codec::spec_enc_query(query@)),
                Err(StoreError::Corrupt) => self.pages().contains_key(
                    codec::spec_enc_query(query@),
                ) && (match gunzip_of(self.pages()[codec::spec_enc_query(query@)]) {
                    Some(payload) => codec::spec_decode_result(payload) is None,
                    None => true,
                }),
                Err(StoreError::Backend) => true,
            },
    {
        let key = codec::encode_query(query);
        let stored = match sled_get(&self.pages, key.as_slice()) {
            Ok(v) => v,
            Err(_) => {
                return Err(StoreError::Backend);
            },
        };
        let compressed = match stored {
            Some(v) => v,
            None => {
                return Ok(None);
            },
        };
        let payload = match gzip_decompress(compressed.as_slice()) {
            Some(p) => p,
            None => {
                return Err(StoreError::Corrupt);
            },
        };
        match codec::decode_result(payload.as_slice()) {
            Some(data) => Ok(Some(data)),
            None => Err(StoreError::Corrupt),
        }
    }

    /// Persist one entry, compressed, under its big-endian code; an
    /// entry reached again through another page is overwritten in place.
    pub fn insert_opendict_item(&mut self, data: &OpendictData) -> (r: Result<(), StoreError>)
        ensures
            r is Ok ==> final(self).items() == old(self).items().insert(
                codec::spec_enc_u32(data.code),
                gz_of(codec::spec_enc_data(data@)),
            ) && final(self).pages() == old(self).pages() && final(self).meta() == old(
                self,
            ).meta(),
            r is Ok ==> gunzip_of(gz_of(codec::spec_enc_data(data@))) == Some(
                codec::spec_enc_data(data@),
            ),
            r matches Err(e) ==> e == StoreError::Backend,
    {
        let mut key: Vec<u8> = Vec::new();
        codec::enc_u32(&mut key, data.code);
        proof {
            assert(key@ =~= codec::spec_enc_u32(data.code));
        }
        let payload = codec::encode_data(data);
        let value = gzip_compress(payload.as_slice());
        match sled_insert(&mut self.items, key.as_slice(), value.as_slice()) {
            Ok(()) => {},
            Err(_) => {
                return Err(StoreError::Backend);
            },
        }
        match sled_flush(&mut self.items) {
            Ok(()) => Ok(()),
            Err(_) => Err(StoreError::Backend),
        }
    }

    /// The entry stored under a code, or `None` when the code is absent.
    pub fn get_opendict_item(&self, code: u32) -> (r: Result<Option<OpendictData>, StoreError>)
        ensures
            match r {
                Ok(Some(data)) => self.items().contains_key(codec::spec_enc_u32(code))
                    && (gunzip_of(self.items()[codec::spec_enc_u32(code)]) matches Some(payload)
                    && codec::spec_decode_data(payload) == Some(data@)) && data.code == code,
                Ok(None) => !self.items().contains_key(codec::spec_enc_u32(code)),
                Err(StoreError::Corrupt) => self.items().contains_key(codec::spec_enc_u32(code))
                    && (match gunzip_of(self.items()[codec::spec_enc_u32(code)]) {
                    Some(payload) => match codec::spec_decode_data(payload) {
                        Some(d) => d.code != code,
                        None => true,
                    },
                    None => true,
                }),
                Err(StoreError::Backend) => true,
            },
    {
        let mut key: Vec<u8> = Vec::new();
        codec::enc_u32(&mut key, code);
        proof {
            assert(key@ =~= codec::spec_enc_u32(code));
        }
        let stored = match sled_get(&self.items, key.as_slice()) {
            Ok(v) => v,
            Err(_) => {
                return Err(StoreError::Backend);
            },
        };
        let compressed = match stored {
            Some(v) => v,
            None => {
                return Ok(None);
            },
        };
        let payload = match gzip_decompress(compressed.as_slice()) {
            Some(p) => p,
            None => {
                return Err(StoreError::Corrupt);
            },
        };
        match codec::decode_data(payload.as_slice()) {
            Some(data) => {
                if data.code != code {
                    return Err(StoreError::Corrupt);
                }
                Ok(Some(data))
            },
            None => Err(StoreError::Corrupt),
        }
    }

    /// Every query a page result is stored for. Each returned query's
    /// canonical bytes are a stored key, and every stored key is some
    /// returned query's canonical bytes.
    #[verifier::rlimit(100)]
    #[verifier::spinoff_prover]
    pub fn get_opendict_saved_queries(&self) -> (r: Result<Vec<OpendictQuery>, StoreError>)
        ensures
            match r {
                Ok(qs) => queries_cover(self.pages(), qs@),
                Err(StoreError::Corrupt) => exists|k: Seq<u8>|
                    self.pages().contains_key(k) && codec::spec_decode_query(k) is None,
                Err(StoreError::Backend) => true,
            },
    {
        let keys = match sled_keys(&self.pages) {
            Ok(ks) => ks,
            Err(_) => {
                return Err(StoreError::Backend);
            },
        };
        match decode_query_keys(&keys) {
            Ok(queries) => {
                proof {
                    lemma_queries_cover_keys(self.pages(), keys.deep_view(), queries@);
                }
                Ok(queries)
            },
            Err(i) => {
                proof {
                    let k = keys.deep_view()[i as int];
                    assert(self.pages().contains_key(k) && codec::spec_decode_query(k) is None);
                }
                Err(StoreError::Corrupt)
            },
        }
    }

    /// Every code an entry is stored under, in ascending order.
    #[verifier::rlimit(100)]
    #[verifier::spinoff_prover]
    pub fn get_opendict_item_codes(&self) -> (r: Result<Vec<u32>, StoreError>)
        ensures
            match r {
                Ok(cs) => codes_cover(self.items(), cs@),
                Err(StoreError::Corrupt) => exists|k: Seq<u8>|
                    self.items().contains_key(k) && k.len() != 4,
                Err(StoreError::Backend) => true,
            },
    {
        let keys = match sled_keys(&self.items) {
            Ok(ks) => ks,
            Err(_) => {
                return Err(StoreError::Backend);
            },
        };
        match decode_code_keys(&keys) {
            Ok(codes) => {
                proof {
                    lemma_codes_cover_keys(self.items(), keys.deep_view(), codes@);
                }
                Ok(codes)
            },
            Err(i) => {
                proof {
                    let k = keys.deep_view()[i as int];
                    assert(self.items().contains_key(k) && k.len() != 4);
                }
                Err(StoreError::Corrupt)
            },
        }
    }
}

/// Keys that decode to queries are exactly those queries' canonical
/// bytes, so the decoded queries cover the stored keys.
proof fn lemma_queries_cover_keys(
    pages: Map<Seq<u8>, Seq<u8>>,
    keys: Seq<Seq<u8>>,
    qs: Seq<OpendictQuery>,
)
    requires
        qs.len() == keys.len(),
        forall|j: int|
            0 <= j < keys.len() ==> codec::spec_decode_query(#[trigger] keys[j]) == Some(qs[j]@),
        forall|j: int| 0 <= j < keys.len() ==> pages.contains_key(#[trigger] keys[j]),
        forall|k: Seq<u8>|
            pages.contains_key(k) ==> exists|j: int| 0 <= j < keys.len() && #[trigger] keys[j]
                == k,
        forall|a: int, b: int|
            0 <= a < b < keys.len() ==> lex_lt(#[trigger] keys[a], #[trigger] keys[b]),
    ensures
        queries_cover(pages, qs),
{
    assert forall|i: int, j: int| 0 <= i < j < qs.len() implies #[trigger] qs[i]@
        != #[trigger] qs[j]@ by {
        assert(codec::spec_decode_query(keys[i]) == Some(qs[i]@));
        assert(codec::spec_decode_query(keys[j]) == Some(qs[j]@));
        codec::lemma_enc_dec_query(keys[i]);
        codec::lemma_enc_dec_query(keys[j]);
        if qs[i]@ == qs[j]@ {
            assert(keys[i] == keys[j]);
            assert(lex_lt(keys[i], keys[j]));
            lemma_lex_lt_irreflexive(keys[i]);
        }
    }
    assert forall|i: int| 0 <= i < qs.len() implies pages.contains_key(
        codec::spec_enc_query(#[trigger] qs[i]@),
    ) by {
        codec::lemma_enc_dec_query(keys[i]);
    }
    assert forall|k: Seq<u8>| pages.contains_key(k) implies exists|i: int|
        0 <= i < qs.len() && codec::spec_enc_query(#[trigger] qs[i]@) == k by {
        let j = choose|j: int| 0 <= j < keys.len() && keys[j] == k;
        codec::lemma_enc_dec_query(keys[j]);
        assert(codec::spec_enc_query(qs[j]@) == k);
    }
}

/// Keys that are big-endian codes are exactly those codes' encodings,
/// and the codes inherit the keys' order.
proof fn lemma_codes_cover_keys(items: Map<Seq<u8>, Seq<u8>>, keys: Seq<Seq<u8>>, cs: Seq<u32>)
    requires
        cs.len() == keys.len(),
        forall|j: int| 0 <= j < keys.len() ==> codec::spec_enc_u32(#[trigger] cs[j]) == keys[j],
        forall|j: int| 0 <= j < keys.len() ==> items.contains_key(#[trigger] keys[j]),
        forall|k: Seq<u8>|
            items.contains_key(k) ==> exists|j: int| 0 <= j < keys.len() && #[trigger] keys[j]
                == k,
        forall|a: int, b: int|
            0 <= a < b < keys.len() ==> lex_lt(#[trigger] keys[a], #[trigger] keys[b]),
    ensures
        codes_cover(items, cs),
{
    assert forall|k: Seq<u8>| items.contains_key(k) implies exists|i: int|
        0 <= i < cs.len() && codec::spec_enc_u32(#[trigger] cs[i]) == k by {
        let j = choose|j: int| 0 <= j < keys.len() && keys[j] == k;
        assert(codec::spec_enc_u32(cs[j]) == k);
    }
    assert forall|a: int, b: int| 0 <= a < b < cs.len() implies cs[a] < cs[b] by {
        assert(lex_lt(keys[a], keys[b]));
        codec::lemma_enc_u32_lex_order(cs[a], cs[b]);
    }
}

/// Materialize that a string's byte encoding fits the frame's length
/// prefix: a string held in memory is never longer than the address
/// space.
fn note_str_len(s: &str)
    ensures
        encode_utf8(s@).len() <= u64::MAX,
{
    let bytes = s.as_bytes();
    proof {
        vstd::slice::axiom_spec_len(bytes);
    }
}

/// Materialize that every string of an entry fits the frame's length
/// prefix.
fn note_data_lens(d: &OpendictData)
    ensures
        codec::spec_data_lens_ok(d@),
{
    match &d.syntactic_annotation {
        Some(s) => note_str_len(s.as_str()),
        None => {},
    }
    match &d.syntactic_argument {
        Some(s) => note_str_len(s.as_str()),
        None => {},
    }
    note_str_len(d.word.as_str());
    note_str_len(d.definition.as_str());
    note_str_len(d.kind.as_str());
    note_str_len(d.pos.as_str());
    match &d.origin {
        Some(s) => note_str_len(s.as_str()),
        None => {},
    }
}

/// The cache is faithful to page results: persisting the result fetched
/// for a query and reading the same query back gives exactly that
/// result — compression, framing and keying lose nothing. Only a
/// backend failure can interfere, and then it is reported as one.
pub fn persist_and_reload_page(
    store: &mut OpendictStore,
    query: &OpendictQuery,
    data: OpendictResult,
) -> (r: Result<OpendictResult, StoreError>)
    ensures
        r matches Ok(d) ==> d@ == data@,
        r matches Err(e) ==> e == StoreError::Backend,
{
    proof {
        vstd::std_specs::vec::axiom_spec_len(&data.data_index);
    }
    let ghost dv = data@;
    match store.insert_opendict_data::<false>(query, data) {
        Ok(()) => {},
        Err(e) => {
            return Err(e);
        },
    }
    proof {
        codec::lemma_decode_encode_result(dv);
    }
    match store.get_opendict_data(query) {
        Ok(Some(d)) => Ok(d),
        Ok(None) => {
            proof {
                assert(false);
            }
            Err(StoreError::Backend)
        },
        Err(StoreError::Backend) => Err(StoreError::Backend),
        Err(StoreError::Corrupt) => {
            proof {
                assert(false);
            }
            Err(StoreError::Backend)
        },
    }
}

/// The cache is faithful to entries: persisting an entry and reading
/// its code back gives exactly that entry. Only a backend failure can
/// interfere.
pub fn persist_and_reload_item(store: &mut OpendictStore, data: &OpendictData) -> (r: Result<
    OpendictData,
    StoreError,
>)
    ensures
        r matches Ok(d) ==> d@ == data@,
        r matches Err(e) ==> e == StoreError::Backend,
{
    note_data_lens(data);
    match store.insert_opendict_item(data) {
        Ok(()) => {},
        Err(e) => {
            return Err(e);
        },
    }
    proof {
        codec::lemma_decode_encode_data(data@);
    }
    match store.get_opendict_item(data.code) {
        Ok(Some(d)) => Ok(d),
        Ok(None) => {
            proof {
                assert(false);
            }
            Err(StoreError::Backend)
        },
        Err(StoreError::Backend) => Err(StoreError::Backend),
        Err(StoreError::Corrupt) => {
            proof {
                assert(false);
            }
            Err(StoreError::Backend)
        },
    }
}

/// The checkpoint survives the store: writing a query as the checkpoint
/// and reading it back gives exactly that query, so a crawl resumes
/// where it stopped. Only a backend failure can interfere.
pub fn checkpoint_round_trip(store: &mut OpendictStore, query: &OpendictQuery) -> (r: Result<
    OpendictQuery,
    StoreError,
>)
    ensures
        r matches Ok(q) ==> q@ == query@,
        r matches Err(e) ==> e == StoreError::Backend,
{
    proof {
        vstd::std_specs::vec::axiom_spec_len(&query.pos);
        vstd::std_specs::vec::axiom_spec_len(&query.region);
        vstd::std_specs::vec::axiom_spec_len(&query.category);
    }
    match store.set_opendict_last_inserted(query) {
        Ok(()) => {},
        Err(e) => {
            return Err(e);
        },
    }
    proof {
        codec::lemma_decode_encode_query(query@);
    }
    match store.get_opendict_last_inserted() {
        Ok(Some(q)) => Ok(q),
        Ok(None) => {
            proof {
                assert(false);
            }
            Err(StoreError::Backend)
        },
        Err(StoreError::Backend) => Err(StoreError::Backend),
        Err(StoreError::Corrupt) => {
            proof {
                assert(false);
            }
            Err(StoreError::Backend)
        },
    }
}

/// The credential survives the store: writing the key and reading it
/// back gives exactly the key. Only a backend failure can interfere.
pub fn credential_round_trip(store: &mut OpendictStore, key: &str) -> (r: Result<
    String,
    StoreError,
>)
    ensures
        r matches Ok(k) ==> k@ == key@,
        r matches Err(e) ==> e == StoreError::Backend,
{
    match store.set_opendict_key(key) {
        Ok(()) => {},
        Err(e) => {
            return Err(e);
        },
    }
    proof {
        vstd::utf8::encode_utf8_valid_utf8(key@);
        vstd::utf8::encode_utf8_decode_utf8(key@);
    }
    match store.get_opendict_key() {
        Ok(Some(k)) => Ok(k),
        Ok(None) => {
            proof {
                assert(false);
            }
            Err(StoreError::Backend)
        },
        Err(StoreError::Backend) => Err(StoreError::Backend),
        Err(StoreError::Corrupt) => {
            proof {
                assert(false);
            }
            Err(StoreError::Backend)
        },
    }
}

/// Decode every key as a query; on the first key that does not decode,
/// report its position.
fn decode_query_keys(keys: &Vec<Vec<u8>>) -> (r: Result<Vec<OpendictQuery>, usize>)
    ensures
        match r {
            Ok(qs) => qs@.len() == keys.deep_view().len() && forall|j: int|
                0 <= j < qs@.len() ==> codec::spec_decode_query(keys.deep_view()[j]) == Some(
                    #[trigger] qs@[j]@,
                ),
            Err(i) => i < keys.deep_view().len() && codec::spec_decode_query(
                keys.deep_view()[i as int],
            ) is None,
        },
{
    let mut queries: Vec<OpendictQuery> = Vec::new();
    let mut i: usize = 0;
    while i < keys.len()
        invariant
            i <= keys.deep_view().len(),
            keys.deep_view().len() == keys@.len(),
            queries@.len() == i,
            forall|j: int|
                0 <= j < i ==> codec::spec_decode_query(keys.deep_view()[j]) == Some(
                    #[trigger] queries@[j]@,
                ),
        decreases keys@.len() - i,
    {
        let key = &keys[i];
        proof {
            assert(keys.deep_view()[i as int] =~= key@);
        }
        match codec::decode_query(key.as_slice()) {
            Some(q) => {
                queries.push(q);
            },
            None => {
                return Err(i);
            },
        }
        i += 1;
    }
    Ok(queries)
}

/// Decode every key as a big-endian code; on the first key that is not
/// four bytes, report its position.
fn decode_code_keys(keys: &Vec<Vec<u8>>) -> (r: Result<Vec<u32>, usize>)
    ensures
        match r {
            Ok(cs) => cs@.len() == keys.deep_view().len() && forall|j: int|
                0 <= j < cs@.len() ==> codec::spec_enc_u32(#[trigger] cs@[j])
                    == keys.deep_view()[j],
            Err(i) => i < keys.deep_view().len() && keys.deep_view()[i as int].len() != 4,
        },
{
    let mut codes: Vec<u32> = Vec::new();
    let mut i: usize = 0;
    while i < keys.len()
        invariant
            i <= keys.deep_view().len(),
            keys.deep_view().len() == keys@.len(),
            codes@.len() == i,
            forall|j: int|
                0 <= j < i ==> codec::spec_enc_u32(#[trigger] codes@[j]) == keys.deep_view()[j],
        decreases keys@.len() - i,
    {
        let key = &keys[i];
        proof {
            assert(keys.deep_view()[i as int] =~= key@);
        }
        if key.len() != 4 {
            return Err(i);
        }
        let (code, end) = match codec::dec_u32(key.as_slice(), 0) {
            Some(x) => x,
            None => {
                proof {
                    assert(key@.skip(0) =~= key@);
                    assert(false);
                }
                return Err(i);
            },
        };
        proof {
            assert(key@.skip(0) =~= key@);
            codec::lemma_enc_dec_u32(key@);
            assert(key@.skip(end as int).len() == 0);
            assert(codec::spec_enc_u32(code) + key@.skip(end as int) =~= codec::spec_enc_u32(
                code,
            ));
        }
        codes.push(code);
        i += 1;
    }
    Ok(codes)
}

} // verus!

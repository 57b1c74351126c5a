use vstd::prelude::*;

use crate::error::ZkError;
use crate::hash::sha256_of;
use crate::keyed::{count_key, lemma_count_unique, lemma_lookup_exists, lookup, unique_keys};

verus! {

/// A content record as a value: the digest and, unless withheld, the blob.
pub type RecordView = (Seq<u8>, Option<Seq<u8>>);

/// Whether no two records of `s` share a digest.
pub open spec fn unique_digests(s: Seq<RecordView>) -> bool {
    unique_keys(s)
}

/// The store after a write of `b`, whose digest is `d`: unchanged where a
/// record for `d` exists, else with the record `(d, b)` added.
pub open spec fn put_spec(s: Seq<RecordView>, d: Seq<u8>, b: Seq<u8>) -> Seq<RecordView> {
    if lookup(s, d) is Some {
        s
    } else {
        s.push((d, Some(b)))
    }
}

/// What a read of the content keyed by `d` gives.
pub open spec fn get_spec(s: Seq<RecordView>, d: Seq<u8>) -> Result<Seq<u8>, ZkError> {
    match lookup(s, d) {
        Some(Some(b)) => Ok(b),
        Some(None) => Err(ZkError::Truncated),
        None => Err(ZkError::NotFound),
    }
}

/// A content record: a digest and the blob it was computed from, unless the
/// blob was withheld.
pub struct ContentRecord {
    pub digest: crate::hash::Hash,
    pub blob: Option<Vec<u8>>,
}

impl View for ContentRecord {
    type V = RecordView;

    open spec fn view(&self) -> RecordView {
        (
            self.digest@,
            match self.blob {
                Some(b) => Some(b@),
                None => None,
            },
        )
    }
}

pub open spec fn record_views(v: Seq<ContentRecord>) -> Seq<RecordView> {
    v.map_values(|r: ContentRecord| r@)
}

/// Content-addressed storage of blobs: at most one record per digest, and the
/// first blob written under a digest is the one kept.
pub struct ContentStore {
    records: Vec<ContentRecord>,
}

impl View for ContentStore {
    type V = Seq<RecordView>;

    closed spec fn view(&self) -> Seq<RecordView> {
        record_views(self.records@)
    }
}

impl ContentStore {
    #[verifier::type_invariant]
    spec fn digests_unique(&self) -> bool {
        unique_digests(self@)
    }

    /// An empty store.
    pub fn new() -> (r: ContentStore)
        ensures
            r@ == Seq::<RecordView>::empty(),
    {
        let r = ContentStore { records: Vec::new() };
        assert(r@ =~= Seq::<RecordView>::empty());
        r
    }

    /// The index of the record for `digest`, if any.
    fn find(&self, digest: &crate::hash::Hash) -> (r: Option<usize>)
        ensures
            match r {
                Some(i) => i < self@.len() && self@[i as int].0 == digest@ && lookup(self@, digest@)
                    == Some(self@[i as int].1),
                None => lookup(self@, digest@) is None,
            },
    {
        let n = self.records.len();
        let mut k: usize = n;
        assert(self@.take(n as int) =~= self@);
        while k > 0
            invariant
                k <= n == self@.len(),
                lookup(self@, digest@) == lookup(self@.take(k as int), digest@),
            decreases k,
        {
            let ghost t = self@.take(k as int);
            assert(t.drop_last() =~= self@.take(k - 1));
            assert(t.last() == self@[k - 1]);
            if self.records[k - 1].digest.same_as(digest) {
                return Some(k - 1);
            }
            k = k - 1;
        }
        None
    }

    /// Stores `bytes` under its digest, unless a record for that digest
    /// exists already, and returns the digest.
    pub fn put(&mut self, bytes: &[u8]) -> (r: crate::hash::Hash)
        ensures
            r@ == sha256_of(bytes@),
            final(self)@ == put_spec(old(self)@, r@, bytes@),
    {
        let digest = crate::hash::Hash::compute(bytes);
        self.insert_record(digest.clone(), Some(vstd::slice::slice_to_vec(bytes)));
        digest
    }

    /// Adds the record `(digest, blob)` where no record for `digest` exists;
    /// returns whether it was added.
    pub fn insert_record(&mut self, digest: crate::hash::Hash, blob: Option<Vec<u8>>) -> (r: bool)
        ensures
            r == (lookup(old(self)@, digest@) is None),
            final(self)@ == if r {
                old(self)@.push((
                    digest@,
                    match blob {
                        Some(b) => Some(b@),
                        None => None,
                    },
                ))
            } else {
                old(self)@
            },
    {
        proof {
            use_type_invariant(&*self);
        }
        match self.find(&digest) {
            Some(_) => false,
            None => {
                proof {
                    lemma_lookup_exists(self@, digest@);
                }
                let mut records: Vec<ContentRecord> = Vec::new();
                std::mem::swap(&mut records, &mut self.records);
                records.push(ContentRecord { digest, blob });
                assert(record_views(records@) =~= old(self)@.push(records@.last()@));
                self.records = records;
                true
            },
        }
    }

    /// The blob stored under `digest`: `NotFound` where there is no record
    /// for it, `Truncated` where its blob was withheld.
    pub fn get(&self, digest: &crate::hash::Hash) -> (r: Result<Vec<u8>, ZkError>)
        ensures
            match (r, get_spec(self@, digest@)) {
                (Ok(b), Ok(c)) => b@ == c,
                (Err(e), Err(f)) => e == f,
                _ => false,
            },
    {
        match self.find(digest) {
            Some(i) => match &self.records[i].blob {
                Some(b) => Ok(b.clone()),
                None => Err(ZkError::Truncated),
            },
            None => Err(ZkError::NotFound),
        }
    }

    /// Withholds the blob stored under `digest`, keeping its record;
    /// `NotFound` where there is no record for it.
    pub fn truncate(&mut self, digest: &crate::hash::Hash) -> (r: Result<(), ZkError>)
        ensures
            match r {
                Ok(()) => lookup(old(self)@, digest@) is Some && exists|i: int|
                    0 <= i < old(self)@.len() && old(self)@[i].0 == digest@ && final(self)@
                        == old(self)@.update(i, (digest@, None)),
                Err(e) => lookup(old(self)@, digest@) is None && e == ZkError::NotFound
                    && final(self)@ == old(self)@,
            },
    {
        proof {
            use_type_invariant(&*self);
        }
        match self.find(digest) {
            Some(i) => {
                let mut records: Vec<ContentRecord> = Vec::new();
                std::mem::swap(&mut records, &mut self.records);
                let old_record = records.remove(i);
                records.insert(i, ContentRecord { digest: old_record.digest, blob: None });
                assert(record_views(records@) =~= old(self)@.update(i as int, (digest@, None)));
                assert forall|a: int, b: int| 0 <= a < b < records@.len() implies record_views(
                    records@,
                )[a].0 != record_views(records@)[b].0 by {
                    assert(record_views(records@)[a].0 == old(self)@[a].0);
                    assert(record_views(records@)[b].0 == old(self)@[b].0);
                }
                self.records = records;
                Ok(())
            },
            None => Err(ZkError::NotFound),
        }
    }

    /// Number of records.
    pub fn len(&self) -> (r: usize)
        ensures
            r == self@.len(),
    {
        self.records.len()
    }

    /// All records, in the order they were added.
    pub fn records(&self) -> (r: &Vec<ContentRecord>)
        ensures
            record_views(r@) == self@,
    {
        &self.records
    }
}

} // verus!

verus! {

/// Writing the same bytes twice stores one record: after `put(b)` twice, the
/// second write changes nothing, exactly one record holds the digest of `b`,
/// and a read gives `b` back after either write (where the store held no
/// other blob under that digest before).
pub proof fn lemma_put_twice(s: Seq<RecordView>, b: Seq<u8>)
    requires
        unique_digests(s),
        lookup(s, sha256_of(b)) is None || lookup(s, sha256_of(b)) == Some(Some(b)),
    ensures
        put_spec(put_spec(s, sha256_of(b), b), sha256_of(b), b) == put_spec(s, sha256_of(b), b),
        count_key(put_spec(put_spec(s, sha256_of(b), b), sha256_of(b), b), sha256_of(b)) == 1,
        get_spec(put_spec(s, sha256_of(b), b), sha256_of(b)) == Ok::<Seq<u8>, ZkError>(b),
        get_spec(put_spec(put_spec(s, sha256_of(b), b), sha256_of(b), b), sha256_of(b)) == Ok::<
            Seq<u8>,
            ZkError,
        >(b),
{
    let d = sha256_of(b);
    let s1 = put_spec(s, d, b);
    if lookup(s, d) is None {
        let t = s.push((d, Some(b)));
        assert(t.drop_last() =~= s);
        lemma_lookup_exists(s, d);
        assert(unique_digests(t));
        lemma_count_unique(t, d);
    } else {
        lemma_count_unique(s, d);
    }
}

/// Writing two blobs with different digests stores two records, each read
/// back as written (where neither digest was stored before).
pub proof fn lemma_put_distinct(s: Seq<RecordView>, b1: Seq<u8>, b2: Seq<u8>)
    requires
        lookup(s, sha256_of(b1)) is None,
        lookup(s, sha256_of(b2)) is None,
        sha256_of(b1) != sha256_of(b2),
    ensures
        put_spec(put_spec(s, sha256_of(b1), b1), sha256_of(b2), b2).len() == s.len() + 2,
        get_spec(put_spec(put_spec(s, sha256_of(b1), b1), sha256_of(b2), b2), sha256_of(b1)) == Ok::<
            Seq<u8>,
            ZkError,
        >(b1),
        get_spec(put_spec(put_spec(s, sha256_of(b1), b1), sha256_of(b2), b2), sha256_of(b2)) == Ok::<
            Seq<u8>,
            ZkError,
        >(b2),
{
    let d1 = sha256_of(b1);
    let d2 = sha256_of(b2);
    let s1 = s.push((d1, Some(b1)));
    assert(s1.drop_last() =~= s);
    assert(lookup(s1, d2) is None);
    assert(put_spec(s, d1, b1) == s1);
    let s2 = s1.push((d2, Some(b2)));
    assert(put_spec(s1, d2, b2) == s2);
    assert(s2.drop_last() =~= s1);
    assert(lookup(s2, d1) == lookup(s1, d1));
    assert(lookup(s1, d1) == Some(Some(b1)));
}

} // verus!

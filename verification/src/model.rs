//! The cache as a mathematical value: a byte log and an index of ranges.

use crate::expiry::{spec_expiration_after, NEVER_EXPIRE};
use crate::record::{
    decode_record, encode_record, is_record_of, key_bytes, lemma_encode_record_fields,
    lemma_encode_record_len, record_len, stored_expiration,
};
use crate::text::decode_text;
use vstd::prelude::*;

verus! {

/// The byte range `[start, end)` of one record in the log.
pub struct Span {
    pub start: nat,
    pub end: nat,
}

/// What a cache holds: every byte ever appended, and for each key the range
/// of its latest record.
#[verifier::ext_equal]
pub struct CacheView {
    pub log: Seq<u8>,
    pub index: Map<Seq<char>, Span>,
}

impl CacheView {
    /// The cache that holds nothing: an empty log and an empty index.
    pub open spec fn empty() -> Self {
        CacheView { log: Seq::empty(), index: Map::empty() }
    }

    /// The bytes of the log that the index gives for `key`.
    pub open spec fn record(self, key: Seq<char>) -> Seq<u8>
        recommends
            self.index.contains_key(key),
    {
        self.log.subrange(self.index[key].start as int, self.index[key].end as int)
    }

    /// Every indexed range lies inside the log and holds one record of its
    /// key.
    pub open spec fn wf(self) -> bool {
        forall|key: Seq<char>| #[trigger]
            self.index.contains_key(key) ==> {
                &&& self.index[key].start <= self.index[key].end <= self.log.len()
                &&& is_record_of(key_bytes(key), self.record(key))
            }
    }

    /// The cache after one write: the record for `(expiration, key, value)`
    /// is appended to the log, and the index gives its range for `key`,
    /// in place of any range it gave before. No earlier byte changes.
    pub open spec fn write(self, expiration: u128, key: Seq<char>, value: Seq<u8>) -> Self {
        CacheView {
            log: self.log + encode_record(expiration, key_bytes(key), value),
            index: self.index.insert(
                key,
                Span {
                    start: self.log.len(),
                    end: self.log.len() + record_len(key_bytes(key), value),
                },
            ),
        }
    }

    /// The cache after `value` is put under `key`, never to expire.
    pub open spec fn put(self, key: Seq<char>, value: Seq<u8>) -> Self {
        self.write(NEVER_EXPIRE, key, value)
    }

    /// The cache after `value` is put under `key` at the instant `now`, to
    /// expire `ttl_seconds` later.
    pub open spec fn put_with_ttl(
        self,
        key: Seq<char>,
        value: Seq<u8>,
        ttl_seconds: u128,
        now: u128,
    ) -> Self {
        self.write(spec_expiration_after(now, ttl_seconds), key, value)
    }

    /// The value bytes that a read of `key` finds at `now`: nothing where
    /// the index has no range for `key` or its record is expired.
    pub open spec fn get_bytes(self, key: Seq<char>, now: u128) -> Option<Seq<u8>> {
        if self.index.contains_key(key) {
            decode_record(key_bytes(key), self.record(key), now)
        } else {
            None
        }
    }

    /// What a read of `key` returns at `now`: the value as text, or nothing
    /// where the key is absent, its record is expired, or the value is not
    /// valid UTF-8.
    pub open spec fn get(self, key: Seq<char>, now: u128) -> Option<Seq<char>> {
        match self.get_bytes(key, now) {
            Some(bytes) => decode_text(bytes),
            None => None,
        }
    }

    /// No read of `key` depends on the instant at which it is made: the
    /// index has no range for `key`, or its record never expires.
    pub open spec fn is_timeless(self, key: Seq<char>) -> bool {
        self.index.contains_key(key) ==> stored_expiration(self.record(key)) == NEVER_EXPIRE
    }

    /// A write keeps the cache well formed.
    pub proof fn lemma_write_wf(self, expiration: u128, key: Seq<char>, value: Seq<u8>)
        requires
            self.wf(),
        ensures
            self.write(expiration, key, value).wf(),
    {
        let after = self.write(expiration, key, value);
        lemma_encode_record_len(expiration, key_bytes(key), value);
        lemma_encode_record_fields(expiration, key_bytes(key), value);
        assert forall|other: Seq<char>| #[trigger] after.index.contains_key(other) implies {
            &&& after.index[other].start <= after.index[other].end <= after.log.len()
            &&& is_record_of(key_bytes(other), after.record(other))
        } by {
            if other == key {
                assert(after.record(key) =~= encode_record(expiration, key_bytes(key), value));
            } else {
                assert(self.index.contains_key(other));
                assert(after.record(other) =~= self.record(other));
            }
        }
    }
}

} // verus!

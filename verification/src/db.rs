//! The cache itself: the log, its tail and the index.

use crate::clock::unix_millis;
use crate::expiry::{expiration_after, NEVER_EXPIRE};
use crate::model::{CacheView, Span};
use crate::record::{
    gen_entry, key_bytes, lemma_encode_record_len, read_from_entry, MAX_KEY_LEN,
};
use crate::span::{lemma_unpack_pack, pack_range, spec_unpack_range, unpack_range};
use crate::text::{text_of, text_view};
use vstd::hash_map::StringHashMap;
use vstd::prelude::*;
use vstd::slice::slice_subrange;

verus! {

/// An in-memory key-value cache over an append-only log.
pub struct MinCache {
    buf: Vec<u8>,
    tail: u64,
    index_map: StringHashMap<u128>,
}

/// The range that a packed index value stands for.
spec fn span_of(packed: u128) -> Span {
    Span { start: spec_unpack_range(packed).0 as nat, end: spec_unpack_range(packed).1 as nat }
}

/// The ranges that a map of packed index values stands for.
spec fn spans_of(index: Map<Seq<char>, u128>) -> Map<Seq<char>, Span> {
    Map::new(|key: Seq<char>| index.contains_key(key), |key: Seq<char>| span_of(index[key]))
}

impl View for MinCache {
    type V = CacheView;

    closed spec fn view(&self) -> CacheView {
        CacheView { log: self.buf@, index: spans_of(self.index_map@) }
    }
}

impl MinCache {
    #[verifier::type_invariant]
    spec fn inv(self) -> bool {
        &&& self.tail == self.buf@.len()
        &&& self@.wf()
    }

    /// An empty cache: an empty log, an empty index, the tail at zero.
    pub fn new() -> (cache: Self)
        ensures
            cache@ == CacheView::empty(),
    {
        let cache = MinCache { buf: Vec::new(), tail: 0, index_map: StringHashMap::new() };
        assert(cache@.index =~= Map::empty());
        cache
    }

    /// Puts `value` under `key`, never to expire. The record is appended to
    /// the log; a record that `key` had before stays in the log, out of
    /// reach.
    pub fn put(&mut self, key: &String, value: &[u8])
        requires
            key_bytes(key@).len() <= MAX_KEY_LEN,
        ensures
            final(self)@ == old(self)@.put(key@, value@),
            final(self)@.wf(),
    {
        self.write(NEVER_EXPIRE, key, value);
    }

    /// Puts `value` under `key`, to expire `ttl` seconds after the instant
    /// that the system clock shows during the call. Whatever the clock
    /// shows, the index and the length of the log come out as after a plain
    /// `put`: only the sixteen bytes of the expiration depend on it.
    pub fn put_with_ttl(&mut self, key: &String, value: &[u8], ttl: u128)
        requires
            key_bytes(key@).len() <= MAX_KEY_LEN,
        ensures
            exists|now: u128|
                final(self)@ == #[trigger] old(self)@.put_with_ttl(key@, value@, ttl, now),
            final(self)@.index == old(self)@.put(key@, value@).index,
            final(self)@.log.len() == old(self)@.put(key@, value@).log.len(),
            final(self)@.wf(),
    {
        let now: u128 = unix_millis();
        self.put_with_ttl_at(key, value, ttl, now);
        proof {
            lemma_encode_record_len(expiration_after(now, ttl), key_bytes(key@), value@);
            lemma_encode_record_len(NEVER_EXPIRE, key_bytes(key@), value@);
        }
    }

    /// Puts `value` under `key` at the instant `now`, in milliseconds since
    /// the Unix epoch, to expire `ttl` seconds later.
    pub fn put_with_ttl_at(&mut self, key: &String, value: &[u8], ttl: u128, now: u128)
        requires
            key_bytes(key@).len() <= MAX_KEY_LEN,
        ensures
            final(self)@ == old(self)@.put_with_ttl(key@, value@, ttl, now),
            final(self)@.wf(),
    {
        self.write(expiration_after(now, ttl), key, value);
    }

    /// The value under `key` as text, at the instant that the system clock
    /// shows during the call. Where `key` is absent or its record never
    /// expires, the clock decides nothing. The cache is left as it was.
    pub fn get(&mut self, key: &String) -> (value: Option<String>)
        ensures
            final(self)@ == old(self)@,
            exists|now: u128| text_view(value) == #[trigger] old(self)@.get(key@, now),
            old(self)@.is_timeless(key@) ==> text_view(value) == old(self)@.get(key@, 0),
    {
        let now: u128 = unix_millis();
        self.get_at(key, now)
    }

    /// The value under `key` as text, at the instant `now` in milliseconds
    /// since the Unix epoch: nothing where `key` was never put, where its
    /// latest record is expired at `now`, or where the value is not valid
    /// UTF-8.
    pub fn get_at(&self, key: &String, now: u128) -> (value: Option<String>)
        ensures
            text_view(value) == self@.get(key@, now),
    {
        proof {
            use_type_invariant(self);
        }
        let packed: u128 = match self.index_map.get(key.as_str()) {
            None => {
                return None;
            },
            Some(packed) => *packed,
        };
        let (start, end): (u64, u64) = unpack_range(packed);
        proof {
            assert(self@.index.contains_key(key@));
            assert(self@.index[key@] == span_of(packed));
            assert(self.buf.len() == self.buf@.len());
        }
        let record: &[u8] = slice_subrange(self.buf.as_slice(), start as usize, end as usize);
        match read_from_entry(key, record, now) {
            None => None,
            Some(bytes) => text_of(bytes),
        }
    }

    /// Every byte appended so far, oldest first.
    pub fn log(&self) -> (bytes: &[u8])
        ensures
            bytes@ == self@.log,
            self@.wf(),
    {
        proof {
            use_type_invariant(self);
        }
        self.buf.as_slice()
    }

    /// The length of the log: the end of the record appended last.
    pub fn tail(&self) -> (tail: u64)
        ensures
            tail == self@.log.len(),
            self@.wf(),
    {
        proof {
            use_type_invariant(self);
        }
        self.tail
    }

    /// Appends the record for `(expiration, key, value)` and points the
    /// index entry of `key` at it.
    fn write(&mut self, expiration: u128, key: &String, value: &[u8])
        requires
            key_bytes(key@).len() <= MAX_KEY_LEN,
        ensures
            final(self)@ == old(self)@.write(expiration, key@, value@),
            final(self)@.wf(),
    {
        // The log, the tail and the index change together: the cache is taken
        // apart and put back whole, so that it is never seen half updated.
        let mut taken = MinCache::new();
        std::mem::swap(self, &mut taken);
        proof {
            use_type_invariant(&taken);
        }
        let ghost before = taken@;
        let MinCache { mut buf, tail, mut index_map } = taken;
        let entry_len: u64 = gen_entry(expiration, key, value, &mut buf);
        proof {
            lemma_encode_record_len(expiration, key_bytes(key@), value@);
            assert(buf.len() == buf@.len());
        }
        let end: u64 = tail + entry_len;
        index_map.insert(key.clone(), pack_range(tail, end));
        proof {
            lemma_unpack_pack(tail, end);
            before.lemma_write_wf(expiration, key@, value@);
            assert(spans_of(index_map@) =~= before.write(expiration, key@, value@).index);
        }
        *self = MinCache { buf, tail: end, index_map };
    }
}

} // verus!

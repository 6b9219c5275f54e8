//! What holds of every cache, stated over its mathematical view and proved.

use crate::expiry::{
    lemma_expired_after, lemma_never_expired, spec_expiration_after, spec_is_expired,
    MILLIS_PER_SECOND, NEVER_EXPIRE,
};
use crate::model::CacheView;
use crate::record::{
    encode_record, key_bytes, lemma_decode_encoded, lemma_encode_record_fields,
    lemma_encode_record_len, lemma_record_is_encoding, record_len, stored_expiration,
    stored_value,
};
use crate::text::decode_text;
use vstd::prelude::*;
use vstd::utf8::{encode_utf8, encode_utf8_decode_utf8, encode_utf8_valid_utf8};

verus! {

/// Read after write: a read of the key just written finds the value just
/// written, unless the record is already expired at the instant of the read.
pub proof fn law_read_after_write(
    cache: CacheView,
    expiration: u128,
    key: Seq<char>,
    value: Seq<u8>,
    now: u128,
)
    ensures
        cache.write(expiration, key, value).get_bytes(key, now) == if spec_is_expired(
            expiration,
            now,
        ) {
            None
        } else {
            Some(value)
        },
{
    let after = cache.write(expiration, key, value);
    let record = encode_record(expiration, key_bytes(key), value);
    lemma_encode_record_len(expiration, key_bytes(key), value);
    assert(after.record(key) =~= record);
    lemma_decode_encoded(expiration, key_bytes(key), value, now);
}

/// Round trip: `put(key, value)` followed by `get(key)` returns `value` read
/// as text, whenever `value` is valid UTF-8, and nothing otherwise.
pub proof fn law_put_get_round_trip(cache: CacheView, key: Seq<char>, value: Seq<u8>, now: u128)
    ensures
        cache.put(key, value).get(key, now) == decode_text(value),
{
    law_read_after_write(cache, NEVER_EXPIRE, key, value, now);
}

/// Round trip of text: a text put under a key as its UTF-8 bytes is the text
/// that a read of the key returns.
pub proof fn law_put_get_text(cache: CacheView, key: Seq<char>, text: Seq<char>, now: u128)
    ensures
        cache.put(key, encode_utf8(text)).get(key, now) == Some(text),
{
    law_put_get_round_trip(cache, key, encode_utf8(text), now);
    encode_utf8_valid_utf8(text);
    encode_utf8_decode_utf8(text);
}

/// Last write wins: after two puts under one key, a read returns the second
/// value and never the first, while the log holds the bytes of both records,
/// the first before the second, and has grown by the lengths of both.
pub proof fn law_last_write_wins(
    cache: CacheView,
    key: Seq<char>,
    first: Seq<u8>,
    second: Seq<u8>,
    now: u128,
)
    ensures
        cache.put(key, first).put(key, second).get_bytes(key, now) == Some(second),
        cache.put(key, first).put(key, second).get(key, now) == decode_text(second),
        cache.put(key, first).put(key, second).log == cache.log + encode_record(
            NEVER_EXPIRE,
            key_bytes(key),
            first,
        ) + encode_record(NEVER_EXPIRE, key_bytes(key), second),
        cache.put(key, first).put(key, second).log.len() == cache.log.len() + record_len(
            key_bytes(key),
            first,
        ) + record_len(key_bytes(key), second),
{
    law_read_after_write(cache.put(key, first), NEVER_EXPIRE, key, second, now);
    lemma_encode_record_len(NEVER_EXPIRE, key_bytes(key), first);
    lemma_encode_record_len(NEVER_EXPIRE, key_bytes(key), second);
}

/// Miss on empty: a read of any key from the empty cache returns nothing.
pub proof fn law_miss_on_empty(key: Seq<char>, now: u128)
    ensures
        CacheView::empty().get_bytes(key, now) is None,
        CacheView::empty().get(key, now) is None,
{
}

/// Miss on absent key: a key that the index lacks stays absent when another
/// key is written, and a read of it returns nothing.
pub proof fn law_miss_on_absent_key(
    cache: CacheView,
    expiration: u128,
    present: Seq<char>,
    value: Seq<u8>,
    missing: Seq<char>,
    now: u128,
)
    requires
        missing != present,
        !cache.index.contains_key(missing),
    ensures
        !cache.write(expiration, present, value).index.contains_key(missing),
        cache.write(expiration, present, value).get(missing, now) is None,
{
}

/// Never-expire default: a value put without a time-to-live is found by a
/// read at every instant, however late.
pub proof fn law_put_never_expires(cache: CacheView, key: Seq<char>, value: Seq<u8>, now: u128)
    ensures
        cache.put(key, value).is_timeless(key),
        cache.put(key, value).get_bytes(key, now) == Some(value),
{
    lemma_never_expired(now);
    law_read_after_write(cache, NEVER_EXPIRE, key, value, now);
    lemma_encode_record_len(NEVER_EXPIRE, key_bytes(key), value);
    lemma_encode_record_fields(NEVER_EXPIRE, key_bytes(key), value);
    assert(cache.put(key, value).record(key) =~= encode_record(
        NEVER_EXPIRE,
        key_bytes(key),
        value,
    ));
}

/// A read of a key that is absent, or whose record never expires, returns
/// the same at every instant.
pub proof fn law_timeless_read(cache: CacheView, key: Seq<char>, now: u128, later: u128)
    requires
        cache.is_timeless(key),
    ensures
        cache.get_bytes(key, now) == cache.get_bytes(key, later),
        cache.get(key, now) == cache.get(key, later),
{
}

/// Time-to-live: a value put at `written` to live `ttl_seconds` is found by
/// a read at `read` exactly when `read` is no later than
/// `written + ttl_seconds * 1000`; beyond that instant a read finds nothing.
pub proof fn law_ttl_expiry(
    cache: CacheView,
    key: Seq<char>,
    value: Seq<u8>,
    ttl_seconds: u128,
    written: u128,
    read: u128,
)
    ensures
        cache.put_with_ttl(key, value, ttl_seconds, written).get_bytes(key, read) == if read
            > written + ttl_seconds * MILLIS_PER_SECOND {
            None
        } else {
            Some(value)
        },
        cache.put_with_ttl(key, value, ttl_seconds, written).get(key, read) == if read > written
            + ttl_seconds * MILLIS_PER_SECOND {
            None
        } else {
            decode_text(value)
        },
{
    law_read_after_write(cache, spec_expiration_after(written, ttl_seconds), key, value, read);
    lemma_expired_after(written, ttl_seconds, read);
}

/// Isolation of keys: a write under one key changes what no read of another
/// key returns.
pub proof fn law_key_isolation(
    cache: CacheView,
    expiration: u128,
    key: Seq<char>,
    value: Seq<u8>,
    other: Seq<char>,
    now: u128,
)
    requires
        cache.wf(),
        other != key,
    ensures
        cache.write(expiration, key, value).get_bytes(other, now) == cache.get_bytes(other, now),
        cache.write(expiration, key, value).get(other, now) == cache.get(other, now),
{
    let after = cache.write(expiration, key, value);
    if cache.index.contains_key(other) {
        assert(after.record(other) =~= cache.record(other));
    }
}

/// Every range of the index lies inside the log and holds exactly one
/// record: the encoding of an expiration, the range's own key and a value.
pub proof fn law_indexed_record_is_encoding(cache: CacheView, key: Seq<char>)
    requires
        cache.wf(),
        cache.index.contains_key(key),
    ensures
        cache.index[key].start <= cache.index[key].end <= cache.log.len(),
        cache.record(key) == encode_record(
            stored_expiration(cache.record(key)),
            key_bytes(key),
            stored_value(key_bytes(key).len(), cache.record(key)),
        ),
{
    lemma_record_is_encoding(key_bytes(key), cache.record(key));
}

/// The log only grows: a write leaves every byte appended before it where
/// it was, and adds the length of one record.
pub proof fn law_log_append_only(
    cache: CacheView,
    expiration: u128,
    key: Seq<char>,
    value: Seq<u8>,
)
    ensures
        cache.write(expiration, key, value).log.subrange(0, cache.log.len() as int) == cache.log,
        cache.write(expiration, key, value).log.len() == cache.log.len() + record_len(
            key_bytes(key),
            value,
        ),
{
    lemma_encode_record_len(expiration, key_bytes(key), value);
    assert(cache.write(expiration, key, value).log.subrange(0, cache.log.len() as int)
        =~= cache.log);
}

} // verus!

//! The binary framing of one record: expiration, key length, key, value.
//!
//! | field      | size             | encoding                          |
//! |------------|------------------|-----------------------------------|
//! | expiration | 16 bytes         | little-endian milliseconds        |
//! | key length | 2 bytes          | little-endian                     |
//! | key        | key length bytes | raw bytes                         |
//! | value      | the rest         | raw bytes                         |
//!
//! A record carries no value length: the reader is handed the exact byte
//! range of one record and takes the value to be what follows the key.

use crate::expiry::{is_expired, spec_is_expired};
use crate::little_endian::{
    le_bytes, le_value, lemma_le_bytes_len, lemma_le_bytes_of_value, lemma_le_limit_values,
    lemma_le_value_bound, lemma_le_value_of_bytes, push_le, read_le,
};
use vstd::prelude::*;
use vstd::slice::slice_subrange;
use vstd::string::StringSliceAdditionalSpecFns;
use vstd::utf8::encode_utf8;

verus! {

/// Bytes of the expiration field.
pub const EXPIRATION_WIDTH: usize = 16;

/// Bytes of the key length field.
pub const KEY_LEN_WIDTH: usize = 2;

/// Bytes that precede the key: expiration and key length.
pub const HEADER_LEN: usize = 18;

/// The longest key, in bytes, whose length the key length field can hold.
pub const MAX_KEY_LEN: usize = 0xffff;

/// The bytes that stand for a key in a record: its UTF-8 encoding.
pub open spec fn key_bytes(key: Seq<char>) -> Seq<u8> {
    encode_utf8(key)
}

/// The record for `(expiration, key, value)`, byte for byte.
pub open spec fn encode_record(expiration: u128, key: Seq<u8>, value: Seq<u8>) -> Seq<u8> {
    le_bytes(expiration as nat, EXPIRATION_WIDTH as nat) + le_bytes(
        key.len(),
        KEY_LEN_WIDTH as nat,
    ) + key + value
}

/// The length of the record for `key` and `value`.
pub open spec fn record_len(key: Seq<u8>, value: Seq<u8>) -> nat {
    HEADER_LEN as nat + key.len() + value.len()
}

/// The expiration that a record's first sixteen bytes hold.
pub open spec fn stored_expiration(record: Seq<u8>) -> u128 {
    le_value(record.subrange(0, EXPIRATION_WIDTH as int)) as u128
}

/// The value of a record whose key is `key_len` bytes long: all that follows
/// the key.
pub open spec fn stored_value(key_len: nat, record: Seq<u8>) -> Seq<u8> {
    record.subrange(HEADER_LEN + key_len, record.len() as int)
}

/// `record` is long enough for a header and `key`, and holds `key` and its
/// length where a record of `key` holds them.
pub open spec fn is_record_of(key: Seq<u8>, record: Seq<u8>) -> bool {
    &&& record.len() >= HEADER_LEN + key.len()
    &&& record.subrange(EXPIRATION_WIDTH as int, HEADER_LEN as int) == le_bytes(
        key.len(),
        KEY_LEN_WIDTH as nat,
    )
    &&& record.subrange(HEADER_LEN as int, HEADER_LEN + key.len()) == key
}

/// What reading `record` under the expected key `key` yields at `now`:
/// nothing where the record is expired, else its value. Of the expected key
/// only the length is used; the stored key is not compared with it.
pub open spec fn decode_record(key: Seq<u8>, record: Seq<u8>, now: u128) -> Option<Seq<u8>> {
    if spec_is_expired(stored_expiration(record), now) {
        None
    } else {
        Some(stored_value(key.len(), record))
    }
}

/// A record is as long as its header, key and value together.
pub proof fn lemma_encode_record_len(expiration: u128, key: Seq<u8>, value: Seq<u8>)
    ensures
        encode_record(expiration, key, value).len() == record_len(key, value),
{
    lemma_le_bytes_len(expiration as nat, EXPIRATION_WIDTH as nat);
    lemma_le_bytes_len(key.len(), KEY_LEN_WIDTH as nat);
}

/// The fields of an encoded record read back as they were written.
pub proof fn lemma_encode_record_fields(expiration: u128, key: Seq<u8>, value: Seq<u8>)
    ensures
        is_record_of(key, encode_record(expiration, key, value)),
        stored_expiration(encode_record(expiration, key, value)) == expiration,
        stored_value(key.len(), encode_record(expiration, key, value)) == value,
{
    let record = encode_record(expiration, key, value);
    let stamp = le_bytes(expiration as nat, EXPIRATION_WIDTH as nat);
    let count = le_bytes(key.len(), KEY_LEN_WIDTH as nat);
    lemma_le_bytes_len(expiration as nat, EXPIRATION_WIDTH as nat);
    lemma_le_bytes_len(key.len(), KEY_LEN_WIDTH as nat);
    assert(record.subrange(0, EXPIRATION_WIDTH as int) =~= stamp);
    assert(record.subrange(EXPIRATION_WIDTH as int, HEADER_LEN as int) =~= count);
    assert(record.subrange(HEADER_LEN as int, HEADER_LEN + key.len()) =~= key);
    assert(record.subrange(HEADER_LEN + key.len(), record.len() as int) =~= value);
    lemma_le_limit_values();
    lemma_le_value_of_bytes(expiration as nat, EXPIRATION_WIDTH as nat);
}

/// Reading an encoded record under its own key yields the value, unless the
/// record is expired.
pub proof fn lemma_decode_encoded(expiration: u128, key: Seq<u8>, value: Seq<u8>, now: u128)
    ensures
        decode_record(key, encode_record(expiration, key, value), now) == if spec_is_expired(
            expiration,
            now,
        ) {
            None
        } else {
            Some(value)
        },
{
    lemma_encode_record_fields(expiration, key, value);
}

/// Every byte string that is a record of `key` is the encoding of its own
/// expiration, `key` and its own value.
pub proof fn lemma_record_is_encoding(key: Seq<u8>, record: Seq<u8>)
    requires
        is_record_of(key, record),
    ensures
        record == encode_record(
            stored_expiration(record),
            key,
            stored_value(key.len(), record),
        ),
{
    let stamp = record.subrange(0, EXPIRATION_WIDTH as int);
    lemma_le_value_bound(stamp);
    lemma_le_limit_values();
    lemma_le_bytes_of_value(stamp);
    assert(record =~= stamp + record.subrange(EXPIRATION_WIDTH as int, HEADER_LEN as int)
        + record.subrange(HEADER_LEN as int, HEADER_LEN + key.len()) + stored_value(
        key.len(),
        record,
    ));
}

/// Whether `key` is short enough for a record: at most `MAX_KEY_LEN` bytes
/// of UTF-8.
pub fn key_fits(key: &String) -> (fits: bool)
    ensures
        fits == (key_bytes(key@).len() <= MAX_KEY_LEN),
{
    key.as_str().as_bytes().len() <= MAX_KEY_LEN
}

/// Appends the record for `(time_stamp, key, value)` to `buf` and returns
/// the number of bytes appended.
pub fn gen_entry(time_stamp: u128, key: &String, value: &[u8], buf: &mut Vec<u8>) -> (entry_len:
    u64)
    requires
        key_bytes(key@).len() <= MAX_KEY_LEN,
    ensures
        final(buf)@ == old(buf)@ + encode_record(time_stamp, key_bytes(key@), value@),
        entry_len == record_len(key_bytes(key@), value@),
{
    let key_slice: &[u8] = key.as_str().as_bytes();
    let key_len: usize = key_slice.len();
    push_le(buf, time_stamp, EXPIRATION_WIDTH);
    push_le(buf, key_len as u128, KEY_LEN_WIDTH);
    buf.extend_from_slice(key_slice);
    buf.extend_from_slice(value);
    proof {
        lemma_encode_record_len(time_stamp, key_bytes(key@), value@);
        assert(buf@ =~= old(buf)@ + encode_record(time_stamp, key_bytes(key@), value@));
        assert(buf.len() == buf@.len());
    }
    (HEADER_LEN + key_len + value.len()) as u64
}

/// Reads the value out of `buf`, the bytes of one record written under
/// `key`, unless the record is expired at `now`.
pub fn read_from_entry<'a>(key: &String, buf: &'a [u8], now: u128) -> (value: Option<&'a [u8]>)
    requires
        buf@.len() >= HEADER_LEN + key_bytes(key@).len(),
    ensures
        match value {
            Some(bytes) => decode_record(key_bytes(key@), buf@, now) == Some(bytes@),
            None => decode_record(key_bytes(key@), buf@, now) is None,
        },
{
    let total: usize = buf.len();
    let key_len: usize = key.as_str().len();
    let stamp: &[u8] = slice_subrange(buf, 0, EXPIRATION_WIDTH);
    proof {
        lemma_le_value_bound(stamp@);
        lemma_le_limit_values();
    }
    let time_stamp: u128 = read_le(stamp);
    if is_expired(time_stamp, now) {
        None
    } else {
        Some(slice_subrange(buf, HEADER_LEN + key_len, total))
    }
}

} // verus!

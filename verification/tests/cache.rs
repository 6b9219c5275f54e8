use mincache::db::MinCache;
use mincache::record::{key_fits, MAX_KEY_LEN};

#[test]
fn test_put_and_get_single_entry() {
    let mut cache = MinCache::new();
    let key = String::from("test_key");
    let value = String::from("test_value");

    cache.put(&key, value.as_bytes());

    let result = cache.get(&key);
    assert_eq!(result, Some(value));
}

#[test]
fn test_put_multiple_entries_and_get() {
    let mut cache = MinCache::new();
    let kvs = vec![
        (String::from("key1"), String::from("val1")),
        (String::from("key2"), String::from("val2")),
        (String::from("中文键"), String::from("值123")),
    ];

    for (k, v) in &kvs {
        cache.put(k, v.as_bytes());
    }

    for (k, v) in &kvs {
        let result = cache.get(k);
        assert_eq!(result, Some(v.clone()));
    }
}

#[test]
fn test_get_nonexistent_key_returns_none() {
    let mut cache = MinCache::new();
    cache.put(&String::from("exists"), b"value");

    let result = cache.get(&String::from("missing"));
    assert_eq!(result, None);
}

#[test]
fn test_empty_cache_returns_none() {
    let mut cache = MinCache::new();
    let result = cache.get(&String::from("anykey"));
    assert_eq!(result, None);
}

#[test]
fn new_cache_has_empty_log() {
    let cache = MinCache::new();
    assert_eq!(cache.tail(), 0);
    assert!(cache.log().is_empty());
    assert_eq!(cache.get_at(&String::from("anykey"), 0), None);
    assert_eq!(cache.get_at(&String::from(""), u128::MAX), None);
}

#[test]
fn put_appends_one_record() {
    let mut cache = MinCache::new();
    cache.put(&String::from("k"), b"v");
    let mut expected = vec![0xffu8; 16];
    expected.extend_from_slice(&[1, 0, b'k', b'v']);
    assert_eq!(cache.log(), &expected[..]);
    assert_eq!(cache.tail(), 20);
}

#[test]
fn last_write_wins_and_log_keeps_both_records() {
    let mut cache = MinCache::new();
    let key = String::from("color");
    cache.put(&key, b"red");
    let after_first = cache.tail();
    assert_eq!(after_first, 18 + 5 + 3);
    cache.put(&key, b"green");
    assert_eq!(cache.tail(), after_first + 18 + 5 + 5);
    assert_eq!(cache.log().len(), 54);
    assert_eq!(cache.get(&key), Some(String::from("green")));
    assert_eq!(cache.get_at(&key, 0), Some(String::from("green")));

    let log = cache.log();
    assert_eq!(&log[18..23], b"color");
    assert_eq!(&log[23..26], b"red");
    assert_eq!(&log[26 + 18..26 + 23], b"color");
    assert_eq!(&log[26 + 23..], b"green");
}

#[test]
fn put_never_expires() {
    let mut cache = MinCache::new();
    let key = String::from("forever");
    cache.put(&key, b"here");
    assert_eq!(cache.get_at(&key, 0), Some(String::from("here")));
    assert_eq!(cache.get_at(&key, 1_700_000_000_000), Some(String::from("here")));
    assert_eq!(cache.get_at(&key, u128::MAX - 1), Some(String::from("here")));
    assert_eq!(cache.get_at(&key, u128::MAX), Some(String::from("here")));
    assert_eq!(cache.get(&key), Some(String::from("here")));
}

#[test]
fn ttl_record_expires_after_its_last_millisecond() {
    let mut cache = MinCache::new();
    let key = String::from("session");
    cache.put_with_ttl_at(&key, b"token", 1, 5_000);
    assert_eq!(cache.get_at(&key, 5_000), Some(String::from("token")));
    assert_eq!(cache.get_at(&key, 5_999), Some(String::from("token")));
    assert_eq!(cache.get_at(&key, 6_000), Some(String::from("token")));
    assert_eq!(cache.get_at(&key, 6_001), None);
    assert_eq!(cache.get_at(&key, u128::MAX), None);
    assert_eq!(cache.get_at(&key, 0), Some(String::from("token")));
}

#[test]
fn ttl_record_stores_now_plus_ttl_in_milliseconds() {
    let mut cache = MinCache::new();
    cache.put_with_ttl_at(&String::from("k"), b"v", 2, 1_000);
    let log = cache.log();
    assert_eq!(&log[..16], &3_000u128.to_le_bytes());
    assert_eq!(&log[16..], &[1, 0, b'k', b'v']);
}

#[test]
fn ttl_beyond_the_largest_instant_never_expires() {
    let mut cache = MinCache::new();
    let key = String::from("k");
    cache.put_with_ttl_at(&key, b"v", u128::MAX, 1);
    assert_eq!(&cache.log()[..16], &[0xffu8; 16]);
    assert_eq!(cache.get_at(&key, u128::MAX), Some(String::from("v")));

    cache.put_with_ttl_at(&key, b"w", 1, u128::MAX - 1_000);
    assert_eq!(cache.get_at(&key, u128::MAX), Some(String::from("w")));

    cache.put_with_ttl_at(&key, b"x", 1, u128::MAX - 1_001);
    assert_eq!(cache.get_at(&key, u128::MAX - 1), Some(String::from("x")));
    assert_eq!(cache.get_at(&key, u128::MAX), None);
}

#[test]
fn zero_ttl_expires_once_the_clock_moves_on() {
    let mut cache = MinCache::new();
    let key = String::from("k");
    cache.put_with_ttl_at(&key, b"v", 0, 10);
    assert_eq!(cache.get_at(&key, 10), Some(String::from("v")));
    assert_eq!(cache.get_at(&key, 11), None);
}

#[test]
fn put_with_ttl_reads_the_clock() {
    let mut cache = MinCache::new();
    let key = String::from("name");
    cache.put_with_ttl(&key, "张三".as_bytes(), 3_600);
    assert_eq!(cache.get(&key), Some(String::from("张三")));

    let stored = u128::from_le_bytes(cache.log()[..16].try_into().unwrap());
    let year_2020: u128 = 1_577_836_800_000;
    assert!(stored > year_2020 + 3_600_000);
    assert_eq!(cache.get_at(&key, stored), Some(String::from("张三")));
    assert_eq!(cache.get_at(&key, stored + 1), None);
}

#[test]
fn get_reads_the_clock() {
    let mut cache = MinCache::new();
    let key = String::from("old");
    cache.put_with_ttl_at(&key, b"stale", 1, 0);
    assert_eq!(cache.get_at(&key, 1_000), Some(String::from("stale")));
    assert_eq!(cache.get(&key), None);

    let far = String::from("far");
    cache.put_with_ttl_at(&far, b"fresh", 1, u128::MAX - 5_000);
    assert_eq!(cache.get(&far), Some(String::from("fresh")));
}

#[test]
fn get_leaves_the_cache_as_it_was() {
    let mut cache = MinCache::new();
    let key = String::from("k");
    cache.put(&key, b"v");
    let before = cache.log().to_vec();
    assert_eq!(cache.get(&key), Some(String::from("v")));
    assert_eq!(cache.get(&String::from("other")), None);
    assert_eq!(cache.log(), &before[..]);
    assert_eq!(cache.tail(), 20);
    assert_eq!(cache.get(&key), Some(String::from("v")));
}

#[test]
fn expired_key_lives_again_after_a_fresh_put() {
    let mut cache = MinCache::new();
    let key = String::from("k");
    cache.put_with_ttl_at(&key, b"first", 1, 0);
    assert_eq!(cache.get_at(&key, 2_000), None);
    cache.put(&key, b"second");
    assert_eq!(cache.get_at(&key, 2_000), Some(String::from("second")));
    cache.put_with_ttl_at(&key, b"third", 1, 2_000);
    assert_eq!(cache.get_at(&key, 3_000), Some(String::from("third")));
    assert_eq!(cache.get_at(&key, 3_001), None);
}

#[test]
fn keys_do_not_disturb_each_other() {
    let mut cache = MinCache::new();
    let key1 = String::from("key1");
    let key2 = String::from("key2");
    let key3 = String::from("中文键");
    cache.put(&key1, "val1".as_bytes());
    cache.put(&key2, "val2".as_bytes());
    cache.put(&key3, "值123".as_bytes());

    assert_eq!(cache.get(&key3), Some(String::from("值123")));
    assert_eq!(cache.get(&key1), Some(String::from("val1")));
    assert_eq!(cache.get(&key2), Some(String::from("val2")));
    assert_eq!(cache.get(&key1), Some(String::from("val1")));

    cache.put_with_ttl_at(&key2, b"short", 1, 0);
    assert_eq!(cache.get_at(&key2, 1_001), None);
    assert_eq!(cache.get_at(&key1, 1_001), Some(String::from("val1")));
    assert_eq!(cache.get_at(&key3, 1_001), Some(String::from("值123")));
}

#[test]
fn key_that_is_a_prefix_of_another_is_its_own_key() {
    let mut cache = MinCache::new();
    cache.put(&String::from("ab"), b"long");
    cache.put(&String::from("a"), b"short");
    assert_eq!(cache.get(&String::from("ab")), Some(String::from("long")));
    assert_eq!(cache.get(&String::from("a")), Some(String::from("short")));
    assert_eq!(cache.get(&String::from("abc")), None);
    assert_eq!(cache.get(&String::from("")), None);
}

#[test]
fn value_that_is_not_text_reads_as_nothing() {
    let mut cache = MinCache::new();
    let key = String::from("blob");
    cache.put(&key, &[0xff, 0xfe, 0x00]);
    assert_eq!(cache.get(&key), None);
    assert_eq!(cache.get_at(&key, 0), None);
    assert_eq!(cache.tail(), 18 + 4 + 3);

    cache.put(&key, &[0xe4, 0xb8]);
    assert_eq!(cache.get(&key), None);
    cache.put(&key, &[0xe4, 0xb8, 0xad]);
    assert_eq!(cache.get(&key), Some(String::from("中")));
}

#[test]
fn empty_key_and_empty_value() {
    let mut cache = MinCache::new();
    let empty = String::new();
    cache.put(&empty, b"");
    assert_eq!(cache.tail(), 18);
    assert_eq!(cache.get(&empty), Some(String::new()));
    cache.put(&empty, b"x");
    assert_eq!(cache.tail(), 37);
    assert_eq!(cache.get(&empty), Some(String::from("x")));
}

#[test]
fn longest_key_is_accepted() {
    let longest = "k".repeat(MAX_KEY_LEN);
    assert!(key_fits(&longest));
    let mut cache = MinCache::new();
    cache.put(&longest, b"v");
    assert_eq!(cache.tail(), 18 + 65_535 + 1);
    assert_eq!(&cache.log()[16..18], &[0xff, 0xff]);
    assert_eq!(cache.get(&longest), Some(String::from("v")));

    let too_long = "k".repeat(MAX_KEY_LEN + 1);
    assert!(!key_fits(&too_long));
    assert!(key_fits(&String::new()));
    let wide = "中".repeat(21_845);
    assert!(key_fits(&wide));
    let too_wide = "中".repeat(21_846);
    assert!(!key_fits(&too_wide));
}

use svm_stm::peer_queue::sort_by_score;
use svm_stm::keys::{address, decimal_string, DPNRedisKey};
use svm_stm::messages::{transfer_error, ConfirmedTransaction, MakeMove, TxResult};
use svm_stm::primitive::SVMPrimitives;
use svm_stm::redis_uri::{parse_redis_uri, uri_from_parts, RedisUriError};

fn s(x: &str) -> String {
    x.to_string()
}

#[test]
fn decimal_forms() {
    assert_eq!(decimal_string(0), "0");
    assert_eq!(decimal_string(7), "7");
    assert_eq!(decimal_string(10), "10");
    assert_eq!(decimal_string(1234567), "1234567");
    assert_eq!(decimal_string(u32::MAX), "4294967295");
}

#[test]
fn account_addresses() {
    assert_eq!(address(0), "0x0");
    assert_eq!(address(42), "0x42");
    assert_eq!(address(1000000), "0x1000000");
}

#[test]
fn redis_hash_keys_and_fields() {
    assert_eq!(DPNRedisKey::get_geo_kf(s("m1"), s("sess")), (s("peer_geo"), s("m1_sess")));
    assert_eq!(DPNRedisKey::get_balance_kf(s("0xabc")), (s("client_user_balance"), s("0xabc")));
    assert_eq!(DPNRedisKey::get_peers_kf(s("m2"), 3232235777), (s("peers_ms#m2"), s("3232235777")));
    assert_eq!(DPNRedisKey::get_price_kf(s("peer")), (s("peer_price"), s("peer")));
    assert_eq!(DPNRedisKey::get_proxy_acc_kf(s("id9")), (s("proxy_acc"), s("id9")));
}

#[test]
fn redis_queue_keys_and_channels() {
    assert_eq!(DPNRedisKey::get_peer_queue_k(s("m3")), "peer_queue_ms#m3_");
    assert_eq!(DPNRedisKey::get_peers_chan(s("m4")), "peers_updated_ms#m4");
    assert_eq!(DPNRedisKey::get_proxy_acc_chan(), "proxy_acc_updated");
    assert_eq!(DPNRedisKey::get_price_chan(), "price_updated");
}

#[test]
fn uri_parts_plain_and_tls() {
    let plain = uri_from_parts("redis", None, Some("localhost"), Some(6379)).unwrap();
    assert!(!plain.is_tls);
    assert_eq!(plain.host, "localhost");
    assert_eq!(plain.port, 6379);
    assert_eq!(plain.password, None);
    let tls = uri_from_parts("rediss", Some("pw"), Some("cache.example"), Some(6380)).unwrap();
    assert!(tls.is_tls);
    assert_eq!(tls.password, Some(s("pw")));
}

#[test]
fn uri_parts_errors() {
    match uri_from_parts("http", None, Some("h"), Some(1)) {
        Err(RedisUriError::InvalidScheme(scheme)) => assert_eq!(scheme, "http"),
        other => panic!("unexpected {:?}", other.err()),
    }
    assert!(matches!(uri_from_parts("redis", None, None, Some(1)), Err(RedisUriError::MissingHost)));
    assert!(matches!(uri_from_parts("rediss", None, Some("h"), None), Err(RedisUriError::MissingPort)));
}

#[test]
fn parse_full_uris() {
    let u = parse_redis_uri("rediss://:secret@cache.example:6380").unwrap();
    assert!(u.is_tls);
    assert_eq!(u.password, Some(s("secret")));
    assert_eq!(u.host, "cache.example");
    assert_eq!(u.port, 6380);
    let p = parse_redis_uri("redis://127.0.0.1:6379").unwrap();
    assert!(!p.is_tls);
    assert_eq!(p.host, "127.0.0.1");
    assert!(matches!(parse_redis_uri("redis://127.0.0.1"), Err(RedisUriError::MissingPort)));
    assert!(matches!(parse_redis_uri("not a url"), Err(RedisUriError::Malformed(_))));
    match parse_redis_uri("http://h:80") {
        Err(RedisUriError::InvalidScheme(scheme)) => assert_eq!(scheme, "http"),
        other => panic!("unexpected {:?}", other.err()),
    }
}

#[test]
fn reports_from_outcomes() {
    let ok = TxResult::from_outcome(s("t1"), s("c1"), Ok(SVMPrimitives::U24(3)));
    assert!(ok.status);
    assert_eq!(ok.ret_value, Some(SVMPrimitives::U24(3)));
    assert_eq!(ok.errs, None);
    assert_eq!(ok.tx_hash, "t1");
    let bad = ConfirmedTransaction::from_outcome(s("t2"), s("c2"), Err(s("boom")));
    assert!(!bad.status);
    assert_eq!(bad.ret_value, None);
    assert_eq!(bad.errs, Some(s("boom")));
    assert_eq!(bad.code_hash, "c2");
}

#[test]
fn move_player_from_address() {
    let first = MakeMove { code_hash: s("g"), address: s("0x0"), step: 1 };
    let second = MakeMove { code_hash: s("g"), address: s("0x1"), step: 1 };
    assert_eq!(first.player(), 0);
    assert_eq!(second.player(), 1);
}

#[test]
fn transfer_error_names_sender() {
    assert_eq!(transfer_error("0x5", "key=0x4 does not exist"), "from_key=0x5 err=key=0x4 does not exist");
}

#[test]
fn peer_queue_sorted_stably_by_score() {
    let entries = vec![(1, 30), (2, 10), (3, 30), (4, 20), (5, 10)];
    assert_eq!(sort_by_score(&entries), vec![(2, 10), (5, 10), (4, 20), (1, 30), (3, 30)]);
    assert_eq!(sort_by_score(&vec![]), Vec::<(u32, u32)>::new());
}

use pagi_core::decimal::{decimal_width, parse_u64, push_decimal, push_zero_padded};
use pagi_core::store::{fact_key, facts_since, key_timestamp};
use pagi_core::text::bytes_less;
use pagi_core::{AgentFact, AgentIdentity, AuthScope, PAGICoreModel, StoredEntry};

fn fact(timestamp: u64, content: &str) -> AgentFact {
    AgentFact {
        agent_id: "agent".to_string(),
        timestamp,
        fact_type: "Observation".to_string(),
        content: content.to_string(),
    }
}

fn entry(key: &[u8], stored: Option<AgentFact>) -> StoredEntry {
    StoredEntry { key: key.to_vec(), fact: stored }
}

fn written(timestamp: u64, id: u64, content: &str) -> StoredEntry {
    StoredEntry { key: fact_key(timestamp, id), fact: Some(fact(timestamp, content)) }
}

fn contents(facts: &[AgentFact]) -> Vec<&str> {
    facts.iter().map(|fact| fact.content.as_str()).collect()
}

#[test]
fn a_key_is_two_numerals_of_twenty_digits_around_an_underscore() {
    assert_eq!(fact_key(0, 0), b"00000000000000000000_00000000000000000000".to_vec());
    assert_eq!(fact_key(1700000000, 42), b"00000000001700000000_00000000000000000042".to_vec());
    assert_eq!(fact_key(u64::MAX, u64::MAX), b"18446744073709551615_18446744073709551615".to_vec());
    assert_eq!(fact_key(7, 1_000_000), format!("{:020}_{:020}", 7, 1_000_000).into_bytes());
    assert_eq!(fact_key(3, 9).len(), 41);
    assert_eq!(fact_key(u64::MAX, 0).len(), 41);
}

#[test]
fn a_key_gives_its_timestamp_back() {
    assert_eq!(key_timestamp(&fact_key(0, 0)), Some(0));
    assert_eq!(key_timestamp(&fact_key(1700000000, 42)), Some(1700000000));
    assert_eq!(key_timestamp(&fact_key(u64::MAX, 3)), Some(u64::MAX));
    assert_eq!(key_timestamp(b"12_x"), Some(12));
    assert_eq!(key_timestamp(b"+12_x"), Some(12));
    assert_eq!(key_timestamp(b"0012_3_4"), Some(12));
    assert_eq!(key_timestamp(b"7_"), Some(7));
}

#[test]
fn a_foreign_key_gives_no_timestamp() {
    assert_eq!(key_timestamp(b""), None);
    assert_eq!(key_timestamp(b"12"), None);
    assert_eq!(key_timestamp(b"_12"), None);
    assert_eq!(key_timestamp(b"+_12"), None);
    assert_eq!(key_timestamp(b"-1_0"), None);
    assert_eq!(key_timestamp(b"1 2_0"), None);
    assert_eq!(key_timestamp(b"12a_0"), None);
    assert_eq!(key_timestamp(b"18446744073709551616_0"), None);
    assert_eq!(key_timestamp(b"99999999999999999999999_0"), None);
    assert_eq!(key_timestamp(b"12_\xff"), None);
    assert_eq!(key_timestamp(b"\xc3\x28_1"), None);
    assert_eq!(key_timestamp("１２_0".as_bytes()), None);
}

#[test]
fn keys_sort_by_time() {
    assert!(bytes_less(&fact_key(9, 500), &fact_key(10, 1)));
    assert!(bytes_less(&fact_key(99, u64::MAX), &fact_key(100, 0)));
    assert!(!bytes_less(&fact_key(100, 0), &fact_key(99, u64::MAX)));
    assert!(bytes_less(&fact_key(5, 1), &fact_key(5, 2)));
    assert!(bytes_less(&fact_key(5, 10), &fact_key(5, 11)));
    assert!(!bytes_less(&fact_key(5, 1), &fact_key(5, 1)));
    assert_ne!(fact_key(5, 1), fact_key(5, 2));
    assert_ne!(fact_key(5, 1), fact_key(6, 1));
}

#[test]
fn keys_of_one_timestamp_sort_by_the_id() {
    assert!(bytes_less(&fact_key(5, 9), &fact_key(5, 10)));
    assert!(!bytes_less(&fact_key(5, 10), &fact_key(5, 9)));
    assert!(bytes_less(&fact_key(5, 99), &fact_key(5, 100)));
    assert!(bytes_less(&fact_key(5, 0), &fact_key(5, u64::MAX)));
    assert!(bytes_less(&fact_key(5, 9_999_999_999), &fact_key(5, 10_000_000_000)));
    assert!(bytes_less(&fact_key(5, u64::MAX), &fact_key(6, 0)));
}

#[test]
fn facts_of_one_timestamp_come_back_in_write_order() {
    let mut writes: Vec<StoredEntry> = Vec::new();
    for id in [8u64, 9, 10, 11, 99, 100, 101, 1000] {
        writes.push(written(7, id, &format!("write {id}")));
    }
    writes.push(written(6, 5000, "earlier"));
    writes.push(written(8, 0, "later"));
    writes.sort_by(|a, b| a.key.cmp(&b.key));
    assert_eq!(
        contents(&facts_since(writes, 0)),
        vec![
            "earlier", "write 8", "write 9", "write 10", "write 11", "write 99", "write 100",
            "write 101", "write 1000", "later",
        ]
    );
}

#[test]
fn a_query_selects_by_the_timestamp_of_the_key() {
    let entries = vec![
        written(1, 0, "one"),
        written(2, 1, "two"),
        written(2, 2, "two again"),
        written(3, 3, "three"),
    ];
    assert_eq!(contents(&facts_since(entries, 2)), vec!["two", "two again", "three"]);
    let entries = vec![written(1, 0, "one"), written(2, 1, "two")];
    assert_eq!(contents(&facts_since(entries, 0)), vec!["one", "two"]);
    let entries = vec![written(1, 0, "one"), written(2, 1, "two")];
    assert!(facts_since(entries, 3).is_empty());
    assert!(facts_since(Vec::new(), 0).is_empty());
}

#[test]
fn a_query_passes_over_what_it_cannot_read() {
    let entries = vec![
        entry(b"garbage", Some(fact(9, "no separator"))),
        written(1, 0, "kept"),
        entry(&fact_key(2, 1), None),
        entry(b"x_1", Some(fact(9, "no number"))),
        entry(b"00000000000000000003_2\xff", Some(fact(3, "not utf-8"))),
        written(4, 3, "kept too"),
    ];
    assert_eq!(contents(&facts_since(entries, 0)), vec!["kept", "kept too"]);
}

#[test]
fn a_query_goes_by_the_key_not_by_the_fact() {
    let entries = vec![entry(&fact_key(10, 0), Some(fact(1, "late key"))), entry(&fact_key(1, 1), Some(fact(10, "early key")))];
    assert_eq!(contents(&facts_since(entries, 5)), vec!["late key"]);
}

#[test]
fn a_start_beyond_64_bits_selects_nothing() {
    let entries = vec![written(u64::MAX - 1, 0, "almost"), written(u64::MAX, 1, "last")];
    assert!(facts_since(entries, u64::MAX as u128 + 1).is_empty());
    let entries = vec![written(u64::MAX - 1, 0, "almost"), written(u64::MAX, 1, "last")];
    assert!(facts_since(entries, 18446744073709551616).is_empty());
    let entries = vec![written(u64::MAX - 1, 0, "almost"), written(u64::MAX, 1, "last")];
    assert!(facts_since(entries, u128::MAX).is_empty());
    let entries = vec![written(u64::MAX - 1, 0, "almost"), written(u64::MAX, 1, "last")];
    assert_eq!(contents(&facts_since(entries, u64::MAX as u128)), vec!["last"]);
    let entries = vec![written(u64::MAX - 1, 0, "almost"), written(u64::MAX, 1, "last")];
    assert_eq!(contents(&facts_since(entries, u64::MAX as u128 - 1)), vec!["almost", "last"]);
}

#[test]
fn retrieve_from_beyond_64_bits_gives_no_fact() {
    let core = PAGICoreModel::new();
    let reader = AgentIdentity { id: "r".to_string(), scopes: vec![AuthScope::ReadFacts] };
    let facts = core
        .retrieve_facts_by_timestamp(&reader, vec![written(u64::MAX, 0, "last")], u64::MAX as u128 + 1)
        .expect("a reader may read");
    assert!(facts.is_empty());
    let facts = core
        .retrieve_facts_by_timestamp(&reader, vec![written(u64::MAX, 0, "last")], u64::MAX as u128)
        .expect("a reader may read");
    assert_eq!(contents(&facts), vec!["last"]);
}

#[test]
fn facts_written_by_record_come_back_in_time_order() {
    let core = PAGICoreModel::new();
    let writer = AgentIdentity { id: "w".to_string(), scopes: vec![AuthScope::WriteFacts] };
    let mut writes = Vec::new();
    for (id, (timestamp, content)) in
        [(30u64, "c"), (10, "a"), (20, "b1"), (20, "b2"), (5, "first")].into_iter().enumerate()
    {
        let write = core.record_fact(&writer, fact(timestamp, content), id as u64).expect("a writer may write");
        assert_eq!(write.key, fact_key(timestamp, id as u64));
        assert_eq!(write.fact.content, content);
        writes.push((write.key, write.fact));
    }
    writes.sort_by(|a, b| a.0.cmp(&b.0));
    let entries: Vec<StoredEntry> =
        writes.into_iter().map(|(key, stored)| StoredEntry { key, fact: Some(stored) }).collect();
    let reader = AgentIdentity { id: "r".to_string(), scopes: vec![AuthScope::ReadFacts] };
    let facts = core.retrieve_facts_by_timestamp(&reader, entries, 0).expect("a reader may read");
    assert_eq!(contents(&facts), vec!["first", "a", "b1", "b2", "c"]);
    let stamps: Vec<u64> = facts.iter().map(|fact| fact.timestamp).collect();
    assert_eq!(stamps, vec![5, 10, 20, 20, 30]);
}

#[test]
fn recorded_facts_of_one_timestamp_keep_write_order() {
    let core = PAGICoreModel::new();
    let writer = AgentIdentity { id: "w".to_string(), scopes: vec![AuthScope::WriteFacts] };
    let reader = AgentIdentity { id: "r".to_string(), scopes: vec![AuthScope::ReadFacts] };
    let mut entries: Vec<StoredEntry> = Vec::new();
    for id in 0..120u64 {
        let write = core
            .record_fact(&writer, fact(1_700_000_000, &format!("write {id}")), id * 7)
            .expect("a writer may write");
        entries.push(StoredEntry { key: write.key, fact: Some(write.fact) });
    }
    entries.sort_by(|a, b| a.key.cmp(&b.key));
    let facts = core.retrieve_facts_by_timestamp(&reader, entries, 0).expect("a reader may read");
    let expected: Vec<String> = (0..120u64).map(|id| format!("write {id}")).collect();
    let found: Vec<String> = facts.iter().map(|fact| fact.content.clone()).collect();
    assert_eq!(found, expected);
}

#[test]
fn record_and_retrieve_ask_for_their_scopes() {
    let core = PAGICoreModel::new();
    let reader = AgentIdentity { id: "r".to_string(), scopes: vec![AuthScope::ReadFacts] };
    let denied = core.record_fact(&reader, fact(1, "x"), 0).expect_err("a reader may not write");
    assert_eq!(denied.identity, "r");
    assert_eq!(denied.scope, AuthScope::RoboticsAction);
    let robot = AgentIdentity { id: "arm".to_string(), scopes: vec![AuthScope::RoboticsAction] };
    let write = core.record_fact(&robot, fact(1, "moved"), 17).expect("a robot may log what it did");
    assert_eq!(write.key, b"00000000000000000001_00000000000000000017".to_vec());
    assert_eq!(write.fact.content, "moved");
    let denied = core
        .retrieve_facts_by_timestamp(&robot, vec![written(1, 0, "x")], 0)
        .expect_err("a robot may not read");
    assert_eq!(denied.scope, AuthScope::ReadFacts);
    assert_eq!(denied.identity, "arm");
}

#[test]
fn decimal_numerals_are_written_and_read() {
    let mut out = b"n=".to_vec();
    push_decimal(&mut out, 0);
    push_decimal(&mut out, 1234567890);
    assert_eq!(out, b"n=01234567890".to_vec());
    let mut out = Vec::new();
    push_zero_padded(&mut out, 42, 5);
    push_zero_padded(&mut out, 123456, 3);
    push_zero_padded(&mut out, 0, 0);
    assert_eq!(out, b"000421234560".to_vec());
    assert_eq!(decimal_width(0), 1);
    assert_eq!(decimal_width(9), 1);
    assert_eq!(decimal_width(10), 2);
    assert_eq!(decimal_width(u64::MAX), 20);
    assert_eq!(parse_u64(b"0"), Some(0));
    assert_eq!(parse_u64(b"+0"), Some(0));
    assert_eq!(parse_u64(b"007"), Some(7));
    assert_eq!(parse_u64(b"18446744073709551615"), Some(u64::MAX));
    assert_eq!(parse_u64(b"18446744073709551616"), None);
    assert_eq!(parse_u64(b""), None);
    assert_eq!(parse_u64(b"+"), None);
    assert_eq!(parse_u64(b"++1"), None);
    assert_eq!(parse_u64(b"-1"), None);
    assert_eq!(parse_u64(b"1_0"), None);
    assert_eq!(parse_u64(b" 1"), None);
}

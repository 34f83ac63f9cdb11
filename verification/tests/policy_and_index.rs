use archive_relay::event::Event;
use archive_relay::index::{decode_ids, decode_stamp, encode_stamp, IndexError};
use archive_relay::policy::{
    configured_chain, evaluate, EphemeralPolicy, KindPolicy, NoQuery, PolicyResult, WritePolicy,
};
use std::collections::HashSet;

fn event(kind: u16) -> Event {
    Event::new([7; 32], 1_700_000_000, kind, "{}".to_string()).unwrap()
}

fn kinds(list: &[u16]) -> KindPolicy {
    KindPolicy::new(list.iter().copied().collect::<HashSet<u16>>())
}

fn reason(result: PolicyResult) -> Option<String> {
    match result {
        PolicyResult::Accept => None,
        PolicyResult::Reject(reason) => Some(reason),
    }
}

#[test]
fn an_event_keeps_what_it_was_built_from() {
    let e = Event::new([0xaa; 32], 1_700_000_000, 1, "{\"kind\":1}".to_string()).unwrap();
    assert_eq!(e.id(), &[0xaa; 32]);
    assert_eq!(e.created_at(), 1_700_000_000);
    assert_eq!(e.kind(), 1);
    assert_eq!(e.as_json(), "{\"kind\":1}");
}

#[test]
fn an_event_of_more_than_one_line_is_refused() {
    assert!(Event::new([1; 32], 0, 1, "{\"a\":1}\n".to_string()).is_none());
    assert!(Event::new([1; 32], 0, 1, "\n".to_string()).is_none());
    assert!(Event::new([1; 32], 0, 1, "{\n}".to_string()).is_none());
    assert!(Event::new([1; 32], 0, 1, "".to_string()).is_some());
    assert!(Event::new([1; 32], 0, 1, "{\"a\":\"\\n\"}".to_string()).is_some());
    assert!(Event::new([1; 32], 0, 1, "{\"a\":\"\r\"}".to_string()).is_some());
}

#[test]
fn queries_are_never_admitted() {
    assert_eq!(reason(NoQuery.admit_query()), Some("queries not allowed".to_string()));
}

#[test]
fn the_kind_allowlist_admits_its_kinds_only() {
    let policy = kinds(&[1, 3]);
    assert_eq!(reason(policy.admit_event(&event(1))), None);
    assert_eq!(reason(policy.admit_event(&event(3))), None);
    assert_eq!(reason(policy.admit_event(&event(2))), Some("Kind not accepted".to_string()));
    assert_eq!(reason(policy.admit_event(&event(0))), Some("Kind not accepted".to_string()));
    let nothing = kinds(&[]);
    assert_eq!(reason(nothing.admit_event(&event(1))), Some("Kind not accepted".to_string()));
}

#[test]
fn ephemeral_kinds_are_rejected() {
    let rejected = Some("Ephemeral kind not accepted".to_string());
    assert_eq!(reason(EphemeralPolicy.admit_event(&event(20000))), rejected);
    assert_eq!(reason(EphemeralPolicy.admit_event(&event(25000))), rejected);
    assert_eq!(reason(EphemeralPolicy.admit_event(&event(29999))), rejected);
    assert_eq!(reason(EphemeralPolicy.admit_event(&event(19999))), None);
    assert_eq!(reason(EphemeralPolicy.admit_event(&event(30000))), None);
    assert_eq!(reason(EphemeralPolicy.admit_event(&event(0))), None);
    assert_eq!(reason(EphemeralPolicy.admit_event(&event(u16::MAX))), None);
}

#[test]
fn a_chain_stops_at_the_first_rejection() {
    let chain = vec![
        WritePolicy::Ephemeral(EphemeralPolicy),
        WritePolicy::Kinds(kinds(&[1, 20001])),
    ];
    assert_eq!(reason(evaluate(&chain, &event(1))), None);
    assert_eq!(reason(evaluate(&chain, &event(2))), Some("Kind not accepted".to_string()));
    // both policies reject kind 20002, the first one gives the reason
    assert_eq!(
        reason(evaluate(&chain, &event(20002))),
        Some("Ephemeral kind not accepted".to_string())
    );
    assert_eq!(
        reason(evaluate(&chain, &event(20001))),
        Some("Ephemeral kind not accepted".to_string())
    );
    let reversed = vec![
        WritePolicy::Kinds(kinds(&[1, 20001])),
        WritePolicy::Ephemeral(EphemeralPolicy),
    ];
    assert_eq!(reason(evaluate(&reversed, &event(20002))), Some("Kind not accepted".to_string()));
    assert_eq!(
        reason(evaluate(&reversed, &event(20001))),
        Some("Ephemeral kind not accepted".to_string())
    );
}

#[test]
fn a_configured_chain_always_rejects_ephemeral_kinds() {
    let open = configured_chain(None);
    assert_eq!(open.len(), 1);
    assert_eq!(reason(evaluate(&open, &event(1))), None);
    assert_eq!(reason(evaluate(&open, &event(40000))), None);
    assert_eq!(
        reason(evaluate(&open, &event(20000))),
        Some("Ephemeral kind not accepted".to_string())
    );
    let listed = configured_chain(Some([1u16, 3, 20001].into_iter().collect::<HashSet<u16>>()));
    assert_eq!(listed.len(), 2);
    assert_eq!(reason(evaluate(&listed, &event(3))), None);
    assert_eq!(reason(evaluate(&listed, &event(2))), Some("Kind not accepted".to_string()));
    assert_eq!(
        reason(evaluate(&listed, &event(20001))),
        Some("Ephemeral kind not accepted".to_string())
    );
}

#[test]
fn an_empty_chain_admits_everything() {
    let chain: Vec<WritePolicy> = Vec::new();
    assert_eq!(reason(evaluate(&chain, &event(20000))), None);
    assert_eq!(reason(evaluate(&chain, &event(1))), None);
}

#[test]
fn creation_times_are_stored_as_eight_bytes_least_significant_first() {
    assert_eq!(encode_stamp(0), vec![0, 0, 0, 0, 0, 0, 0, 0]);
    assert_eq!(encode_stamp(1), vec![1, 0, 0, 0, 0, 0, 0, 0]);
    assert_eq!(encode_stamp(1_700_000_000), vec![0x00, 0xf1, 0x53, 0x65, 0, 0, 0, 0]);
    assert_eq!(encode_stamp(u64::MAX), vec![255; 8]);
    assert_eq!(encode_stamp(0x0102030405060708), vec![8, 7, 6, 5, 4, 3, 2, 1]);
}

#[test]
fn stored_values_of_another_length_read_as_zero() {
    assert_eq!(decode_stamp(&[0x00, 0xf1, 0x53, 0x65, 0, 0, 0, 0]), 1_700_000_000);
    assert_eq!(decode_stamp(&[8, 7, 6, 5, 4, 3, 2, 1]), 0x0102030405060708);
    assert_eq!(decode_stamp(&[]), 0);
    assert_eq!(decode_stamp(&[1]), 0);
    assert_eq!(decode_stamp(&[1, 2, 3, 4, 5, 6, 7]), 0);
    assert_eq!(decode_stamp(&[1, 2, 3, 4, 5, 6, 7, 8, 9]), 0);
}

#[test]
fn a_creation_time_is_read_back_as_written() {
    for t in [0u64, 1, 255, 256, 1_700_000_000, u64::MAX - 1, u64::MAX] {
        assert_eq!(decode_stamp(&encode_stamp(t)), t);
    }
}

#[test]
fn decoding_stops_before_the_first_key_that_is_no_identifier() {
    let items = vec![
        (vec![1u8; 32], encode_stamp(10)),
        (vec![2u8; 32], vec![]),
        (vec![3u8; 31], encode_stamp(30)),
        (vec![4u8; 32], encode_stamp(40)),
    ];
    assert_eq!(decode_ids(&items), vec![(vec![1u8; 32], 10), (vec![2u8; 32], 0)]);
    assert_eq!(decode_ids(&Vec::new()), Vec::<(Vec<u8>, u64)>::new());
    let long = vec![(vec![9u8; 33], encode_stamp(1))];
    assert_eq!(decode_ids(&long), Vec::<(Vec<u8>, u64)>::new());
}

#[test]
fn corruption_alone_is_fatal() {
    assert!(IndexError::Corruption.is_fatal());
    assert!(!IndexError::Io.is_fatal());
    assert!(!IndexError::CollectionNotFound.is_fatal());
    assert!(!IndexError::Unsupported.is_fatal());
    assert!(!IndexError::ReportableBug.is_fatal());
}

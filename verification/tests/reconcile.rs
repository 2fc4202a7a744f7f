use dns_rs::address::Ipv6Address;
use dns_rs::reconcile::{
    bytes_contain, classify_update, describe_record_list_payload, reconcile, ModifyRecord,
    Reconciliation, UpdateOutcome,
};
use dns_rs::response::Record;

fn record(id: i64, kind: &str, value: &str, line: &str, name: &str) -> Record {
    Record {
        record_id: id,
        value: value.to_string(),
        status: "ENABLE".to_string(),
        updated_on: "2024-01-01 00:00:00".to_string(),
        name: name.to_string(),
        line: line.to_string(),
        line_id: "0".to_string(),
        record_type: kind.to_string(),
        weight: None,
        monitor_status: String::new(),
        remark: String::new(),
        ttl: 600,
        mx: 0,
        default_ns: false,
    }
}

fn address(last: u16) -> Ipv6Address {
    Ipv6Address::new([0x2001, 0x0db8, 0, 0, 0, 0, 0, last])
}

fn object(members: Vec<(&str, serde_json::Value)>) -> String {
    let mut map = serde_json::Map::new();
    for (key, value) in members {
        map.insert(key.to_string(), value);
    }
    serde_json::Value::Object(map).to_string()
}

#[test]
fn no_drift_issues_no_update() {
    let records = vec![record(1, "AAAA", "2001:db8::1", "默认", "@")];
    let decision = reconcile("example.com", &records, &vec![address(1)]);
    assert!(matches!(decision, Reconciliation::InSync));
}

#[test]
fn no_drift_is_judged_by_the_first_record_alone() {
    let records = vec![
        record(1, "AAAA", "2001:db8::1", "默认", "@"),
        record(2, "AAAA", "2001:db8::7", "默认", "www"),
    ];
    let decision = reconcile("example.com", &records, &vec![address(1), address(7)]);
    assert!(matches!(decision, Reconciliation::InSync));
}

#[test]
fn drift_updates_one_record() {
    let records = vec![record(1, "AAAA", "2001:db8::1", "默认", "@")];
    let decision = reconcile("example.com", &records, &vec![address(2)]);
    let updates = match decision {
        Reconciliation::Drift(updates) => updates,
        other => panic!("no drift found: {:?}", other),
    };
    assert_eq!(updates.len(), 1);
    assert_eq!(updates[0].old_value, "2001:db8::1");
    assert_eq!(updates[0].request.value, "2001:db8::2");
    assert_eq!(updates[0].request.record_id, 1);
    assert_eq!(updates[0].request.domain, "example.com");
    assert_eq!(updates[0].request.record_type, "AAAA");
    assert_eq!(updates[0].request.record_line, "默认");
    assert_eq!(updates[0].request.sub_domain, "@");
    assert_eq!(
        updates[0].request.payload(),
        "{\"Domain\":\"example.com\",\"RecordId\":1,\"RecordLine\":\"默认\",\"RecordType\":\"AAAA\",\"SubDomain\":\"@\",\"Value\":\"2001:db8::2\"}"
    );
}

#[test]
fn drift_updates_every_aaaa_record_and_no_other() {
    let records = vec![
        record(5, "MX", "mail.example.com.", "默认", "@"),
        record(1, "AAAA", "2001:db8::1", "默认", "@"),
        record(6, "A", "192.0.2.1", "默认", "@"),
        record(2, "AAAA", "2001:db8::2", "电信", "www"),
        record(3, "AAAA", "2001:db8::3", "联通", "api"),
    ];
    let decision = reconcile("example.com", &records, &vec![address(2), address(9)]);
    let updates = match decision {
        Reconciliation::Drift(updates) => updates,
        other => panic!("no drift found: {:?}", other),
    };
    let seen: Vec<(i64, &str, &str, &str, &str)> = updates
        .iter()
        .map(|u| {
            (
                u.request.record_id,
                u.request.record_line.as_str(),
                u.request.sub_domain.as_str(),
                u.old_value.as_str(),
                u.request.value.as_str(),
            )
        })
        .collect();
    assert_eq!(
        seen,
        vec![
            (1, "默认", "@", "2001:db8::1", "2001:db8::2"),
            (2, "电信", "www", "2001:db8::2", "2001:db8::2"),
            (3, "联通", "api", "2001:db8::3", "2001:db8::2"),
        ]
    );
}

#[test]
fn no_aaaa_record_is_nothing_to_reconcile() {
    let decision = reconcile("example.com", &vec![], &vec![address(2)]);
    assert!(matches!(decision, Reconciliation::NoRecord));
    let others = vec![record(5, "MX", "mail.example.com.", "默认", "@")];
    assert!(matches!(reconcile("example.com", &others, &vec![address(2)]), Reconciliation::NoRecord));
    assert!(matches!(reconcile("example.com", &others, &vec![]), Reconciliation::NoRecord));
}

#[test]
fn no_local_address_is_nothing_to_publish() {
    let records = vec![record(1, "AAAA", "2001:db8::1", "默认", "@")];
    assert!(matches!(reconcile("example.com", &records, &vec![]), Reconciliation::NoLocalAddress));
}

#[test]
fn record_type_is_matched_exactly() {
    let records = vec![record(1, "aaaa", "2001:db8::1", "默认", "@")];
    assert!(matches!(reconcile("example.com", &records, &vec![address(2)]), Reconciliation::NoRecord));
    assert!(record(1, "AAAA", "", "", "").is_aaaa());
    assert!(!record(1, "AAAAA", "", "", "").is_aaaa());
    assert!(!record(1, "", "", "", "").is_aaaa());
}

#[test]
fn value_is_compared_as_text() {
    let records = vec![record(1, "AAAA", "2001:0db8::1", "默认", "@")];
    let decision = reconcile("example.com", &records, &vec![address(1)]);
    assert!(matches!(decision, Reconciliation::Drift(_)));
}

#[test]
fn describe_record_list_payload_names_the_domain() {
    assert_eq!(describe_record_list_payload("example.com"), "{\"Domain\":\"example.com\"}");
    assert_eq!(
        describe_record_list_payload("a\"b\\c\n"),
        object(vec![("Domain", serde_json::Value::String("a\"b\\c\n".to_string()))])
    );
}

#[test]
fn modify_record_payload_matches_serde_json() {
    let request = ModifyRecord {
        domain: "exa\"mple.com".to_string(),
        record_type: "AAAA".to_string(),
        record_line: "默认".to_string(),
        value: "2001:db8::2".to_string(),
        record_id: -9007199254740993,
        sub_domain: "@\t".to_string(),
    };
    let expected = object(vec![
        ("Domain", serde_json::Value::String("exa\"mple.com".to_string())),
        ("RecordType", serde_json::Value::String("AAAA".to_string())),
        ("RecordLine", serde_json::Value::String("默认".to_string())),
        ("Value", serde_json::Value::String("2001:db8::2".to_string())),
        ("RecordId", serde_json::Value::from(-9007199254740993i64)),
        ("SubDomain", serde_json::Value::String("@\t".to_string())),
    ]);
    assert_eq!(request.payload(), expected);
    assert_eq!(
        request.payload(),
        "{\"Domain\":\"exa\\\"mple.com\",\"RecordId\":-9007199254740993,\"RecordLine\":\"默认\",\"RecordType\":\"AAAA\",\"SubDomain\":\"@\\t\",\"Value\":\"2001:db8::2\"}"
    );
}

#[test]
fn answer_with_error_is_rejected() {
    assert_eq!(
        classify_update("{\"Response\":{\"Error\":{\"Code\":\"AuthFailure\"},\"RequestId\":\"x\"}}"),
        UpdateOutcome::Rejected
    );
    assert_eq!(classify_update("Error"), UpdateOutcome::Rejected);
    assert_eq!(classify_update("xxError"), UpdateOutcome::Rejected);
    assert_eq!(classify_update("Errorxx"), UpdateOutcome::Rejected);
}

#[test]
fn answer_without_error_is_an_update() {
    assert_eq!(
        classify_update("{\"Response\":{\"RecordId\":1,\"RequestId\":\"x\"}}"),
        UpdateOutcome::Updated
    );
    assert_eq!(classify_update(""), UpdateOutcome::Updated);
    assert_eq!(classify_update("error"), UpdateOutcome::Updated);
    assert_eq!(classify_update("Erro"), UpdateOutcome::Updated);
    assert_eq!(classify_update("Err or"), UpdateOutcome::Updated);
    assert_eq!(classify_update("错误"), UpdateOutcome::Updated);
}

#[test]
fn bytes_contain_finds_every_place() {
    assert!(bytes_contain(b"abc", b""));
    assert!(bytes_contain(b"", b""));
    assert!(!bytes_contain(b"", b"a"));
    assert!(bytes_contain(b"abc", b"abc"));
    assert!(bytes_contain(b"abc", b"bc"));
    assert!(bytes_contain(b"aab", b"ab"));
    assert!(!bytes_contain(b"abc", b"abcd"));
    assert!(!bytes_contain(b"abc", b"ac"));
}

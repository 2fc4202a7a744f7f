use dns_rs::response::Record;
use dns_rs::tick::{Tick, TickAction, TickEvent, TickOutcome};

const TABLE_2: &str = "fe80000000000000021122fffe334455 02 40 20 80     eth0\n\
20010db8000000000000000000000002 02 40 00 00     eth0\n";

fn aaaa(id: i64, value: &str, line: &str, name: &str) -> Record {
    Record {
        record_id: id,
        value: value.to_string(),
        status: "ENABLE".to_string(),
        updated_on: String::new(),
        name: name.to_string(),
        line: line.to_string(),
        line_id: "0".to_string(),
        record_type: "AAAA".to_string(),
        weight: None,
        monitor_status: String::new(),
        remark: String::new(),
        ttl: 600,
        mx: 0,
        default_ns: false,
    }
}

fn begun() -> Tick {
    let (tick, action) = Tick::start("example.com", "eth0");
    match action {
        TickAction::FetchRecords { payload } => {
            assert_eq!(payload, "{\"Domain\":\"example.com\"}")
        }
        other => panic!("unexpected action: {:?}", other),
    }
    assert_eq!(tick.outcome(), None);
    tick
}

fn with_records(records: Vec<Record>) -> Tick {
    let (tick, action) = begun().step(TickEvent::Records(records));
    assert!(matches!(action, TickAction::ReadTable));
    assert_eq!(tick.outcome(), None);
    tick
}

fn sleeps(tick: &Tick, action: &TickAction, expected: TickOutcome) {
    match action {
        TickAction::Sleep { outcome } => assert_eq!(*outcome, expected),
        other => panic!("unexpected action: {:?}", other),
    }
    assert_eq!(tick.outcome(), Some(expected));
}

fn sent_id(action: &TickAction) -> i64 {
    match action {
        TickAction::SendUpdate { record_id, .. } => *record_id,
        other => panic!("unexpected action: {:?}", other),
    }
}

#[test]
fn example_domain_with_one_record_gets_one_update() {
    let tick = with_records(vec![aaaa(1, "2001:db8::1", "默认", "@")]);
    let (tick, action) = tick.step(TickEvent::Table(TABLE_2.to_string()));
    match &action {
        TickAction::SendUpdate { record_id, old_value, new_value, payload } => {
            assert_eq!(*record_id, 1);
            assert_eq!(old_value, "2001:db8::1");
            assert_eq!(new_value, "2001:db8::2");
            let parsed: serde_json::Value = serde_json::from_str(payload).unwrap();
            assert_eq!(parsed["Value"], serde_json::Value::String("2001:db8::2".to_string()));
            assert_eq!(parsed["RecordId"], serde_json::Value::from(1));
            assert_eq!(parsed["Domain"], serde_json::Value::String("example.com".to_string()));
            assert_eq!(parsed["RecordType"], serde_json::Value::String("AAAA".to_string()));
            assert_eq!(parsed["RecordLine"], serde_json::Value::String("默认".to_string()));
            assert_eq!(parsed["SubDomain"], serde_json::Value::String("@".to_string()));
            assert_eq!(parsed.as_object().unwrap().len(), 6);
        }
        other => panic!("unexpected action: {:?}", other),
    }
    assert_eq!(tick.outcome(), None);
    let (tick, action) = tick.step(TickEvent::UpdateAnswered("{\"Response\":{}}".to_string()));
    sleeps(&tick, &action, TickOutcome::Updated { records: 1 });
}

#[test]
fn tick_in_sync_sends_no_update() {
    let tick = with_records(vec![aaaa(1, "2001:db8::2", "默认", "@")]);
    let (tick, action) = tick.step(TickEvent::Table(TABLE_2.to_string()));
    sleeps(&tick, &action, TickOutcome::InSync);
    let (tick, action) = tick.step(TickEvent::UpdateFailed);
    sleeps(&tick, &action, TickOutcome::InSync);
    let (tick, action) = tick.step(TickEvent::Table(String::new()));
    sleeps(&tick, &action, TickOutcome::InSync);
}

#[test]
fn every_record_is_sent_once_whatever_the_answers() {
    let records = vec![
        aaaa(1, "2001:db8::1", "默认", "@"),
        aaaa(2, "2001:db8::1", "默认", "www"),
        aaaa(3, "2001:db8::2", "默认", "api"),
    ];
    let tick = with_records(records);
    let (tick, action) = tick.step(TickEvent::Table(TABLE_2.to_string()));
    assert_eq!(sent_id(&action), 1);
    let (tick, action) = tick.step(TickEvent::UpdateFailed);
    assert_eq!(sent_id(&action), 2);
    let (tick, action) =
        tick.step(TickEvent::UpdateAnswered("{\"Response\":{\"Error\":{}}}".to_string()));
    assert_eq!(sent_id(&action), 3);
    let (tick, action) = tick.step(TickEvent::UpdateAnswered("{}".to_string()));
    sleeps(&tick, &action, TickOutcome::UpdateFailed { failed: 2, records: 3 });
}

#[test]
fn all_updates_succeeding_end_as_updated() {
    let tick = with_records(vec![aaaa(1, "::1", "默认", "@"), aaaa(2, "::1", "默认", "www")]);
    let (tick, action) = tick.step(TickEvent::Table(TABLE_2.to_string()));
    assert_eq!(sent_id(&action), 1);
    let (tick, action) = tick.step(TickEvent::UpdateAnswered("ok".to_string()));
    assert_eq!(sent_id(&action), 2);
    let (tick, action) = tick.step(TickEvent::UpdateAnswered("ok".to_string()));
    sleeps(&tick, &action, TickOutcome::Updated { records: 2 });
}

#[test]
fn failed_fetch_ends_the_tick() {
    let (tick, action) = begun().step(TickEvent::FetchFailed);
    sleeps(&tick, &action, TickOutcome::FetchFailed);
}

#[test]
fn unreadable_table_ends_the_tick() {
    let tick = with_records(vec![aaaa(1, "2001:db8::1", "默认", "@")]);
    let (tick, action) = tick.step(TickEvent::TableUnreadable);
    sleeps(&tick, &action, TickOutcome::TableUnreadable);
}

#[test]
fn malformed_table_ends_the_tick() {
    let tick = with_records(vec![aaaa(1, "2001:db8::1", "默认", "@")]);
    let (tick, action) = tick.step(TickEvent::Table("lo\nbad eth0\n".to_string()));
    sleeps(&tick, &action, TickOutcome::MalformedTable { line: 1 });
}

#[test]
fn no_record_and_no_address_end_the_tick() {
    let (tick, action) = with_records(vec![]).step(TickEvent::Table(TABLE_2.to_string()));
    sleeps(&tick, &action, TickOutcome::NoRecord);
    let tick = with_records(vec![aaaa(1, "2001:db8::1", "默认", "@")]);
    let (tick, action) = tick.step(TickEvent::Table(String::new()));
    sleeps(&tick, &action, TickOutcome::NoLocalAddress);
    let (tick, action) = with_records(vec![]).step(TickEvent::Table(String::new()));
    sleeps(&tick, &action, TickOutcome::NoRecord);
}

#[test]
fn event_that_answers_nothing_aborts_the_tick() {
    let (tick, action) = begun().step(TickEvent::Table(TABLE_2.to_string()));
    sleeps(&tick, &action, TickOutcome::Aborted);
    let (tick, action) = begun().step(TickEvent::UpdateFailed);
    sleeps(&tick, &action, TickOutcome::Aborted);
    let tick = with_records(vec![aaaa(1, "2001:db8::1", "默认", "@")]);
    let (tick, action) = tick.step(TickEvent::Records(vec![]));
    sleeps(&tick, &action, TickOutcome::Aborted);
    let tick = with_records(vec![aaaa(1, "2001:db8::1", "默认", "@")]);
    let (tick, _) = tick.step(TickEvent::Table(TABLE_2.to_string()));
    let (tick, action) = tick.step(TickEvent::FetchFailed);
    sleeps(&tick, &action, TickOutcome::Aborted);
}

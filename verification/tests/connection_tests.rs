use dxclrecorder::configuration::Connection;
use dxclrecorder::connection::{
    parse_constring, ConnectAction, ConnectEvent, ConnectPhase, ConnectTask, RetryBudget,
};
use dxclrecorder::recorder::{listeners_from_config, RecordError};

fn parsed(raw: &str) -> Option<(String, String, u16)> {
    parse_constring(raw).map(|i| (i.callsign, i.host, i.port))
}

fn some(call: &str, host: &str, port: u16) -> Option<(String, String, u16)> {
    Some((call.to_string(), host.to_string(), port))
}

#[test]
fn constring_plain() {
    assert_eq!(parsed("DL1ABC@dxc.example.org:7300"), some("DL1ABC", "dxc.example.org", 7300));
}

#[test]
fn constring_port_bounds() {
    assert_eq!(parsed("a@b:0"), some("a", "b", 0));
    assert_eq!(parsed("a@b:65535"), some("a", "b", 65535));
    assert_eq!(parsed("a@b:65536"), None);
    assert_eq!(parsed("a@b:0080"), some("a", "b", 80));
    assert_eq!(parsed("a@b:99999999999999999999"), None);
}

#[test]
fn constring_greedy_callsign() {
    assert_eq!(parsed("u@h@x:1"), some("u@h", "x", 1));
    assert_eq!(parsed("a@b@:80"), some("a", "b@", 80));
    assert_eq!(parsed("a@b:c:80"), some("a", "b:c", 80));
}

#[test]
fn constring_malformed() {
    assert_eq!(parsed(""), None);
    assert_eq!(parsed("a@b"), None);
    assert_eq!(parsed("a@b:"), None);
    assert_eq!(parsed("@b:80"), None);
    assert_eq!(parsed("a@:80"), None);
    assert_eq!(parsed("ab:80"), None);
    assert_eq!(parsed("a@b:8x0"), None);
    assert_eq!(parsed("a@b:+80"), None);
    assert_eq!(parsed("a@b:80\n"), None);
    assert_eq!(parsed("a\n@b:80"), None);
    assert_eq!(parsed("a@b:\u{0663}"), None);
}

#[test]
fn constring_round_trip_with_display_form() {
    let text = format!("{}@{}:{}", "OE1XYZ", "cluster.example:net", 23);
    assert_eq!(parsed(&text), some("OE1XYZ", "cluster.example:net", 23));
}

fn connection(constrings: &[&str]) -> Connection {
    Connection {
        constrings: constrings.iter().map(|s| s.to_string()).collect(),
        reconnect: true,
        retries: 3,
        backoff: 10,
    }
}

#[test]
fn listeners_none_configured() {
    match listeners_from_config(&connection(&[])) {
        Err(RecordError::InvalidConfiguration(msg)) => {
            assert_eq!(msg, "No connection strings found")
        },
        _ => panic!("expected an invalid configuration"),
    }
}

#[test]
fn listeners_invalid_string() {
    let r = listeners_from_config(&connection(&["a@b:1", "broken"]));
    assert!(matches!(r, Err(RecordError::InvalidConnectionString)));
}

#[test]
fn listeners_all_valid() {
    let r = listeners_from_config(&connection(&["a@b:1", "CALL@host.example:7300"])).unwrap();
    assert_eq!(r.len(), 2);
    assert_eq!((r[0].callsign.as_str(), r[0].host.as_str(), r[0].port), ("a", "b", 1));
    assert_eq!(
        (r[1].callsign.as_str(), r[1].host.as_str(), r[1].port),
        ("CALL", "host.example", 7300)
    );
}

#[test]
fn retry_budget_gives_up_at_last_attempt() {
    let mut b = RetryBudget::new(3);
    assert_eq!(b.remaining(), 3);
    assert!(!b.record_failure());
    assert!(!b.record_failure());
    assert!(b.record_failure());
    assert_eq!(b.remaining(), 0);
}

#[test]
fn retry_budget_single_attempt() {
    let mut b = RetryBudget::new(1);
    assert!(b.record_failure());
}

#[test]
fn retry_budget_zero_gives_up_at_first_failure() {
    let mut b = RetryBudget::new(0);
    assert!(b.record_failure());
    assert_eq!(b.remaining(), 0);
}

#[test]
fn connect_task_gives_up_after_retries() {
    let mut t = ConnectTask::new(2);
    assert_eq!(t.step(ConnectEvent::AttemptFailed), ConnectAction::Wait);
    assert_eq!(t.phase(), ConnectPhase::BackingOff);
    assert_eq!(t.step(ConnectEvent::BackoffElapsed), ConnectAction::Attempt);
    assert_eq!(t.step(ConnectEvent::AttemptFailed), ConnectAction::GiveUp);
    assert_eq!(t.phase(), ConnectPhase::Finished);
    assert_eq!(t.step(ConnectEvent::Connected), ConnectAction::Ignore);
}

#[test]
fn connect_task_zero_retries() {
    let mut t = ConnectTask::new(0);
    assert_eq!(t.step(ConnectEvent::AttemptFailed), ConnectAction::GiveUp);
}

#[test]
fn connect_task_connects_or_stops() {
    let mut t = ConnectTask::new(3);
    assert_eq!(t.step(ConnectEvent::Connected), ConnectAction::Register);
    assert_eq!(t.phase(), ConnectPhase::Finished);

    let mut t = ConnectTask::new(3);
    assert_eq!(t.step(ConnectEvent::AttemptFailed), ConnectAction::Wait);
    assert_eq!(t.step(ConnectEvent::Shutdown), ConnectAction::Stop);
    assert_eq!(t.step(ConnectEvent::BackoffElapsed), ConnectAction::Ignore);

    let mut t = ConnectTask::new(3);
    assert_eq!(t.step(ConnectEvent::BackoffElapsed), ConnectAction::Ignore);
    assert_eq!(t.phase(), ConnectPhase::Connecting);
    assert_eq!(t.step(ConnectEvent::Shutdown), ConnectAction::Stop);
}

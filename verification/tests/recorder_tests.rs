use dxclrecorder::configuration::{Logging, LoggingFile};
use dxclrecorder::recorder::{logging_plan, supervise, LogLevel, SupervisorAction};

#[test]
fn supervise_listener_lost() {
    assert_eq!(supervise(1, 2, true, true, true), SupervisorAction::ListenerLost);
    assert_eq!(supervise(0, 1, false, false, false), SupervisorAction::ListenerLost);
}

#[test]
fn supervise_receiver_stopped() {
    assert_eq!(supervise(2, 2, false, true, true), SupervisorAction::ReceiverStopped);
}

#[test]
fn supervise_stopped_listener() {
    assert_eq!(supervise(2, 2, true, true, true), SupervisorAction::Reconnect);
    assert_eq!(supervise(2, 2, true, true, false), SupervisorAction::Forget);
}

#[test]
fn supervise_wait() {
    assert_eq!(supervise(3, 3, true, false, true), SupervisorAction::Wait);
}

#[test]
fn logging_setup() {
    let logging = Logging {
        console: true,
        file: LoggingFile { enabled: true, filename: "rec.log".to_string() },
    };
    let plan = logging_plan(&logging, true);
    assert_eq!(plan.level, LogLevel::Debug);
    assert!(plan.console);
    assert_eq!(plan.file, Some("rec.log".to_string()));

    let logging = Logging {
        console: false,
        file: LoggingFile { enabled: false, filename: "rec.log".to_string() },
    };
    let plan = logging_plan(&logging, false);
    assert_eq!(plan.level, LogLevel::Info);
    assert!(!plan.console);
    assert_eq!(plan.file, None);
}

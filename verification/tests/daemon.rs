use dryer::daemon::{ControllerDaemon, ControllerSession, DaemonState};
use dryer::protocol::{encode_queue_status, QueueStatus, QueueStatusFrame, QUEUE_STATUS_FRAME_LEN};

#[test]
fn daemon_registers_and_tracks_controller_sessions() {
    let mut daemon = ControllerDaemon::new();
    assert_eq!(daemon.state(), DaemonState::Uninitialized);

    daemon.register_controller("mcu1", 50_000);
    assert_eq!(daemon.state(), DaemonState::Connected);
    assert_eq!(daemon.active_controller_ids(), vec!["mcu1"]);

    let status = daemon.session_status("mcu1", 1000).unwrap();
    assert_eq!(status.controller_id, "mcu1");
    assert_eq!(status.heartbeat_timeout_us, 50_000);
    assert!(status.heartbeat_ok);
}

#[test]
fn daemon_detects_heartbeat_timeout_and_faults() {
    let mut daemon = ControllerDaemon::new();
    daemon.register_controller("mcu1", 10_000);

    daemon.record_heartbeat("mcu1", 1_000);
    assert!(daemon.audit_heartbeats(5_000).is_empty());
    assert_eq!(daemon.state(), DaemonState::Connected);

    let dead = daemon.audit_heartbeats(20_000);
    assert_eq!(dead, vec!["mcu1"]);
    assert_eq!(daemon.state(), DaemonState::Faulted);
}

#[test]
fn sessions_are_kept_in_id_order_and_reregistration_resets() {
    let mut daemon = ControllerDaemon::default();
    daemon.register_controller("toolhead", 5);
    daemon.register_controller("bed", 5);
    daemon.register_controller("mainboard", 5);
    assert_eq!(daemon.active_controller_ids(), vec!["bed", "mainboard", "toolhead"]);
    assert!(daemon.record_heartbeat("bed", 100));
    assert!(!daemon.record_heartbeat("unknown", 100));
    assert_eq!(daemon.session_status("bed", 100).unwrap().last_seen_host_us, 100);
    daemon.register_controller("bed", 9);
    let bed = daemon.session_status("bed", 100).unwrap();
    assert_eq!(bed.last_seen_host_us, 0);
    assert_eq!(bed.heartbeat_timeout_us, 9);
    assert!(daemon.session_status("unknown", 0).is_none());
    let summary = daemon.daemon_status_summary(0);
    assert_eq!(summary.len(), 3);
    assert_eq!(summary[2].controller_id, "toolhead");
}

#[test]
fn queue_reports_are_recorded_as_heartbeats() {
    let mut daemon = ControllerDaemon::new();
    daemon.register_controller("mcu1", 1_000);
    let status = QueueStatus {
        capacity: 32,
        fill: 3,
        earliest_accepted: 10,
        latest_accepted: 20,
        underrun: true,
    };
    let mut frame = [0u8; QUEUE_STATUS_FRAME_LEN];
    let written = encode_queue_status(&QueueStatusFrame { sequence: 7, status }, &mut frame).unwrap();
    assert_eq!(daemon.update_queue_status("mcu1", &frame[..written], 400).unwrap(), status);
    let snapshot = daemon.session_status("mcu1", 1_500).unwrap();
    assert_eq!(snapshot.queue_capacity, 32);
    assert_eq!(snapshot.queue_fill, 3);
    assert!(snapshot.underrun);
    assert_eq!(snapshot.last_seen_host_us, 400);
    assert!(!snapshot.heartbeat_ok);
    assert!(daemon.update_queue_status("mcu1", &frame[..3], 500).is_err());
    assert_eq!(daemon.session_status("mcu1", 0).unwrap().last_seen_host_us, 400);
    assert_eq!(daemon.audit_heartbeats(1_500), vec!["mcu1"]);
    daemon.register_controller("mcu2", 1);
    assert_eq!(daemon.state(), DaemonState::Faulted);
}

#[test]
fn a_session_is_alive_until_its_timeout_has_passed() {
    let mut session = ControllerSession::new("x", 10);
    assert!(session.is_heartbeat_alive(1_000_000));
    session.record_heartbeat(100);
    assert!(session.is_heartbeat_alive(110));
    assert!(!session.is_heartbeat_alive(111));
    assert!(session.is_heartbeat_alive(50));
    assert_eq!(session.status(111).queue_capacity, 0);
}

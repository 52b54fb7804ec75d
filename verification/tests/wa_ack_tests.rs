//! The WhatsApp acknowledgement tracker: registration, acknowledgement,
//! warning decisions, replacement and expiry.

use sms_irc::wa::{WaAckLevel, WaAckTracker};

fn tracker() -> WaAckTracker {
    WaAckTracker::new(Some(5000), Some(10000), Some(60000))
}

fn send(t: &mut WaAckTracker, mid: &str, ts: u64) {
    t.register_send(
        mid.to_string(),
        "123456@s.whatsapp.net".to_string(),
        "hello there".to_string(),
        ts,
    );
}

#[test]
fn defaults_follow_the_missing_config_values() {
    let t = WaAckTracker::new(None, None, None);
    assert_eq!(t.ack_warn, 5000);
    assert_eq!(t.ack_warn_pending, 10000);
    assert_eq!(t.ack_expiry, 60000);
    assert!(t.entries.is_empty());
}

#[test]
fn an_unacked_message_warns_once_past_the_warning_age() {
    let mut t = tracker();
    send(&mut t, "MID1", 1000);
    let (failed, pending) = t.check_acks(2000);
    assert!(failed.is_empty() && pending.is_empty());
    let (failed, pending) = t.check_acks(7000);
    assert_eq!(failed, vec!["MID1".to_string()]);
    assert!(pending.is_empty());
    let (failed, _) = t.check_acks(8000);
    assert!(failed.is_empty());
    assert_eq!(t.entries.len(), 1);
}

#[test]
fn a_pending_message_warns_past_the_pending_age_and_never_expires() {
    let mut t = tracker();
    send(&mut t, "MID2", 0);
    t.on_message_ack("MID2", WaAckLevel::PendingSend);
    let (failed, pending) = t.check_acks(11000);
    assert!(failed.is_empty());
    assert_eq!(pending, vec!["MID2".to_string()]);
    let (_, pending) = t.check_acks(12000);
    assert!(pending.is_empty());
    t.check_acks(1_000_000);
    assert_eq!(t.entries.len(), 1);
}

#[test]
fn an_acknowledged_message_expires_after_the_expiry_age() {
    let mut t = tracker();
    send(&mut t, "MID3", 0);
    t.on_message_ack("MID3", WaAckLevel::Received);
    t.check_acks(59_999);
    assert_eq!(t.entries.len(), 1);
    t.check_acks(60_000);
    assert!(t.entries.is_empty());
}

#[test]
fn reregistering_an_id_replaces_its_entry() {
    let mut t = tracker();
    send(&mut t, "MID4", 0);
    t.on_message_ack("MID4", WaAckLevel::Read);
    send(&mut t, "MID4", 5);
    assert_eq!(t.entries.len(), 1);
    assert!(t.entries[0].ack_level.is_none());
    assert_eq!(t.entries[0].sent_ts, 5);
}

#[test]
fn an_unknown_ack_changes_nothing() {
    let mut t = tracker();
    send(&mut t, "MID5", 0);
    t.on_message_ack("OTHER", WaAckLevel::Read);
    assert_eq!(t.entries.len(), 1);
    assert!(t.entries[0].ack_level.is_none());
}

#[test]
fn a_clock_running_backwards_alerts_nobody() {
    let mut t = tracker();
    send(&mut t, "MID6", 50_000);
    let (failed, pending) = t.check_acks(0);
    assert!(failed.is_empty() && pending.is_empty());
    assert_eq!(t.entries.len(), 1);
}

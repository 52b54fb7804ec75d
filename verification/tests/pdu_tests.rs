//! Raw-PDU handling through the public API, with real wire bytes: the
//! decoder runs inside `store_incoming_sms` and the delivery path.

use sms_irc::addr::{parse_addr, PduAddr, TypeOfNumber, Npi};
use sms_irc::comm::{SmsIncoming, SmsStatus};
use sms_irc::config::InspConfig;
use sms_irc::insp_s2s::{InspLink, LinkState};
use sms_irc::line::IrcLine;
use sms_irc::modem::store_incoming_sms;
use sms_irc::store::Store;

/// A classic single-part SMS-DELIVER: "How are you?" from +31641600986.
fn simple_pdu() -> Vec<u8> {
    vec![
        0x07, 0x91, 0x13, 0x26, 0x04, 0x00, 0x00, 0xF0, 0x04, 0x0B, 0x91, 0x13, 0x46, 0x61,
        0x00, 0x89, 0xF6, 0x00, 0x00, 0x20, 0x80, 0x62, 0x91, 0x73, 0x14, 0x80, 0x0C, 0xC8,
        0xF7, 0x1D, 0x14, 0x96, 0x97, 0x41, 0xF9, 0x77, 0xFD, 0x07,
    ]
}

/// One crafted UCS-2 part of a concatenated message: reference 42, the
/// given part count and sequence number, and the given text characters.
fn concat_part(parts: u8, seq: u8, text: &str) -> Vec<u8> {
    let mut pdu: Vec<u8> = vec![
        0x00, // no SMSC information
        0x44, // SMS-DELIVER with a user data header
        0x02, 0x81, 0x12, // originating address: two digits, "21"
        0x00, // protocol identifier
        0x08, // data coding scheme: UCS-2
        0x11, 0x11, 0x11, 0x11, 0x11, 0x11, 0x11, // service centre timestamp
    ];
    let mut ud: Vec<u8> = vec![0x05, 0x00, 0x03, 0x2A, parts, seq];
    for c in text.chars() {
        let v = c as u32;
        ud.push((v >> 8) as u8);
        ud.push((v & 0xFF) as u8);
    }
    pdu.push(ud.len() as u8);
    pdu.extend_from_slice(&ud);
    pdu
}

fn test_cfg() -> InspConfig {
    InspConfig {
        sid: "1SM".to_string(),
        control_nick: "smsirc".to_string(),
        admin_nick: "boss".to_string(),
        sendpass: "sendpw".to_string(),
        recvpass: "recvpw".to_string(),
        server_desc: "bridge".to_string(),
        server_name: "sms.example".to_string(),
        log_chan: "#smsirc".to_string(),
        hostname: "peer.example".to_string(),
        port: 7000,
        set_topics: false,
        clobber_topics: false,
        ensure_joined: false,
    }
}

fn raw(prefix: Option<&str>, cmd: &str, args: &[&str], suffix: Option<&str>) -> IrcLine {
    IrcLine {
        prefix: prefix.map(|p| p.to_string()),
        command: cmd.to_string(),
        args: args.iter().map(|a| a.to_string()).collect(),
        suffix: suffix.map(|s| s.to_string()),
    }
}

fn part_sender() -> PduAddr {
    // the crafted parts come from the two-digit number "21"
    PduAddr { ton: TypeOfNumber::Unknown, npi: Npi::IsdnTelephone, digits: vec![2, 1] }
}

#[test]
fn incoming_sms_records_the_concatenation_reference() {
    let mut st = Store::new();
    let sms = SmsIncoming {
        status: SmsStatus::ReceivedUnread,
        addr: part_sender(),
        raw_pdu: concat_part(2, 1, "AB"),
    };
    let m = store_incoming_sms(&mut st, &sms, 10).expect("stored");
    assert_eq!(m.csms_data, Some(42), "the decoder found the reference");
}

#[test]
fn incoming_simple_sms_has_no_concatenation_reference() {
    let mut st = Store::new();
    let sms = SmsIncoming {
        status: SmsStatus::ReceivedUnread,
        addr: parse_addr("+31641600986"),
        raw_pdu: simple_pdu(),
    };
    let m = store_incoming_sms(&mut st, &sms, 10).expect("stored");
    assert_eq!(m.csms_data, None);
}

#[test]
fn already_read_sms_is_not_stored() {
    let mut st = Store::new();
    let sms = SmsIncoming {
        status: SmsStatus::ReceivedRead,
        addr: part_sender(),
        raw_pdu: simple_pdu(),
    };
    assert!(store_incoming_sms(&mut st, &sms, 10).is_none());
    assert_eq!(st.get_all_messages().len(), 0);
}

fn linked_with_admin(store: Store) -> InspLink {
    let mut link = InspLink::new(test_cfg(), store);
    link.do_capab_and_server();
    let server = raw(None, "SERVER", &["peer.example", "recvpw", "0", "9FF"], Some("peer"));
    link.handle_remote_message(&server, 1000).expect("server accepted");
    let endburst = raw(Some("9FF"), "ENDBURST", &[], None);
    link.handle_remote_message(&endburst, 1001).expect("endburst accepted");
    let admin = raw(
        Some("9FF"),
        "UID",
        &["9FFAAAAAA", "100", "boss", "h", "h", "ident", "127.0.0.1", "100", "+i"],
        Some("the admin"),
    );
    link.handle_remote_message(&admin, 1002).expect("admin arrives");
    link
}

#[test]
fn concatenated_delivery_waits_for_every_part() {
    let addr = part_sender();
    let mut store = Store::new();
    store.store_recipient(&addr, "S21");
    store_incoming_sms(&mut store, &SmsIncoming {
        status: SmsStatus::ReceivedUnread,
        addr: addr.clone(),
        raw_pdu: concat_part(2, 2, "CD"),
    }, 20).expect("part two stored");
    let mut link = linked_with_admin(store);
    // one of two parts: nothing is delivered, the row stays
    assert_eq!(link.store.get_all_messages().len(), 1);
    let delivered_early = link.outbox.iter().any(|l| l.suffix.as_deref() == Some("ABCD"));
    assert!(!delivered_early);
    // the missing part arrives, out of order
    store_incoming_sms(&mut link.store, &SmsIncoming {
        status: SmsStatus::ReceivedUnread,
        addr: addr.clone(),
        raw_pdu: concat_part(2, 1, "AB"),
    }, 21).expect("part one stored");
    link.process_messages(30).expect("delivery pass");
    let delivered = link.outbox.iter().any(|l| {
        l.command == "PRIVMSG" && l.args == vec!["9FFAAAAAA".to_string()]
            && l.suffix.as_deref() == Some("ABCD")
    });
    assert!(delivered, "the parts were joined in ascending sequence order");
    assert_eq!(link.store.get_all_messages().len(), 0, "every part row went away together");
}

#[test]
fn simple_pdu_delivers_its_text() {
    let addr = parse_addr("+31641600986");
    let mut store = Store::new();
    store.store_recipient(&addr, "S31641600986");
    store_incoming_sms(&mut store, &SmsIncoming {
        status: SmsStatus::ReceivedUnread,
        addr: addr.clone(),
        raw_pdu: simple_pdu(),
    }, 20).expect("stored");
    let mut link = linked_with_admin(store);
    let delivered = link.outbox.iter().any(|l| {
        l.command == "PRIVMSG" && l.suffix.as_deref() == Some("How are you?")
    });
    assert!(delivered, "the seven-bit text decoded");
    assert_eq!(link.store.get_all_messages().len(), 0);
    // nothing further to deliver on the next pass
    let before = link.outbox.len();
    link.process_messages(30).expect("second pass");
    assert_eq!(link.outbox.len(), before);
}

#[test]
fn undecodable_pdu_is_reported_and_kept() {
    let addr = part_sender();
    let mut store = Store::new();
    store.store_recipient(&addr, "S21");
    // bytes that parse as a PDU but carry a broken user data header
    store.store_sms_message(&addr, &vec![0x00], None, 20);
    let link = linked_with_admin(store);
    assert_eq!(link.store.get_all_messages().len(), 1, "the row stays for the next poll");
    let reported = link.outbox.iter().any(|l| {
        l.command == "NOTICE" && l.suffix.as_deref() == Some("indecipherable message")
    });
    assert!(reported, "the failure was reported inline");
}

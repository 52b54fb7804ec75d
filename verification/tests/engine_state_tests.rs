//! Remote-event bookkeeping on the link: nick and host changes, topic
//! caching, server splits, and alphanumeric sender addresses.

use sms_irc::addr::{addr_to_string, PduAddr, TypeOfNumber, Npi};
use sms_irc::config::InspConfig;
use sms_irc::insp_s2s::{InspLink, LinkState};
use sms_irc::line::IrcLine;
use sms_irc::nick::make_nick_for_address;
use sms_irc::store::Store;

fn test_cfg() -> InspConfig {
    InspConfig {
        sid: "1SM".to_string(),
        control_nick: "smsirc".to_string(),
        admin_nick: "boss".to_string(),
        sendpass: "sendpw".to_string(),
        recvpass: "recvpw".to_string(),
        server_desc: "bridge".to_string(),
        server_name: "sms.example".to_string(),
        log_chan: "#smsirc".to_string(),
        hostname: "peer.example".to_string(),
        port: 7000,
        set_topics: false,
        clobber_topics: false,
        ensure_joined: false,
    }
}

fn raw(prefix: Option<&str>, cmd: &str, args: &[&str], suffix: Option<&str>) -> IrcLine {
    IrcLine {
        prefix: prefix.map(|p| p.to_string()),
        command: cmd.to_string(),
        args: args.iter().map(|a| a.to_string()).collect(),
        suffix: suffix.map(|s| s.to_string()),
    }
}

fn linked() -> InspLink {
    let mut link = InspLink::new(test_cfg(), Store::new());
    link.do_capab_and_server();
    let server = raw(None, "SERVER", &["peer.example", "recvpw", "0", "9FF"], Some("peer"));
    link.handle_remote_message(&server, 1000).expect("server accepted");
    let endburst = raw(Some("9FF"), "ENDBURST", &[], None);
    link.handle_remote_message(&endburst, 1001).expect("endburst accepted");
    link
}

fn uid(uuid: &str, nick: &str) -> IrcLine {
    IrcLine {
        prefix: Some("9FF".to_string()),
        command: "UID".to_string(),
        args: vec![uuid, "100", nick, "h", "h", "id", "0.0.0.0", "100", "+i"]
            .into_iter()
            .map(|s| s.to_string())
            .collect(),
        suffix: Some("someone".to_string()),
    }
}

#[test]
fn remote_nick_changes_are_tracked() {
    let mut link = linked();
    link.handle_remote_message(&uid("9FFZ00007", "carol"), 1).expect("uid");
    let change = raw(Some("9FFZ00007"), "NICK", &["carla", "123"], None);
    link.handle_remote_message(&change, 2).expect("nick change");
    let renamed = link.users.iter().any(|(u, usr)| u == "9FFZ00007" && usr.nick == "carla");
    assert!(renamed);
}

#[test]
fn remote_host_changes_are_tracked() {
    let mut link = linked();
    link.handle_remote_message(&uid("9FFZ00007", "carol"), 1).expect("uid");
    let change = raw(Some("9FFZ00007"), "FHOST", &["new.host"], None);
    link.handle_remote_message(&change, 2).expect("host change");
    let moved = link
        .users
        .iter()
        .any(|(u, usr)| u == "9FFZ00007" && usr.displayed_hostname == "new.host");
    assert!(moved);
}

#[test]
fn topics_are_cached_from_ftopic() {
    let mut link = linked();
    let ft = raw(Some("9FF"), "FTOPIC", &["#chan", "1", "setter"], Some("the topic"));
    link.handle_remote_message(&ft, 2).expect("ftopic");
    let cached = link
        .channel_topics
        .iter()
        .any(|(c, t)| c == "#chan" && t == "the topic");
    assert!(cached);
}

#[test]
fn a_server_split_removes_its_users() {
    let mut link = linked();
    link.handle_remote_message(&uid("9FFZ00007", "carol"), 1).expect("uid");
    link.handle_remote_message(&uid("8AAZ00001", "dave"), 2).expect("uid");
    let squit = raw(Some("9FF"), "SQUIT", &["8AA"], Some("gone"));
    link.handle_remote_message(&squit, 3).expect("squit");
    assert!(link.users.iter().any(|(u, _)| u == "9FFZ00007"));
    assert!(!link.users.iter().any(|(u, _)| u == "8AAZ00001"));
}

#[test]
fn duplicate_uid_replaces_the_stored_user() {
    let mut link = linked();
    link.handle_remote_message(&uid("9FFZ00007", "carol"), 1).expect("uid");
    link.handle_remote_message(&uid("9FFZ00007", "karol"), 2).expect("uid again");
    let entries = link.users.iter().filter(|(u, _)| u == "9FFZ00007").count();
    assert_eq!(entries, 1);
    assert!(link.users.iter().any(|(_, usr)| usr.nick == "karol"));
}

#[test]
fn alphanumeric_sender_addresses_decode_through_the_gsm_alphabet() {
    // a bank-style sender: the "digits" are unpacked GSM septets
    let a = PduAddr {
        ton: TypeOfNumber::Gsm,
        npi: Npi::IsdnTelephone,
        digits: vec![0x42, 0x61, 0x6E, 0x6B],
    };
    assert_eq!(addr_to_string(&a), "Bank");
    assert_eq!(make_nick_for_address(&a), "Bank");
}

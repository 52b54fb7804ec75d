//! Command parsing, line rendering, registration, the bus queues and the
//! WhatsApp-side decision rules.

use sms_irc::admin::{
    AdminCommand, AdminModemCommand, AdminWhatsappCommand, ContactCommand, GhostCommand,
    GroupCommand, InspCommand, help_page,
};
use sms_irc::comm::{ChannelMaker, CmdQueue, ControlBotCommand, Jid};
use sms_irc::insp_user::InspUser;
use sms_irc::line::{IrcLine, render_line};
use sms_irc::models::{NICKSRC_AUTO, NICKSRC_MIGRATED, NICKSRC_USER, NICKSRC_WA_CONTACT, NICKSRC_WA_NOTIFY};
use sms_irc::registration::{IrcCap, PendingIrcConnection};
use sms_irc::util::parse_i64;
use sms_irc::wa::{parse_jid, jid_to_address, should_update_nick, get_nick_for_jid, WaContactNames};
use sms_irc::quarantine::FailureQuarantine;

fn words(items: &[&str]) -> Vec<String> {
    items.iter().map(|s| s.to_string()).collect()
}

#[test]
fn admin_command_parsing() {
    match AdminCommand::parse(&words(&["GHOST", "bob", "RENAME", "alice"])) {
        Some(AdminCommand::GhostCmd(nick, GhostCommand::ChangeNick(n))) => {
            assert_eq!(nick, "bob");
            assert_eq!(n, "alice");
        },
        _ => panic!("ghost rename did not parse"),
    }
    match AdminCommand::parse(&words(&["modem", "csq"])) {
        Some(AdminCommand::Modem(AdminModemCommand::GetCsq)) => {},
        _ => panic!("modem csq did not parse"),
    }
    match AdminCommand::parse(&words(&["contact", "sms", "+49123"])) {
        Some(AdminCommand::Contact(ContactCommand::NewSms(a))) => {
            assert_eq!(a.digits, vec![4, 9, 1, 2, 3]);
        },
        _ => panic!("contact sms did not parse"),
    }
    match AdminCommand::parse(&words(&["whatsapp", "setup"])) {
        Some(AdminCommand::Whatsapp(AdminWhatsappCommand::Setup)) => {},
        _ => panic!("whatsapp setup did not parse"),
    }
    match AdminCommand::parse(&words(&["group", "bridge", "1@g.us", "#chan"])) {
        Some(AdminCommand::Group(GroupCommand::BridgeWhatsapp { jid, chan })) => {
            assert_eq!(jid.id, "1");
            assert!(jid.is_group);
            assert_eq!(chan, "#chan");
        },
        _ => panic!("group bridge did not parse"),
    }
    assert!(AdminCommand::parse(&words(&["group", "bridge", "1@g.us", "nohash"])).is_none());
    match AdminCommand::parse(&words(&["insp", "uuquery", "1SMZ00001"])) {
        Some(AdminCommand::Insp(InspCommand::QueryUuid(u))) => assert_eq!(u, "1SMZ00001"),
        _ => panic!("insp uuquery did not parse"),
    }
    match AdminCommand::parse(&words(&["help"])) {
        Some(AdminCommand::Help(None)) => {},
        _ => panic!("bare help did not parse"),
    }
    assert!(AdminCommand::parse(&words(&["nonsense"])).is_none());
    assert!(AdminCommand::parse(&words(&["ghost", "bob"])).is_none());
}

#[test]
fn ghost_whatsapp_wants_a_boolean() {
    match GhostCommand::parse(&words(&["whatsapp", "true"])) {
        Some(GhostCommand::SetWhatsapp(true)) => {},
        _ => panic!("whatsapp true did not parse"),
    }
    assert!(GhostCommand::parse(&words(&["whatsapp", "maybe"])).is_none());
    match GhostCommand::parse(&words(&["KILL", "anything"])) {
        Some(GhostCommand::Remove) => {},
        _ => panic!("kill alias did not parse"),
    }
}

#[test]
fn help_pages_exist_for_every_topic() {
    for topic in ["ghost", "modem", "contact", "whatsapp", "group", "insp"] {
        assert!(help_page(Some(topic)).is_some(), "missing help for {topic}");
    }
    assert!(help_page(None).is_some());
    assert!(help_page(Some("bogus")).is_none());
}

#[test]
fn line_rendering() {
    let l = IrcLine {
        prefix: Some("1SM".to_string()),
        command: "UID".to_string(),
        args: vec!["a".to_string(), "b".to_string()],
        suffix: Some("real name".to_string()),
    };
    assert_eq!(render_line(&l), ":1SM UID a b :real name");
    let bare = IrcLine {
        prefix: None,
        command: "ENDBURST".to_string(),
        args: vec![],
        suffix: None,
    };
    assert_eq!(render_line(&bare), "ENDBURST");
}

#[test]
fn uid_line_parsing() {
    let args = words(&["9FFZ00001", "1500", "ned", "host", "disp", "id", "0.0.0.0", "1490", "+iw", "x"]);
    let (uuid, user) = InspUser::new_from_uid_line(args, Some("Real Name".to_string()))
        .expect("well-formed UID");
    assert_eq!(uuid, "9FFZ00001");
    assert_eq!(user.ts, 1500);
    assert_eq!(user.nick, "ned");
    assert_eq!(user.signon_time, 1490);
    assert_eq!(user.modes, "+iw x");
    assert_eq!(user.gecos, "Real Name");
    // too few arguments, a missing trailing part, or a bad timestamp fail
    assert!(InspUser::new_from_uid_line(words(&["a", "b"]), Some("x".to_string())).is_err());
    let args2 = words(&["u", "nan", "n", "h", "d", "i", "ip", "5", "+i"]);
    assert!(InspUser::new_from_uid_line(args2, Some("x".to_string())).is_err());
    let args3 = words(&["u", "5", "n", "h", "d", "i", "ip", "5", "+i"]);
    assert!(InspUser::new_from_uid_line(args3, None).is_err());
}

#[test]
fn integer_parsing_bounds() {
    assert_eq!(parse_i64("0"), Some(0));
    assert_eq!(parse_i64("-42"), Some(-42));
    assert_eq!(parse_i64("+42"), Some(42));
    assert_eq!(parse_i64("9223372036854775807"), Some(i64::MAX));
    assert_eq!(parse_i64("9223372036854775808"), None);
    assert_eq!(parse_i64("-9223372036854775808"), Some(i64::MIN));
    assert_eq!(parse_i64("-9223372036854775809"), None);
    assert_eq!(parse_i64(""), None);
    assert_eq!(parse_i64("-"), None);
    assert_eq!(parse_i64("12a"), None);
}

#[test]
fn registration_handshake() {
    let mut pend = PendingIrcConnection::new();
    assert!(!pend.is_done());
    pend.handle_remote_message(&IrcLine {
        prefix: None,
        command: "CAP".to_string(),
        args: vec!["LS".to_string(), "302".to_string()],
        suffix: None,
    });
    pend.handle_remote_message(&IrcLine {
        prefix: None,
        command: "NICK".to_string(),
        args: vec!["ned".to_string()],
        suffix: None,
    });
    pend.handle_remote_message(&IrcLine {
        prefix: None,
        command: "USER".to_string(),
        args: vec!["ned".to_string(), "0".to_string(), "*".to_string()],
        suffix: Some("Ned F".to_string()),
    });
    assert!(!pend.is_done(), "capability negotiation is still open");
    pend.handle_remote_message(&IrcLine {
        prefix: None,
        command: "CAP".to_string(),
        args: vec!["REQ".to_string()],
        suffix: Some("away-notify bogus-cap".to_string()),
    });
    pend.handle_remote_message(&IrcLine {
        prefix: None,
        command: "CAP".to_string(),
        args: vec!["END".to_string()],
        suffix: None,
    });
    assert!(pend.is_done());
    let info = pend.take_registration().expect("registration complete");
    assert_eq!(info.nick, "ned");
    assert_eq!(info.user, "ned");
    assert_eq!(info.realname, "Ned F");
    assert_eq!(info.caps, vec![IrcCap::AwayNotify]);
    // one acknowledgement and one rejection went out
    let acks = pend.outbox.iter().filter(|l| l.args == vec!["ACK".to_string()]).count();
    let naks = pend.outbox.iter().filter(|l| l.args == vec!["NAK".to_string()]).count();
    assert_eq!((acks, naks), (1, 1));
}

#[test]
fn registration_quit_abandons() {
    let mut pend = PendingIrcConnection::new();
    pend.handle_remote_message(&IrcLine {
        prefix: None,
        command: "QUIT".to_string(),
        args: vec![],
        suffix: None,
    });
    assert!(!pend.is_done());
    assert!(pend.take_registration().is_none());
}

#[test]
fn capability_names_round_trip() {
    assert_eq!(IrcCap::AwayNotify.cap_name(), "away-notify");
    assert_eq!(IrcCap::from_cap_name("away-notify"), Some(IrcCap::AwayNotify));
    assert_eq!(IrcCap::from_cap_name("other"), None);
}

#[test]
fn jid_parsing_and_address_derivation() {
    let j = parse_jid("49123@s.whatsapp.net").expect("contact jid");
    assert_eq!(j.id, "49123");
    assert!(!j.is_group);
    let g = parse_jid("12-34@g.us").expect("group jid");
    assert!(g.is_group);
    assert!(parse_jid("no-at-sign").is_none());
    assert!(parse_jid("@domain").is_none());
    let a = jid_to_address(&j).expect("contact address");
    assert_eq!(a.digits, vec![4, 9, 1, 2, 3]);
    assert!(jid_to_address(&g).is_none());
}

#[test]
fn nick_update_rules() {
    // migrated nicks always give way
    assert!(should_update_nick(NICKSRC_MIGRATED, NICKSRC_AUTO));
    // an automatic nick never yields to another automatic nick
    assert!(!should_update_nick(NICKSRC_AUTO, NICKSRC_AUTO));
    assert!(should_update_nick(NICKSRC_AUTO, NICKSRC_WA_NOTIFY));
    // notify names yield to address-book names and newer notify names
    assert!(should_update_nick(NICKSRC_WA_NOTIFY, NICKSRC_WA_CONTACT));
    assert!(should_update_nick(NICKSRC_WA_NOTIFY, NICKSRC_WA_NOTIFY));
    assert!(should_update_nick(NICKSRC_WA_CONTACT, NICKSRC_WA_CONTACT));
    // user-chosen nicks stay
    assert!(!should_update_nick(NICKSRC_USER, NICKSRC_WA_CONTACT));
    assert!(!should_update_nick(NICKSRC_WA_CONTACT, NICKSRC_WA_NOTIFY));
}

#[test]
fn wa_nick_choice_prefers_the_address_book() {
    let addr = sms_irc::addr::parse_addr("+49123");
    let both = WaContactNames {
        name: Some("Ann Body".to_string()),
        notify: Some("anny".to_string()),
    };
    let (n1, s1) = get_nick_for_jid(&both, &addr);
    assert_eq!((n1.as_str(), s1), ("Ann_Body", NICKSRC_WA_CONTACT));
    let only_notify = WaContactNames { name: None, notify: Some("anny".to_string()) };
    let (n2, s2) = get_nick_for_jid(&only_notify, &addr);
    assert_eq!((n2.as_str(), s2), ("anny", NICKSRC_WA_NOTIFY));
    let neither = WaContactNames { name: None, notify: None };
    let (n3, s3) = get_nick_for_jid(&neither, &addr);
    assert_eq!((n3.as_str(), s3), ("I49123", NICKSRC_AUTO));
}

#[test]
fn queues_are_fifo_and_receivers_are_taken_once() {
    let mut q: CmdQueue<ControlBotCommand> = CmdQueue::new();
    assert_eq!(q.len(), 0);
    q.send(ControlBotCommand::Log("one".to_string()));
    q.send(ControlBotCommand::Log("two".to_string()));
    match q.recv() {
        Some(ControlBotCommand::Log(s)) => assert_eq!(s, "one"),
        _ => panic!("fifo order broken"),
    }
    match q.recv() {
        Some(ControlBotCommand::Log(s)) => assert_eq!(s, "two"),
        _ => panic!("fifo order broken"),
    }
    assert!(q.recv().is_none());

    let mut cm = ChannelMaker::new();
    assert!(cm.take_cb_rx().is_some());
    assert!(cm.take_cb_rx().is_none(), "the receive end exists exactly once");
    assert!(cm.take_modem_rx().is_some());
    assert!(cm.take_cf_rx().is_some());
    assert!(cm.take_wa_rx().is_some());
}

#[test]
fn jids_carry_their_group_flag() {
    let j = Jid { id: "5".to_string(), is_group: false };
    let d = j.duplicate();
    assert_eq!(d.id, "5");
    assert!(!d.is_group);
}

#[test]
fn quarantine_retries_each_address_exactly_once_per_tick() {
    let a = sms_irc::addr::parse_addr("+1");
    let b = sms_irc::addr::parse_addr("+2");
    let mut q = FailureQuarantine::new();
    q.record_failure(a.clone());
    q.record_failure(b.clone());
    q.record_failure(a.clone());
    assert!(q.holds(&a) && q.holds(&b));
    let round = q.take_all();
    assert_eq!(round.len(), 2, "a doubly-failed address is retried once");
    assert!(!q.holds(&a) && !q.holds(&b));
    assert_eq!(q.take_all().len(), 0, "the next tick starts empty");
}

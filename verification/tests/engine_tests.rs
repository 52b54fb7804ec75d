//! The server-to-server protocol engine: handshake, burst, UUID
//! allocation, ping handling, reconciliation and routing.

use sms_irc::addr::{parse_addr, PduAddr};
use sms_irc::config::InspConfig;
use sms_irc::insp_s2s::{InspLink, LinkState};
use sms_irc::line::IrcLine;
use sms_irc::store::Store;

fn test_cfg() -> InspConfig {
    InspConfig {
        sid: "1SM".to_string(),
        control_nick: "smsirc".to_string(),
        admin_nick: "boss".to_string(),
        sendpass: "sendpw".to_string(),
        recvpass: "recvpw".to_string(),
        server_desc: "bridge".to_string(),
        server_name: "sms.example".to_string(),
        log_chan: "#smsirc".to_string(),
        hostname: "peer.example".to_string(),
        port: 7000,
        set_topics: false,
        clobber_topics: false,
        ensure_joined: false,
    }
}

fn raw(prefix: Option<&str>, cmd: &str, args: &[&str], suffix: Option<&str>) -> IrcLine {
    IrcLine {
        prefix: prefix.map(|p| p.to_string()),
        command: cmd.to_string(),
        args: args.iter().map(|a| a.to_string()).collect(),
        suffix: suffix.map(|s| s.to_string()),
    }
}

/// Runs the outbound handshake and the peer's SERVER / ENDBURST answers.
fn linked_link(store: Store) -> InspLink {
    let mut link = InspLink::new(test_cfg(), store);
    link.do_capab_and_server();
    let server = raw(None, "SERVER", &["peer.example", "recvpw", "0", "9FF"], Some("peer"));
    link.handle_remote_message(&server, 1000).expect("server accepted");
    assert_eq!(link.state, LinkState::BurstSent);
    let endburst = raw(Some("9FF"), "ENDBURST", &[], None);
    link.handle_remote_message(&endburst, 1001).expect("endburst accepted");
    assert_eq!(link.state, LinkState::Linked);
    link
}

fn admin_uid_line() -> IrcLine {
    raw(
        Some("9FF"),
        "UID",
        &["9FFAAAAAA", "100", "boss", "h", "h", "ident", "127.0.0.1", "100", "+i"],
        Some("the admin"),
    )
}

#[test]
fn uuid_allocation_exhausts_after_five_digits() {
    let mut link = InspLink::new(test_cfg(), Store::new());
    let first = link.get_uuid().expect("first allocation");
    assert_eq!(first, "1SMZ00001");
    for _ in 0..99997 {
        link.get_uuid().expect("allocation in range");
    }
    let last_good = link.get_uuid().expect("the 99999th allocation succeeds");
    assert_eq!(last_good, "1SMZ99999");
    assert!(link.get_uuid().is_err(), "the 100000th allocation fails");
    assert!(link.get_uuid().is_err(), "and stays failed");
}

#[test]
fn handshake_emits_one_uid_per_recipient_plus_control_before_endburst() {
    let mut store = Store::new();
    store.store_recipient(&parse_addr("+111"), "S111");
    store.store_recipient(&parse_addr("+222"), "S222");
    let link = linked_link(store);
    // the outbox starts with the capability advertisement and SERVER
    assert_eq!(link.outbox[0].command, "CAPAB");
    assert_eq!(link.outbox[0].args, vec!["START".to_string(), "1202".to_string()]);
    assert_eq!(link.outbox[12].command, "SERVER");
    // then the burst: UID lines strictly between BURST and ENDBURST
    let burst_at = link.outbox.iter().position(|l| l.command == "BURST").expect("burst");
    let end_at = link.outbox.iter().position(|l| l.command == "ENDBURST").expect("endburst");
    let uids: Vec<usize> = link
        .outbox
        .iter()
        .enumerate()
        .filter(|(_, l)| l.command == "UID")
        .map(|(i, _)| i)
        .collect();
    assert_eq!(uids.len(), 3, "one UID per recipient plus the control user");
    for i in uids {
        assert!(burst_at < i && i < end_at, "UID lines sit inside the burst");
    }
    assert_eq!(link.state, LinkState::Linked);
}

#[test]
fn a_second_server_line_cannot_rewind_the_link() {
    let link_store = Store::new();
    let mut link = linked_link(link_store);
    let server = raw(None, "SERVER", &["x", "recvpw", "0", "8AA"], Some("again"));
    link.handle_remote_message(&server, 2000).expect("ignored");
    assert_eq!(link.state, LinkState::Linked);
    assert_eq!(link.remote_sid, "9FF");
}

#[test]
fn server_with_bad_password_is_fatal() {
    let mut link = InspLink::new(test_cfg(), Store::new());
    link.do_capab_and_server();
    let server = raw(None, "SERVER", &["peer.example", "WRONG", "0", "9FF"], Some("peer"));
    assert!(link.handle_remote_message(&server, 1000).is_err());
}

#[test]
fn server_with_nonzero_hopcount_is_fatal() {
    let mut link = InspLink::new(test_cfg(), Store::new());
    link.state = LinkState::ServerSent;
    let server = raw(None, "SERVER", &["peer.example", "recvpw", "1", "9FF"], Some("peer"));
    assert!(link.handle_remote_message(&server, 1000).is_err());
}

#[test]
fn server_with_wrong_argument_count_is_fatal() {
    let mut link = InspLink::new(test_cfg(), Store::new());
    link.state = LinkState::ServerSent;
    let server = raw(None, "SERVER", &["peer.example", "recvpw", "0"], Some("peer"));
    assert!(link.handle_remote_message(&server, 1000).is_err());
}

#[test]
fn error_lines_are_fatal() {
    let mut link = linked_link(Store::new());
    let e1 = raw(None, "ERROR", &[], Some("closing link"));
    assert!(link.handle_remote_message(&e1, 1).is_err());
    let mut link2 = linked_link(Store::new());
    let e2 = raw(Some("9FF"), "ERROR", &[], Some("closing link"));
    assert!(link2.handle_remote_message(&e2, 1).is_err());
}

#[test]
fn two_argument_ping_swaps_its_arguments() {
    let mut link = linked_link(Store::new());
    let before = link.outbox.len();
    let ping = raw(Some("9FF"), "PING", &["srcsid", "dstsid"], None);
    link.handle_remote_message(&ping, 1).expect("ping handled");
    assert_eq!(link.outbox.len(), before + 1);
    let pong = &link.outbox[before];
    assert_eq!(pong.prefix.as_deref(), Some("1SM"));
    assert_eq!(pong.command, "PONG");
    assert_eq!(pong.args, vec!["dstsid".to_string(), "srcsid".to_string()]);
}

#[test]
fn one_argument_ping_echoes_its_token() {
    let mut link = linked_link(Store::new());
    let before = link.outbox.len();
    let ping = raw(Some("9FF"), "PING", &["tok"], None);
    link.handle_remote_message(&ping, 1).expect("ping handled");
    let pong = &link.outbox[before];
    assert_eq!(pong.command, "PONG");
    assert_eq!(pong.args, vec!["tok".to_string()]);
}

#[test]
fn group_reconciliation_sets_and_clears_operator_flags() {
    let mut store = Store::new();
    let ra = store.store_recipient(&parse_addr("+111"), "S001");
    let rb = store.store_recipient(&parse_addr("+222"), "S002");
    store.store_group("g@g.us", "#grp", vec![ra.id, rb.id], vec![ra.id], "t");
    let link = linked_link(store);
    // the first recipient's ghost got the first allocated UUID
    let plus_o = link.outbox.iter().any(|l| {
        l.command == "MODE"
            && l.args == vec!["#grp".to_string(), "+o".to_string(), "1SMZ00001".to_string()]
    });
    let minus_o = link.outbox.iter().any(|l| {
        l.command == "MODE"
            && l.args == vec!["#grp".to_string(), "-o".to_string(), "1SMZ00002".to_string()]
    });
    assert!(plus_o, "the admin participant is opped");
    assert!(minus_o, "the other participant is deopped");
}

#[test]
fn ghosts_join_group_channels_and_the_log_channel() {
    let mut store = Store::new();
    let ra = store.store_recipient(&parse_addr("+111"), "S001");
    store.store_group("g@g.us", "#grp", vec![ra.id], vec![], "t");
    let link = linked_link(store);
    let joined_grp = link.outbox.iter().any(|l| {
        l.command == "JOIN" && l.prefix.as_deref() == Some("1SMZ00001")
            && l.args == vec!["#grp".to_string()]
    });
    let joined_log = link.outbox.iter().any(|l| {
        l.command == "JOIN" && l.prefix.as_deref() == Some("1SMZ00001")
            && l.args == vec!["#smsirc".to_string()]
    });
    assert!(joined_grp && joined_log);
}

#[test]
fn ungrouped_message_goes_to_the_admin_not_a_channel() {
    let mut store = Store::new();
    store.store_recipient(&parse_addr("+111"), "S001");
    store.store_wa_message(&parse_addr("+111"), "hi there", None, 50);
    let mut link = linked_link(store);
    link.handle_remote_message(&admin_uid_line(), 1002).expect("admin arrives");
    let delivered = link.outbox.iter().any(|l| {
        l.command == "PRIVMSG" && l.prefix.as_deref() == Some("1SMZ00001")
            && l.args == vec!["9FFAAAAAA".to_string()] && l.suffix.as_deref() == Some("hi there")
    });
    assert!(delivered, "the message went to the admin's UUID");
    let to_channel = link.outbox.iter().any(|l| {
        l.command == "PRIVMSG" && l.suffix.as_deref() == Some("hi there")
            && l.args.first().map(|a| a.starts_with('#')).unwrap_or(false)
    });
    assert!(!to_channel, "no channel saw the message");
    // delivered rows leave the queue
    assert_eq!(link.store.get_all_messages().len(), 0);
}

#[test]
fn setup_recipient_twice_keeps_one_ghost() {
    let mut store = Store::new();
    let rec = store.store_recipient(&parse_addr("+333"), "S333");
    let mut link = InspLink::new(test_cfg(), store);
    link.setup_recipient(&rec, 10).expect("first setup");
    link.setup_recipient(&rec, 11).expect("second setup is a no-op");
    let addr = parse_addr("+333");
    let live = link.contacts.iter().filter(|c| c.0.addr_eq(&addr)).count();
    assert_eq!(live, 1, "exactly one live ghost");
    let uid_lines = link.outbox.iter().filter(|l| l.command == "UID").count();
    assert_eq!(uid_lines, 1, "the ghost signed on once");
}

#[test]
fn forwarding_to_an_unknown_nick_is_harmless() {
    let mut link = linked_link(Store::new());
    let before_outbox = link.outbox.len();
    let before_contacts = link.contacts.len();
    let cmd = sms_irc::comm::ContactManagerCommand::SetWhatsapp(true);
    let r = link.forward_cmd_by_nick("nobody", &cmd, 5);
    assert!(r.is_ok(), "an unknown nick is no error");
    assert_eq!(link.outbox.len(), before_outbox);
    assert_eq!(link.contacts.len(), before_contacts);
}

#[test]
fn admin_privmsg_to_a_ghost_routes_to_its_backend() {
    let mut store = Store::new();
    store.store_recipient(&parse_addr("+444"), "S444");
    let mut link = linked_link(store);
    link.handle_remote_message(&admin_uid_line(), 1002).expect("admin arrives");
    // SMS mode: the modem queue gets the message
    let dm = raw(Some("9FFAAAAAA"), "PRIVMSG", &["1SMZ00001"], Some("to sms"));
    link.handle_remote_message(&dm, 1003).expect("routed");
    assert_eq!(link.m_outbox.len(), 1);
    match &link.m_outbox[0] {
        sms_irc::comm::ModemCommand::SendMessage(a, t) => {
            assert!(a.addr_eq(&parse_addr("+444")));
            assert_eq!(t, "to sms");
        },
        _ => panic!("wrong modem command"),
    }
}

#[test]
fn admin_privmsg_to_a_bridged_channel_routes_to_the_group() {
    let mut store = Store::new();
    let ra = store.store_recipient(&parse_addr("+111"), "S001");
    store.store_group("g@g.us", "#grp", vec![ra.id], vec![], "t");
    let mut link = linked_link(store);
    link.handle_remote_message(&admin_uid_line(), 1002).expect("admin arrives");
    let msg = raw(Some("9FFAAAAAA"), "PRIVMSG", &["#grp"], Some("to group"));
    link.handle_remote_message(&msg, 1003).expect("routed");
    let found = link.wa_outbox.iter().any(|c| match c {
        sms_irc::comm::WhatsappCommand::SendGroupMessage(chan, text) => {
            chan == "#grp" && text == "to group"
        },
        _ => false,
    });
    assert!(found);
}

#[test]
fn quit_removes_the_ghost_and_recreates_it() {
    let mut store = Store::new();
    store.store_recipient(&parse_addr("+555"), "S555");
    let mut link = linked_link(store);
    assert_eq!(link.contacts.len(), 1);
    let old_uuid = link.contacts[0].1.uuid.clone();
    let quit = raw(Some(old_uuid.as_str()), "QUIT", &[], Some("gone"));
    link.handle_remote_message(&quit, 1004).expect("quit handled");
    assert_eq!(link.contacts.len(), 1, "the ghost came back");
    assert_ne!(link.contacts[0].1.uuid, old_uuid, "under a fresh UUID");
}

#[test]
fn admin_help_command_is_answered() {
    let mut link = linked_link(Store::new());
    link.handle_remote_message(&admin_uid_line(), 1002).expect("admin arrives");
    let before = link.outbox.len();
    let msg = raw(Some("9FFAAAAAA"), "PRIVMSG", &["1SMA00000"], Some("HELP"));
    link.handle_remote_message(&msg, 1003).expect("handled");
    let answered = link.outbox[before..].iter().any(|l| {
        l.command == "NOTICE" && l.prefix.as_deref() == Some("1SMA00000")
    });
    assert!(answered, "the control user answered");
}

#[test]
fn ghost_rename_through_the_admin_command_path() {
    let mut store = Store::new();
    store.store_recipient(&parse_addr("+666"), "S666");
    let mut link = linked_link(store);
    link.handle_remote_message(&admin_uid_line(), 1002).expect("admin arrives");
    let msg = raw(Some("9FFAAAAAA"), "PRIVMSG", &["1SMA00000"], Some("GHOST S666 RENAME ned"));
    link.handle_remote_message(&msg, 1003).expect("handled");
    // the ghost command loops through the factory queue; run it
    let cmds: Vec<_> = link.cf_outbox.drain(..).collect();
    assert_eq!(cmds.len(), 1);
    for c in cmds {
        link.handle_cf_command(c, 1004).expect("forwarded");
    }
    let rec = link.store.get_recipient_by_nick_opt("ned").expect("renamed");
    assert_eq!(rec.nicksrc, sms_irc::models::NICKSRC_USER);
    let nick_line = link.outbox.iter().any(|l| {
        l.command == "NICK" && l.args.first().map(|a| a == "ned").unwrap_or(false)
    });
    assert!(nick_line, "the rename reached the wire");
}

//! The message store: CRUD, ordered retrieval, concatenation lookup.

use sms_irc::addr::parse_addr;
use sms_irc::models::{NICKSRC_AUTO, SOURCE_SMS, SOURCE_WA};
use sms_irc::store::Store;

#[test]
fn recipient_crud() {
    let mut st = Store::new();
    let a = parse_addr("+111");
    let r = st.store_recipient(&a, "S111");
    assert_eq!(r.nick, "S111");
    assert_eq!(r.nicksrc, NICKSRC_AUTO);
    assert!(!r.whatsapp);
    let by_addr = st.get_recipient_by_addr_opt(&a).expect("by addr");
    assert_eq!(by_addr.id, r.id);
    let by_nick = st.get_recipient_by_nick_opt("S111").expect("by nick");
    assert_eq!(by_nick.id, r.id);
    let by_id = st.get_recipient_by_id_opt(r.id).expect("by id");
    assert_eq!(by_id.phone_number, r.phone_number);
    assert!(st.get_recipient_by_nick_opt("nobody").is_none());
}

#[test]
fn recipient_update_and_delete() {
    let mut st = Store::new();
    let a = parse_addr("+222");
    st.store_recipient(&a, "S222");
    st.update_recipient_nick(&a, "fred", 1);
    let r = st.get_recipient_by_addr_opt(&a).expect("still there");
    assert_eq!(r.nick, "fred");
    assert_eq!(r.nicksrc, 1);
    st.update_recipient_wa(&a, true);
    assert!(st.get_recipient_by_addr_opt(&a).unwrap().whatsapp);
    assert!(st.delete_recipient_with_addr(&a).is_ok());
    assert!(st.get_recipient_by_addr_opt(&a).is_none());
    assert!(st.delete_recipient_with_addr(&a).is_err());
}

#[test]
fn messages_come_back_in_timestamp_then_id_order() {
    let mut st = Store::new();
    let a = parse_addr("+333");
    let m1 = st.store_wa_message(&a, "late", None, 200);
    let m2 = st.store_wa_message(&a, "early", None, 100);
    let m3 = st.store_wa_message(&a, "also late", None, 200);
    let all = st.get_all_messages();
    assert_eq!(all.len(), 3);
    assert_eq!(all[0].id, m2.id);
    assert_eq!(all[1].id, m1.id);
    assert_eq!(all[2].id, m3.id);
}

#[test]
fn messages_for_recipient_filters_by_address() {
    let mut st = Store::new();
    let a = parse_addr("+1");
    let b = parse_addr("+2");
    st.store_wa_message(&a, "for a", None, 1);
    st.store_wa_message(&b, "for b", None, 2);
    let for_a = st.get_messages_for_recipient(&a);
    assert_eq!(for_a.len(), 1);
    assert_eq!(for_a[0].text.as_deref(), Some("for a"));
}

#[test]
fn concatenated_lookup_and_bulk_delete() {
    let mut st = Store::new();
    let a = parse_addr("+4");
    let num = sms_irc::addr::normalize_address(&a);
    st.store_sms_message(&a, &vec![1u8], Some(42), 1);
    st.store_sms_message(&a, &vec![2u8], Some(7), 2);
    st.store_sms_message(&a, &vec![3u8], Some(42), 3);
    let parts = st.get_all_concatenated(num.as_str(), 42);
    assert_eq!(parts.len(), 2);
    st.delete_concatenated(num.as_str(), 42);
    assert_eq!(st.get_all_concatenated(num.as_str(), 42).len(), 0);
    assert_eq!(st.get_all_messages().len(), 1);
}

#[test]
fn delete_message_by_id() {
    let mut st = Store::new();
    let a = parse_addr("+5");
    let m = st.store_wa_message(&a, "x", None, 1);
    assert!(st.delete_message(m.id).is_ok());
    assert!(st.delete_message(m.id).is_err());
    assert_eq!(st.get_all_messages().len(), 0);
}

#[test]
fn group_crud() {
    let mut st = Store::new();
    let g = st.store_group("123@g.us", "#bridged", vec![1, 2], vec![1], "topic");
    assert_eq!(st.get_group_by_id(g.id).expect("by id").channel, "#bridged");
    assert_eq!(st.get_group_by_jid_opt("123@g.us").expect("by jid").id, g.id);
    assert_eq!(st.get_group_by_chan_opt("#bridged").expect("by chan").id, g.id);
    let upd = st.update_group("123@g.us", vec![3], vec![], "new topic").expect("update");
    assert_eq!(upd.topic, "new topic");
    assert_eq!(upd.participants, vec![3]);
    assert!(st.delete_group_with_id(g.id).is_ok());
    assert!(st.delete_group_with_id(g.id).is_err());
}

#[test]
fn groups_for_recipient_by_participation() {
    let mut st = Store::new();
    let a = parse_addr("+6");
    let r = st.store_recipient(&a, "S6");
    st.store_group("g1@g.us", "#one", vec![r.id], vec![], "");
    st.store_group("g2@g.us", "#two", vec![r.id + 1], vec![], "");
    let gs = st.get_groups_for_recipient(&a).expect("recipient known");
    assert_eq!(gs.len(), 1);
    assert_eq!(gs[0].channel, "#one");
    let unknown = parse_addr("+7777");
    assert!(st.get_groups_for_recipient(&unknown).is_none());
}

#[test]
fn wa_msgid_dedup() {
    let mut st = Store::new();
    assert!(!st.is_wa_msgid_stored("m1"));
    st.store_wa_msgid("m1".to_string());
    assert!(st.is_wa_msgid_stored("m1"));
    st.store_wa_msgid("m1".to_string());
    assert!(st.is_wa_msgid_stored("m1"));
}

#[test]
fn message_sources_are_kept() {
    let mut st = Store::new();
    let a = parse_addr("+8");
    let ms = st.store_sms_message(&a, &vec![0u8], None, 1);
    let mw = st.store_wa_message(&a, "t", Some(5), 2);
    assert_eq!(ms.source, SOURCE_SMS);
    assert_eq!(mw.source, SOURCE_WA);
    assert_eq!(mw.group_target, Some(5));
}

//! Modem-side decision logic on plain values: creating recipients for
//! fresh addresses and queueing listed SMS messages with their
//! concatenation reference.

use vstd::prelude::*;
use crate::addr::{PduAddr, spec_normalize};
use crate::comm::{SmsIncoming, SmsStatus};
use crate::models::{Recipient, Message, MessageView, SOURCE_SMS};
use crate::nick;
use crate::sender;
use crate::store::{Store, StoreView};

verus! {

/// Creates a recipient row for an address on first contact, under the
/// automatic nickname; an address already stored changes nothing.  The
/// flag says whether a row was created.
pub fn make_contact(store: &mut Store, addr: &PduAddr) -> (r: (Recipient, bool))
    requires
        old(store).wf(),
        old(store).can_insert_recipient(),
    ensures
        final(store).wf(),
        match old(store).spec_recipient_by_phone(spec_normalize(addr@)) {
            Some(rec) => r.0@ == rec && r.1 == false && *final(store) == *old(store),
            None => r.1 == true && final(store)@.recipients == old(store)@.recipients.push(r.0@)
                && r.0@.nick == nick::spec_nick_for_address(addr@) && r.0@.phone_number
                == spec_normalize(addr@),
        },
{
    match store.get_recipient_by_addr_opt(addr) {
        Some(rec) => (rec, false),
        None => {
            let nickname = nick::make_nick_for_address(addr);
            let rec = store.store_recipient(addr, nickname.as_str());
            (rec, true)
        },
    }
}

/// Queues one listed SMS: only unread messages are stored, each with the
/// concatenation reference its PDU carries, if any.
pub fn store_incoming_sms(store: &mut Store, sms: &SmsIncoming, ts: i64) -> (r: Option<Message>)
    requires
        old(store).wf(),
        old(store).can_insert_message(),
    ensures
        final(store).wf(),
        sms.status != SmsStatus::ReceivedUnread ==> (r is None && *final(store) == *old(store)),
        sms.status == SmsStatus::ReceivedUnread ==> (r matches Some(m) && m@.phone_number
            == spec_normalize(sms.addr@) && m@.pdu == Some(sms.raw_pdu@) && m@.source == SOURCE_SMS
            && m@.ts == ts && m@.csms_data == (match sender::pdu_decode_of(sms.raw_pdu@) {
            Some(d) => match d.1 {
                Some(cd) => Some(cd.reference as i32),
                None => None,
            },
            None => None,
        }) && final(store)@ == (StoreView {
            messages: Store::spec_msg_insert(old(store)@.messages, m@),
            next_message_id: (old(store)@.next_message_id + 1) as i32,
            ..old(store)@
        })),
{
    if sms.status != SmsStatus::ReceivedUnread {
        return None;
    }
    let csms_data: Option<i32> = match sender::decode_sms_pdu(&sms.raw_pdu) {
        Some(d) => match d.concat {
            Some(cd) => Some(cd.reference as i32),
            None => None,
        },
        None => None,
    };
    let m = store.store_sms_message(&sms.addr, &sms.raw_pdu, csms_data, ts);
    Some(m)
}

} // verus!

//! The persisted data model: recipients, queued messages, bridged groups.

use vstd::prelude::*;
use crate::addr::{AddrView, PduAddr, spec_un_normalize, un_normalize_address};

verus! {

/// Nick source: migrated from a previous install.
pub const NICKSRC_MIGRATED: i32 = -1;

/// Nick source: autogenerated from the phone number.
pub const NICKSRC_AUTO: i32 = 0;

/// Nick source: renamed by the user.
pub const NICKSRC_USER: i32 = 1;

/// Nick source: from the WhatsApp contact name.
pub const NICKSRC_WA_CONTACT: i32 = 2;

/// Nick source: from the WhatsApp notify name.
pub const NICKSRC_WA_NOTIFY: i32 = 3;

/// Nick source: from a nick collision.
pub const NICKSRC_COLLISION: i32 = 4;

/// Message source: SMS.
pub const SOURCE_SMS: i32 = 0;

/// Message source: WhatsApp.
pub const SOURCE_WA: i32 = 1;

/// Duplicates a vector of plain values.
pub fn clone_copy_vec<T: Copy>(v: &Vec<T>) -> (r: Vec<T>)
    ensures
        r@ == v@,
{
    let mut r: Vec<T> = Vec::new();
    let n = v.len();
    let mut i: usize = 0;
    while i < n
        invariant
            n == v@.len(),
            i <= n,
            r@ == v@.subrange(0, i as int),
        decreases n - i,
    {
        r.push(v[i]);
        i = i + 1;
        proof {
            assert(r@ =~= v@.subrange(0, i as int));
        }
    }
    proof {
        assert(v@.subrange(0, n as int) == v@);
    }
    r
}

/// Duplicates an optional string.
pub fn clone_opt_string(v: &Option<String>) -> (r: Option<String>)
    ensures
        match v {
            Some(s) => r matches Some(t) && t@ == s@,
            None => r is None,
        },
{
    match v {
        Some(s) => Some(s.clone()),
        None => None,
    }
}

pub open spec fn view_opt_string(v: Option<String>) -> Option<Seq<char>> {
    match v {
        Some(s) => Some(s@),
        None => None,
    }
}

/// A persisted remote contact.
pub struct Recipient {
    pub id: i32,
    pub phone_number: String,
    pub nick: String,
    pub whatsapp: bool,
    pub avatar_url: Option<String>,
    pub notify: Option<String>,
    pub nicksrc: i32,
}

#[verifier::ext_equal]
pub struct RecipientView {
    pub id: i32,
    pub phone_number: Seq<char>,
    pub nick: Seq<char>,
    pub whatsapp: bool,
    pub avatar_url: Option<Seq<char>>,
    pub notify: Option<Seq<char>>,
    pub nicksrc: i32,
}

impl View for Recipient {
    type V = RecipientView;

    open spec fn view(&self) -> RecipientView {
        RecipientView {
            id: self.id,
            phone_number: self.phone_number@,
            nick: self.nick@,
            whatsapp: self.whatsapp,
            avatar_url: view_opt_string(self.avatar_url),
            notify: view_opt_string(self.notify),
            nicksrc: self.nicksrc,
        }
    }
}

impl Recipient {
    pub fn duplicate(&self) -> (r: Recipient)
        ensures
            r@ == self@,
    {
        let r = Recipient {
            id: self.id,
            phone_number: self.phone_number.clone(),
            nick: self.nick.clone(),
            whatsapp: self.whatsapp,
            avatar_url: clone_opt_string(&self.avatar_url),
            notify: clone_opt_string(&self.notify),
            nicksrc: self.nicksrc,
        };
        proof {
            assert(r@ =~= self@);
        }
        r
    }

    /// Decodes the stored phone number back into an address.
    pub fn get_addr(&self) -> (r: Option<PduAddr>)
        ensures
            r is Some <==> spec_un_normalize(self@.phone_number) is Some,
            r matches Some(a) ==> spec_un_normalize(self@.phone_number) == Some(a@),
    {
        un_normalize_address(self.phone_number.as_str())
    }
}

/// A queued message awaiting delivery.
pub struct Message {
    pub id: i32,
    pub phone_number: String,
    pub pdu: Option<Vec<u8>>,
    pub csms_data: Option<i32>,
    pub group_target: Option<i32>,
    pub text: Option<String>,
    pub source: i32,
    pub ts: i64,
}

#[verifier::ext_equal]
pub struct MessageView {
    pub id: i32,
    pub phone_number: Seq<char>,
    pub pdu: Option<Seq<u8>>,
    pub csms_data: Option<i32>,
    pub group_target: Option<i32>,
    pub text: Option<Seq<char>>,
    pub source: i32,
    pub ts: i64,
}

impl View for Message {
    type V = MessageView;

    open spec fn view(&self) -> MessageView {
        MessageView {
            id: self.id,
            phone_number: self.phone_number@,
            pdu: match self.pdu {
                Some(ref p) => Some(p@),
                None => None,
            },
            csms_data: self.csms_data,
            group_target: self.group_target,
            text: view_opt_string(self.text),
            source: self.source,
            ts: self.ts,
        }
    }
}

impl Message {
    pub fn duplicate(&self) -> (r: Message)
        ensures
            r@ == self@,
    {
        let pdu = match &self.pdu {
            Some(p) => Some(clone_copy_vec(p)),
            None => None,
        };
        let r = Message {
            id: self.id,
            phone_number: self.phone_number.clone(),
            pdu,
            csms_data: self.csms_data,
            group_target: self.group_target,
            text: clone_opt_string(&self.text),
            source: self.source,
            ts: self.ts,
        };
        proof {
            assert(r@ =~= self@);
        }
        r
    }

    /// Decodes the stored phone number back into an address.
    pub fn get_addr(&self) -> (r: Option<PduAddr>)
        ensures
            r is Some <==> spec_un_normalize(self@.phone_number) is Some,
            r matches Some(a) ==> spec_un_normalize(self@.phone_number) == Some(a@),
    {
        un_normalize_address(self.phone_number.as_str())
    }
}

/// A bridged WhatsApp group.
pub struct Group {
    pub id: i32,
    pub jid: String,
    pub channel: String,
    pub participants: Vec<i32>,
    pub admins: Vec<i32>,
    pub topic: String,
}

#[verifier::ext_equal]
pub struct GroupView {
    pub id: i32,
    pub jid: Seq<char>,
    pub channel: Seq<char>,
    pub participants: Seq<i32>,
    pub admins: Seq<i32>,
    pub topic: Seq<char>,
}

impl View for Group {
    type V = GroupView;

    open spec fn view(&self) -> GroupView {
        GroupView {
            id: self.id,
            jid: self.jid@,
            channel: self.channel@,
            participants: self.participants@,
            admins: self.admins@,
            topic: self.topic@,
        }
    }
}

impl Group {
    pub fn duplicate(&self) -> (r: Group)
        ensures
            r@ == self@,
    {
        let r = Group {
            id: self.id,
            jid: self.jid.clone(),
            channel: self.channel.clone(),
            participants: clone_copy_vec(&self.participants),
            admins: clone_copy_vec(&self.admins),
            topic: self.topic.clone(),
        };
        proof {
            assert(r@ =~= self@);
        }
        r
    }
}

/// The fields of a recipient row to insert.
pub struct NewRecipient {
    pub phone_number: String,
    pub nick: String,
    pub whatsapp: bool,
    pub avatar_url: Option<String>,
    pub notify: Option<String>,
    pub nicksrc: i32,
}

/// The fields of a group row to insert.
pub struct NewGroup {
    pub jid: String,
    pub channel: String,
    pub participants: Vec<i32>,
    pub admins: Vec<i32>,
    pub topic: String,
}

/// The fields of an SMS message row to insert.
pub struct NewMessage {
    pub phone_number: String,
    pub pdu: Vec<u8>,
    pub csms_data: Option<i32>,
    pub source: i32,
}

/// The fields of a plain-text message row to insert.
pub struct NewPlainMessage {
    pub phone_number: String,
    pub group_target: Option<i32>,
    pub text: String,
    pub source: i32,
    pub ts: i64,
}

/// A seen WhatsApp message id.
pub struct WaMessageId {
    pub mid: String,
}

} // verus!

//! The administration command language: what the admin can type at the
//! control user, parsed into typed commands.

use vstd::prelude::*;
use crate::addr::{PduAddr, AddrView, spec_parse_addr, parse_addr};
use crate::comm::{Jid, JidView};
use crate::util;

verus! {

/// Commands on one ghost.
pub enum GhostCommand {
    ChangeNick(String),
    SetWhatsapp(bool),
    Remove,
}

#[verifier::ext_equal]
pub enum GhostCommandView {
    ChangeNick(Seq<char>),
    SetWhatsapp(bool),
    Remove,
}

impl View for GhostCommand {
    type V = GhostCommandView;

    open spec fn view(&self) -> GhostCommandView {
        match self {
            GhostCommand::ChangeNick(n) => GhostCommandView::ChangeNick(n@),
            GhostCommand::SetWhatsapp(b) => GhostCommandView::SetWhatsapp(*b),
            GhostCommand::Remove => GhostCommandView::Remove,
        }
    }
}

/// The words of the input, lower-cased where commands are matched.
pub open spec fn spec_lower(s: Seq<char>) -> Seq<char> {
    util::spec_lower_str(s)
}

pub open spec fn spec_parse_bool(s: Seq<char>) -> Option<bool> {
    if s == "true"@ {
        Some(true)
    } else if s == "false"@ {
        Some(false)
    } else {
        None
    }
}

/// Parses the words `true` and `false`.
pub fn parse_bool(s: &str) -> (r: Option<bool>)
    ensures
        r == spec_parse_bool(s@),
{
    if util::str_eq(s, "true") {
        Some(true)
    } else if util::str_eq(s, "false") {
        Some(false)
    } else {
        None
    }
}

pub open spec fn spec_parse_ghost(inp: Seq<Seq<char>>) -> Option<GhostCommandView> {
    if inp.len() < 1 {
        None
    } else {
        let cmd = spec_lower(inp[0]);
        if cmd == "rename"@ && inp.len() == 2 {
            Some(GhostCommandView::ChangeNick(inp[1]))
        } else if cmd == "whatsapp"@ && inp.len() == 2 {
            match spec_parse_bool(inp[1]) {
                Some(b) => Some(GhostCommandView::SetWhatsapp(b)),
                None => None,
            }
        } else if cmd == "die"@ || cmd == "kill"@ || cmd == "remove"@ {
            Some(GhostCommandView::Remove)
        } else {
            None
        }
    }
}

impl GhostCommand {
    /// The help text for the ghost subcommands.
    pub fn help() -> (r: &'static str)
        ensures
            r@ == ("*** GHOST subcommand ***\nRENAME new_nick: change the ghost's nickname.\nWHATSAPP true|false: enable or disable WhatsApp mode.\nREMOVE (aliases KILL, DIE): remove this recipient.")@,
    {
        "*** GHOST subcommand ***\nRENAME new_nick: change the ghost's nickname.\nWHATSAPP true|false: enable or disable WhatsApp mode.\nREMOVE (aliases KILL, DIE): remove this recipient."
    }

    /// Parses a ghost subcommand.
    pub fn parse(inp: &Vec<String>) -> (r: Option<GhostCommand>)
        ensures
            match r {
                Some(c) => spec_parse_ghost(inp@.map_values(|s: String| s@)) == Some(c@),
                None => spec_parse_ghost(inp@.map_values(|s: String| s@)) is None,
            },
    {
        if inp.len() < 1 {
            return None;
        }
        let cmd = util::lower_str(inp[0].as_str());
        if util::string_eq(&cmd, "rename") && inp.len() == 2 {
            Some(GhostCommand::ChangeNick(inp[1].clone()))
        } else if util::string_eq(&cmd, "whatsapp") && inp.len() == 2 {
            match parse_bool(inp[1].as_str()) {
                Some(b) => Some(GhostCommand::SetWhatsapp(b)),
                None => None,
            }
        } else if util::string_eq(&cmd, "die") || util::string_eq(&cmd, "kill") || util::string_eq(
            &cmd,
            "remove",
        ) {
            Some(GhostCommand::Remove)
        } else {
            None
        }
    }
}

/// Commands on the modem backend.
pub enum AdminModemCommand {
    GetCsq,
    GetReg,
    Reinit,
    TempPath(Option<String>),
}

#[verifier::ext_equal]
pub enum AdminModemCommandView {
    GetCsq,
    GetReg,
    Reinit,
    TempPath(Option<Seq<char>>),
}

impl View for AdminModemCommand {
    type V = AdminModemCommandView;

    open spec fn view(&self) -> AdminModemCommandView {
        match self {
            AdminModemCommand::GetCsq => AdminModemCommandView::GetCsq,
            AdminModemCommand::GetReg => AdminModemCommandView::GetReg,
            AdminModemCommand::Reinit => AdminModemCommandView::Reinit,
            AdminModemCommand::TempPath(p) => AdminModemCommandView::TempPath(
                crate::models::view_opt_string(*p),
            ),
        }
    }
}

pub open spec fn spec_parse_modem(inp: Seq<Seq<char>>) -> Option<AdminModemCommandView> {
    if inp.len() < 1 {
        None
    } else {
        let cmd = spec_lower(inp[0]);
        if cmd == "signal"@ || cmd == "csq"@ {
            Some(AdminModemCommandView::GetCsq)
        } else if cmd == "registration"@ || cmd == "reg"@ {
            Some(AdminModemCommandView::GetReg)
        } else if cmd == "restart"@ {
            Some(AdminModemCommandView::Reinit)
        } else if cmd == "path"@ && inp.len() == 2 {
            Some(AdminModemCommandView::TempPath(Some(inp[1])))
        } else if cmd == "path"@ {
            Some(AdminModemCommandView::TempPath(None))
        } else {
            None
        }
    }
}

impl AdminModemCommand {
    /// The help text for the modem subcommands.
    pub fn help() -> (r: &'static str)
        ensures
            r@ == ("*** MODEM subcommand ***\nSIGNAL (alias CSQ): get the current signal strength.\nREGISTRATION (alias REG): get the registration state.\nRESTART: reinitialize the modem connection.\nPATH [temp_path]: temporarily change or disable the modem path.")@,
    {
        "*** MODEM subcommand ***\nSIGNAL (alias CSQ): get the current signal strength.\nREGISTRATION (alias REG): get the registration state.\nRESTART: reinitialize the modem connection.\nPATH [temp_path]: temporarily change or disable the modem path."
    }

    /// Parses a modem subcommand.
    pub fn parse(inp: &Vec<String>) -> (r: Option<AdminModemCommand>)
        ensures
            match r {
                Some(c) => spec_parse_modem(inp@.map_values(|s: String| s@)) == Some(c@),
                None => spec_parse_modem(inp@.map_values(|s: String| s@)) is None,
            },
    {
        if inp.len() < 1 {
            return None;
        }
        let cmd = util::lower_str(inp[0].as_str());
        if util::string_eq(&cmd, "signal") || util::string_eq(&cmd, "csq") {
            Some(AdminModemCommand::GetCsq)
        } else if util::string_eq(&cmd, "registration") || util::string_eq(&cmd, "reg") {
            Some(AdminModemCommand::GetReg)
        } else if util::string_eq(&cmd, "restart") {
            Some(AdminModemCommand::Reinit)
        } else if util::string_eq(&cmd, "path") && inp.len() == 2 {
            Some(AdminModemCommand::TempPath(Some(inp[1].clone())))
        } else if util::string_eq(&cmd, "path") {
            Some(AdminModemCommand::TempPath(None))
        } else {
            None
        }
    }
}

/// Commands establishing contact with new people.
pub enum ContactCommand {
    NewSms(PduAddr),
    NewWhatsapp(PduAddr),
}

#[verifier::ext_equal]
pub enum ContactCommandView {
    NewSms(AddrView),
    NewWhatsapp(AddrView),
}

impl View for ContactCommand {
    type V = ContactCommandView;

    open spec fn view(&self) -> ContactCommandView {
        match self {
            ContactCommand::NewSms(a) => ContactCommandView::NewSms(a@),
            ContactCommand::NewWhatsapp(a) => ContactCommandView::NewWhatsapp(a@),
        }
    }
}

pub open spec fn spec_parse_contact(inp: Seq<Seq<char>>) -> Option<ContactCommandView> {
    if inp.len() != 2 {
        None
    } else {
        let cmd = spec_lower(inp[0]);
        if cmd == "whatsapp"@ {
            Some(ContactCommandView::NewWhatsapp(spec_parse_addr(inp[1])))
        } else if cmd == "sms"@ {
            Some(ContactCommandView::NewSms(spec_parse_addr(inp[1])))
        } else {
            None
        }
    }
}

impl ContactCommand {
    /// The help text for the contact subcommands.
    pub fn help() -> (r: &'static str)
        ensures
            r@ == ("*** CONTACT subcommand ***\nWHATSAPP number: contact someone new via WhatsApp.\nSMS number: contact someone new via SMS.")@,
    {
        "*** CONTACT subcommand ***\nWHATSAPP number: contact someone new via WhatsApp.\nSMS number: contact someone new via SMS."
    }

    /// Parses a contact subcommand.
    pub fn parse(inp: &Vec<String>) -> (r: Option<ContactCommand>)
        ensures
            match r {
                Some(c) => spec_parse_contact(inp@.map_values(|s: String| s@)) == Some(c@),
                None => spec_parse_contact(inp@.map_values(|s: String| s@)) is None,
            },
    {
        if inp.len() != 2 {
            return None;
        }
        let cmd = util::lower_str(inp[0].as_str());
        if util::string_eq(&cmd, "whatsapp") {
            Some(ContactCommand::NewWhatsapp(parse_addr(inp[1].as_str())))
        } else if util::string_eq(&cmd, "sms") {
            Some(ContactCommand::NewSms(parse_addr(inp[1].as_str())))
        } else {
            None
        }
    }
}

/// Commands on the WhatsApp backend.
pub enum AdminWhatsappCommand {
    Setup,
    Logon,
    ChatList,
    UpdateAll,
}

impl View for AdminWhatsappCommand {
    type V = AdminWhatsappCommand;

    open spec fn view(&self) -> AdminWhatsappCommand {
        *self
    }
}

pub open spec fn spec_parse_whatsapp(inp: Seq<Seq<char>>) -> Option<AdminWhatsappCommand> {
    if inp.len() < 1 {
        None
    } else {
        let cmd = spec_lower(inp[0]);
        if cmd == "setup"@ {
            Some(AdminWhatsappCommand::Setup)
        } else if cmd == "logon"@ {
            Some(AdminWhatsappCommand::Logon)
        } else if cmd == "chats"@ {
            Some(AdminWhatsappCommand::ChatList)
        } else if cmd == "rebuild"@ {
            Some(AdminWhatsappCommand::UpdateAll)
        } else {
            None
        }
    }
}

impl AdminWhatsappCommand {
    /// The help text for the WhatsApp subcommands.
    pub fn help() -> (r: &'static str)
        ensures
            r@ == ("*** WHATSAPP subcommand ***\nSETUP: begin registration; erases existing credentials.\nLOGON: log on with stored credentials.\nCHATS: list all WhatsApp chats.\nREBUILD: refresh group metadata for all groups.")@,
    {
        "*** WHATSAPP subcommand ***\nSETUP: begin registration; erases existing credentials.\nLOGON: log on with stored credentials.\nCHATS: list all WhatsApp chats.\nREBUILD: refresh group metadata for all groups."
    }

    /// Parses a WhatsApp subcommand.
    pub fn parse(inp: &Vec<String>) -> (r: Option<AdminWhatsappCommand>)
        ensures
            r == spec_parse_whatsapp(inp@.map_values(|s: String| s@)),
    {
        if inp.len() < 1 {
            return None;
        }
        let cmd = util::lower_str(inp[0].as_str());
        if util::string_eq(&cmd, "setup") {
            Some(AdminWhatsappCommand::Setup)
        } else if util::string_eq(&cmd, "logon") {
            Some(AdminWhatsappCommand::Logon)
        } else if util::string_eq(&cmd, "chats") {
            Some(AdminWhatsappCommand::ChatList)
        } else if util::string_eq(&cmd, "rebuild") {
            Some(AdminWhatsappCommand::UpdateAll)
        } else {
            None
        }
    }
}

/// Commands bridging group chats.
pub enum GroupCommand {
    BridgeWhatsapp { jid: Jid, chan: String },
    Unbridge(String),
}

#[verifier::ext_equal]
pub enum GroupCommandView {
    BridgeWhatsapp { jid: JidView, chan: Seq<char> },
    Unbridge(Seq<char>),
}

impl View for GroupCommand {
    type V = GroupCommandView;

    open spec fn view(&self) -> GroupCommandView {
        match self {
            GroupCommand::BridgeWhatsapp { jid, chan } => GroupCommandView::BridgeWhatsapp {
                jid: jid@,
                chan: chan@,
            },
            GroupCommand::Unbridge(c) => GroupCommandView::Unbridge(c@),
        }
    }
}

pub open spec fn spec_parse_group(inp: Seq<Seq<char>>) -> Option<GroupCommandView> {
    if inp.len() < 1 {
        None
    } else {
        let cmd = spec_lower(inp[0]);
        if cmd == "bridge"@ && inp.len() == 3 {
            match crate::wa::spec_parse_jid(inp[1]) {
                Some(j) => if inp[2].len() > 0 && inp[2][0] == '#' {
                    Some(GroupCommandView::BridgeWhatsapp { jid: j, chan: inp[2] })
                } else {
                    None
                },
                None => None,
            }
        } else if cmd == "unbridge"@ && inp.len() == 2 {
            if inp[1].len() > 0 && inp[1][0] == '#' {
                Some(GroupCommandView::Unbridge(inp[1]))
            } else {
                None
            }
        } else {
            None
        }
    }
}

impl GroupCommand {
    /// The help text for the group subcommands.
    pub fn help() -> (r: &'static str)
        ensures
            r@ == ("*** GROUP subcommand ***\nBRIDGE jid chan: bridge the WhatsApp group jid to the channel chan.\nUNBRIDGE chan: unbridge the channel chan.")@,
    {
        "*** GROUP subcommand ***\nBRIDGE jid chan: bridge the WhatsApp group jid to the channel chan.\nUNBRIDGE chan: unbridge the channel chan."
    }

    /// Parses a group subcommand.
    pub fn parse(inp: &Vec<String>) -> (r: Option<GroupCommand>)
        ensures
            match r {
                Some(c) => spec_parse_group(inp@.map_values(|s: String| s@)) == Some(c@),
                None => spec_parse_group(inp@.map_values(|s: String| s@)) is None,
            },
    {
        if inp.len() < 1 {
            return None;
        }
        let cmd = util::lower_str(inp[0].as_str());
        if util::string_eq(&cmd, "bridge") && inp.len() == 3 {
            match crate::wa::parse_jid(inp[1].as_str()) {
                Some(j) => {
                    if inp[2].unicode_len() > 0 && inp[2].as_str().get_char(0) == '#' {
                        Some(GroupCommand::BridgeWhatsapp { jid: j, chan: inp[2].clone() })
                    } else {
                        None
                    }
                },
                None => None,
            }
        } else if util::string_eq(&cmd, "unbridge") && inp.len() == 2 {
            if inp[1].unicode_len() > 0 && inp[1].as_str().get_char(0) == '#' {
                Some(GroupCommand::Unbridge(inp[1].clone()))
            } else {
                None
            }
        } else {
            None
        }
    }
}

/// Debug commands on the server-to-server link.
pub enum InspCommand {
    Raw(String),
    QueryUuid(String),
    QueryNickUuid(String),
}

#[verifier::ext_equal]
pub enum InspCommandView {
    Raw(Seq<char>),
    QueryUuid(Seq<char>),
    QueryNickUuid(Seq<char>),
}

impl View for InspCommand {
    type V = InspCommandView;

    open spec fn view(&self) -> InspCommandView {
        match self {
            InspCommand::Raw(s) => InspCommandView::Raw(s@),
            InspCommand::QueryUuid(s) => InspCommandView::QueryUuid(s@),
            InspCommand::QueryNickUuid(s) => InspCommandView::QueryNickUuid(s@),
        }
    }
}

pub open spec fn spec_parse_insp(inp: Seq<Seq<char>>) -> Option<InspCommandView> {
    if inp.len() < 1 {
        None
    } else {
        let cmd = spec_lower(inp[0]);
        if cmd == "raw"@ {
            Some(
                InspCommandView::Raw(
                    crate::insp_user::spec_join_space(
                        if inp.len() >= 2 {
                            inp.skip(2)
                        } else {
                            Seq::<Seq<char>>::empty()
                        },
                    ),
                ),
            )
        } else if cmd == "uuquery"@ && inp.len() == 2 {
            Some(InspCommandView::QueryUuid(inp[1]))
        } else if cmd == "nickquery"@ && inp.len() == 2 {
            Some(InspCommandView::QueryNickUuid(inp[1]))
        } else {
            None
        }
    }
}

impl InspCommand {
    /// The help text for the link debug subcommands.
    pub fn help() -> (r: &'static str)
        ensures
            r@ == ("*** INSP subcommand ***\nRAW raw_line: send the raw line to the linked server.\nUUQUERY uuid: show the user behind a UUID.\nNICKQUERY nick: show the UUID behind a nickname.")@,
    {
        "*** INSP subcommand ***\nRAW raw_line: send the raw line to the linked server.\nUUQUERY uuid: show the user behind a UUID.\nNICKQUERY nick: show the UUID behind a nickname."
    }

    /// Parses a link debug subcommand.  The first word after `RAW` names
    /// the target and is not part of the forwarded text; a bare `RAW`
    /// parses as an empty raw line rather than being rejected.
    pub fn parse(inp: &Vec<String>) -> (r: Option<InspCommand>)
        ensures
            match r {
                Some(c) => spec_parse_insp(inp@.map_values(|s: String| s@)) == Some(c@),
                None => spec_parse_insp(inp@.map_values(|s: String| s@)) is None,
            },
    {
        if inp.len() < 1 {
            return None;
        }
        let ghost iv = inp@.map_values(|s: String| s@);
        let cmd = util::lower_str(inp[0].as_str());
        if util::string_eq(&cmd, "raw") {
            let rest: Vec<String> = if inp.len() >= 2 {
                tail_of(inp, 2)
            } else {
                Vec::new()
            };
            proof {
                if inp@.len() < 2 {
                    assert(rest@.map_values(|s: String| s@) =~= Seq::<Seq<char>>::empty());
                }
            }
            let joined = crate::insp_user::join_space(&rest);
            Some(InspCommand::Raw(joined))
        } else if util::string_eq(&cmd, "uuquery") && inp.len() == 2 {
            Some(InspCommand::QueryUuid(inp[1].clone()))
        } else if util::string_eq(&cmd, "nickquery") && inp.len() == 2 {
            Some(InspCommand::QueryNickUuid(inp[1].clone()))
        } else {
            None
        }
    }
}

/// One full admin command.
pub enum AdminCommand {
    GhostCmd(String, GhostCommand),
    Contact(ContactCommand),
    Whatsapp(AdminWhatsappCommand),
    Modem(AdminModemCommand),
    Group(GroupCommand),
    Insp(InspCommand),
    Help(Option<String>),
}

#[verifier::ext_equal]
pub enum AdminCommandView {
    GhostCmd(Seq<char>, GhostCommandView),
    Contact(ContactCommandView),
    Whatsapp(AdminWhatsappCommand),
    Modem(AdminModemCommandView),
    Group(GroupCommandView),
    Insp(InspCommandView),
    Help(Option<Seq<char>>),
}

impl View for AdminCommand {
    type V = AdminCommandView;

    open spec fn view(&self) -> AdminCommandView {
        match self {
            AdminCommand::GhostCmd(n, c) => AdminCommandView::GhostCmd(n@, c@),
            AdminCommand::Contact(c) => AdminCommandView::Contact(c@),
            AdminCommand::Whatsapp(c) => AdminCommandView::Whatsapp(*c),
            AdminCommand::Modem(c) => AdminCommandView::Modem(c@),
            AdminCommand::Group(c) => AdminCommandView::Group(c@),
            AdminCommand::Insp(c) => AdminCommandView::Insp(c@),
            AdminCommand::Help(p) => AdminCommandView::Help(crate::models::view_opt_string(*p)),
        }
    }
}

pub open spec fn spec_parse_admin(inp: Seq<Seq<char>>) -> Option<AdminCommandView> {
    if inp.len() < 1 {
        None
    } else {
        let cmd = spec_lower(inp[0]);
        if cmd == "contact"@ {
            match spec_parse_contact(inp.drop_first()) {
                Some(c) => Some(AdminCommandView::Contact(c)),
                None => None,
            }
        } else if cmd == "whatsapp"@ {
            match spec_parse_whatsapp(inp.drop_first()) {
                Some(c) => Some(AdminCommandView::Whatsapp(c)),
                None => None,
            }
        } else if cmd == "group"@ {
            match spec_parse_group(inp.drop_first()) {
                Some(c) => Some(AdminCommandView::Group(c)),
                None => None,
            }
        } else if cmd == "modem"@ {
            match spec_parse_modem(inp.drop_first()) {
                Some(c) => Some(AdminCommandView::Modem(c)),
                None => None,
            }
        } else if cmd == "insp"@ {
            match spec_parse_insp(inp.drop_first()) {
                Some(c) => Some(AdminCommandView::Insp(c)),
                None => None,
            }
        } else if cmd == "ghost"@ {
            if inp.len() < 3 {
                None
            } else {
                match spec_parse_ghost(inp.skip(2)) {
                    Some(c) => Some(AdminCommandView::GhostCmd(inp[1], c)),
                    None => None,
                }
            }
        } else if cmd == "help"@ {
            if inp.len() >= 2 {
                Some(AdminCommandView::Help(Some(inp[1])))
            } else {
                Some(AdminCommandView::Help(None))
            }
        } else {
            None
        }
    }
}

/// The words from a given position on.
pub fn tail_words(inp: &Vec<String>, from: usize) -> (r: Vec<String>)
    requires
        from <= inp@.len(),
    ensures
        r@.map_values(|s: String| s@) == inp@.map_values(|s: String| s@).skip(from as int),
{
    tail_of(inp, from)
}

fn tail_of(inp: &Vec<String>, from: usize) -> (r: Vec<String>)
    requires
        from <= inp@.len(),
    ensures
        r@.map_values(|s: String| s@) == inp@.map_values(|s: String| s@).skip(from as int),
{
    let ghost iv = inp@.map_values(|s: String| s@);
    let mut rest: Vec<String> = Vec::new();
    let cnt = inp.len();
    let mut i: usize = from;
    while i < cnt
        invariant
            cnt == inp@.len(),
            from <= i <= cnt,
            iv == inp@.map_values(|s: String| s@),
            rest@.len() == i - from,
            forall|j: int| 0 <= j < rest@.len() ==> (#[trigger] rest@[j])@ == iv[from + j],
        decreases cnt - i,
    {
        rest.push(inp[i].clone());
        i = i + 1;
    }
    proof {
        assert(rest@.map_values(|s: String| s@) =~= iv.skip(from as int));
    }
    rest
}

impl AdminCommand {
    /// The help overview.
    pub fn help() -> (r: &'static str)
        ensures
            r@ == ("*** sms-irc help ***\nGHOST nickname subcommand: manage ghosts.\nCONTACT subcommand: establish contact with new people.\nWHATSAPP subcommand: manage WhatsApp registration and login.\nMODEM subcommand: query and manage the modem.\nGROUP subcommand: bridge and unbridge group chats.\nINSP subcommand: server-to-server link debug commands.\nHELP [command]: show help.")@,
    {
        "*** sms-irc help ***\nGHOST nickname subcommand: manage ghosts.\nCONTACT subcommand: establish contact with new people.\nWHATSAPP subcommand: manage WhatsApp registration and login.\nMODEM subcommand: query and manage the modem.\nGROUP subcommand: bridge and unbridge group chats.\nINSP subcommand: server-to-server link debug commands.\nHELP [command]: show help."
    }

    /// Parses one full admin command.
    pub fn parse(inp: &Vec<String>) -> (r: Option<AdminCommand>)
        ensures
            match r {
                Some(c) => spec_parse_admin(inp@.map_values(|s: String| s@)) == Some(c@),
                None => spec_parse_admin(inp@.map_values(|s: String| s@)) is None,
            },
    {
        if inp.len() < 1 {
            return None;
        }
        let ghost iv = inp@.map_values(|s: String| s@);
        let cmd = util::lower_str(inp[0].as_str());
        if util::string_eq(&cmd, "contact") {
            let rest = tail_of(inp, 1);
            proof {
                assert(iv.skip(1) =~= iv.drop_first());
            }
            match ContactCommand::parse(&rest) {
                Some(c) => Some(AdminCommand::Contact(c)),
                None => None,
            }
        } else if util::string_eq(&cmd, "whatsapp") {
            let rest = tail_of(inp, 1);
            proof {
                assert(iv.skip(1) =~= iv.drop_first());
            }
            match AdminWhatsappCommand::parse(&rest) {
                Some(c) => Some(AdminCommand::Whatsapp(c)),
                None => None,
            }
        } else if util::string_eq(&cmd, "group") {
            let rest = tail_of(inp, 1);
            proof {
                assert(iv.skip(1) =~= iv.drop_first());
            }
            match GroupCommand::parse(&rest) {
                Some(c) => Some(AdminCommand::Group(c)),
                None => None,
            }
        } else if util::string_eq(&cmd, "modem") {
            let rest = tail_of(inp, 1);
            proof {
                assert(iv.skip(1) =~= iv.drop_first());
            }
            match AdminModemCommand::parse(&rest) {
                Some(c) => Some(AdminCommand::Modem(c)),
                None => None,
            }
        } else if util::string_eq(&cmd, "insp") {
            let rest = tail_of(inp, 1);
            proof {
                assert(iv.skip(1) =~= iv.drop_first());
            }
            match InspCommand::parse(&rest) {
                Some(c) => Some(AdminCommand::Insp(c)),
                None => None,
            }
        } else if util::string_eq(&cmd, "ghost") {
            if inp.len() < 3 {
                return None;
            }
            let rest = tail_of(inp, 2);
            match GhostCommand::parse(&rest) {
                Some(c) => Some(AdminCommand::GhostCmd(inp[1].clone(), c)),
                None => None,
            }
        } else if util::string_eq(&cmd, "help") {
            if inp.len() >= 2 {
                Some(AdminCommand::Help(Some(inp[1].clone())))
            } else {
                Some(AdminCommand::Help(None))
            }
        } else {
            None
        }
    }
}

/// The help page behind a topic word, or the overview when none is given.
pub fn help_page(query: Option<&str>) -> (r: Option<&'static str>)
    ensures
        query is None ==> (r matches Some(p) && p@ == ("*** sms-irc help ***\nGHOST nickname subcommand: manage ghosts.\nCONTACT subcommand: establish contact with new people.\nWHATSAPP subcommand: manage WhatsApp registration and login.\nMODEM subcommand: query and manage the modem.\nGROUP subcommand: bridge and unbridge group chats.\nINSP subcommand: server-to-server link debug commands.\nHELP [command]: show help.")@),
        query matches Some(q) ==> ({
            let ql = spec_lower(q@);
            if ql == "ghost"@ {
                r matches Some(p) && p@ == ("*** GHOST subcommand ***\nRENAME new_nick: change the ghost's nickname.\nWHATSAPP true|false: enable or disable WhatsApp mode.\nREMOVE (aliases KILL, DIE): remove this recipient.")@
            } else if ql == "modem"@ {
                r matches Some(p) && p@ == ("*** MODEM subcommand ***\nSIGNAL (alias CSQ): get the current signal strength.\nREGISTRATION (alias REG): get the registration state.\nRESTART: reinitialize the modem connection.\nPATH [temp_path]: temporarily change or disable the modem path.")@
            } else if ql == "contact"@ {
                r matches Some(p) && p@ == ("*** CONTACT subcommand ***\nWHATSAPP number: contact someone new via WhatsApp.\nSMS number: contact someone new via SMS.")@
            } else if ql == "whatsapp"@ {
                r matches Some(p) && p@ == ("*** WHATSAPP subcommand ***\nSETUP: begin registration; erases existing credentials.\nLOGON: log on with stored credentials.\nCHATS: list all WhatsApp chats.\nREBUILD: refresh group metadata for all groups.")@
            } else if ql == "group"@ {
                r matches Some(p) && p@ == ("*** GROUP subcommand ***\nBRIDGE jid chan: bridge the WhatsApp group jid to the channel chan.\nUNBRIDGE chan: unbridge the channel chan.")@
            } else if ql == "insp"@ {
                r matches Some(p) && p@ == ("*** INSP subcommand ***\nRAW raw_line: send the raw line to the linked server.\nUUQUERY uuid: show the user behind a UUID.\nNICKQUERY nick: show the UUID behind a nickname.")@
            } else {
                r is None
            }
        }),
{
    match query {
        Some(q) => {
            let ql = util::lower_str(q);
            if util::string_eq(&ql, "ghost") {
                Some(GhostCommand::help())
            } else if util::string_eq(&ql, "modem") {
                Some(AdminModemCommand::help())
            } else if util::string_eq(&ql, "contact") {
                Some(ContactCommand::help())
            } else if util::string_eq(&ql, "whatsapp") {
                Some(AdminWhatsappCommand::help())
            } else if util::string_eq(&ql, "group") {
                Some(GroupCommand::help())
            } else if util::string_eq(&ql, "insp") {
                Some(InspCommand::help())
            } else {
                None
            }
        },
        None => Some(AdminCommand::help()),
    }
}

} // verus!

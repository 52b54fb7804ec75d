//! Client-connection registration for the IRC-server frontend: capability
//! negotiation and the NICK/USER handshake, as a state machine over
//! structured lines.

use vstd::prelude::*;
use crate::line::IrcLine;
use crate::util;

verus! {

/// A client capability the bridge understands.
#[derive(Clone, Copy, PartialEq, Eq, Structural, Debug)]
pub enum IrcCap {
    AwayNotify,
}

impl IrcCap {
    /// The wire name of a capability.
    pub fn cap_name(&self) -> (r: &'static str)
        ensures
            r@ == "away-notify"@,
    {
        match *self {
            IrcCap::AwayNotify => "away-notify",
        }
    }

    /// The capability behind a wire name.
    pub fn from_cap_name(cn: &str) -> (r: Option<IrcCap>)
        ensures
            cn@ == "away-notify"@ ==> r == Some(IrcCap::AwayNotify),
            cn@ != "away-notify"@ ==> r is None,
    {
        if util::str_eq(cn, "away-notify") {
            Some(IrcCap::AwayNotify)
        } else {
            None
        }
    }
}

/// What a finished registration hands over.
pub struct RegistrationInformation {
    pub nick: String,
    pub user: String,
    pub realname: String,
    pub caps: Vec<IrcCap>,
}

/// A client connection working through registration.
pub struct PendingIrcConnection {
    pub cap_ended: bool,
    pub nick: Option<String>,
    pub user: Option<String>,
    pub realname: Option<String>,
    pub caps: Vec<IrcCap>,
    pub outbox: Vec<IrcLine>,
    pub failed: bool,
}

impl PendingIrcConnection {
    /// A fresh connection: nothing negotiated yet, capability negotiation
    /// not in progress.
    pub fn new() -> (r: PendingIrcConnection)
        ensures
            r.cap_ended == true,
            r.nick is None,
            r.user is None,
            r.realname is None,
            r.caps@.len() == 0,
            r.outbox@.len() == 0,
            r.failed == false,
    {
        PendingIrcConnection {
            cap_ended: true,
            nick: None,
            user: None,
            realname: None,
            caps: Vec::new(),
            outbox: Vec::new(),
            failed: false,
        }
    }

    /// Registration is done once the nick, user and real name are known
    /// and capability negotiation is not left open.
    pub open spec fn spec_is_done(&self) -> bool {
        &&& self.cap_ended
        &&& self.nick is Some
        &&& self.user is Some
        &&& self.realname is Some
        &&& !self.failed
    }

    /// Whether registration is complete.
    pub fn is_done(&self) -> (r: bool)
        ensures
            r == self.spec_is_done(),
    {
        self.cap_ended && self.nick.is_some() && self.user.is_some() && self.realname.is_some()
            && !self.failed
    }

    /// Handles one line from the registering client: NICK and USER record
    /// identity, CAP LS opens capability negotiation and CAP END closes
    /// it, CAP REQ acknowledges known capabilities and rejects unknown
    /// ones, QUIT abandons the connection, and anything else is answered
    /// with a not-registered error.
    pub fn handle_remote_message(&mut self, line: &IrcLine)
        ensures
            line@.command == "NICK"@ && line@.args.len() >= 1 ==> (final(self).nick matches Some(
                n,
            ) && n@ == line@.args[0]),
            line@.command == "QUIT"@ ==> final(self).failed == true,
            line@.command == "CAP"@ && line@.args.len() >= 1 && line@.args[0] == "END"@ ==> final(self).cap_ended == true,
            line@.command == "CAP"@ && line@.args.len() >= 1 && line@.args[0] == "LS"@ ==> final(self).cap_ended == false,
    {
        proof {
            reveal_strlit("NICK");
            reveal_strlit("USER");
            reveal_strlit("CAP");
            reveal_strlit("QUIT");
            reveal_strlit("PASS");
            reveal_strlit("LS");
            reveal_strlit("REQ");
            reveal_strlit("LIST");
            reveal_strlit("END");
            assert("NICK"@ != "QUIT"@) by {
                assert("NICK"@[0] == 'N');
                assert("QUIT"@[0] == 'Q');
            }
            assert("NICK"@ != "CAP"@) by {
                assert("NICK"@.len() == 4);
                assert("CAP"@.len() == 3);
            }
            assert("USER"@ != "QUIT"@) by {
                assert("USER"@[0] == 'U');
                assert("QUIT"@[0] == 'Q');
            }
            assert("USER"@ != "NICK"@) by {
                assert("USER"@[0] == 'U');
                assert("NICK"@[0] == 'N');
            }
            assert("LS"@ != "REQ"@) by {
                assert("LS"@.len() == 2);
                assert("REQ"@.len() == 3);
            }
            assert("LS"@ != "END"@) by {
                assert("LS"@.len() == 2);
                assert("END"@.len() == 3);
            }
            assert("REQ"@ != "END"@) by {
                assert("REQ"@[0] == 'R');
                assert("END"@[0] == 'E');
            }
            assert("LIST"@ != "LS"@) by {
                assert("LIST"@.len() == 4);
                assert("LS"@.len() == 2);
            }
            assert("LIST"@ != "END"@) by {
                assert("LIST"@.len() == 4);
                assert("END"@.len() == 3);
            }
            assert("LIST"@ != "REQ"@) by {
                assert("LIST"@[0] == 'L');
                assert("REQ"@[0] == 'R');
            }
            assert("CAP"@ != "QUIT"@) by {
                assert("CAP"@.len() == 3);
                assert("QUIT"@.len() == 4);
            }
            assert("CAP"@ != "USER"@) by {
                assert("CAP"@.len() == 3);
                assert("USER"@.len() == 4);
            }
            assert("CAP"@ != "PASS"@) by {
                assert("CAP"@.len() == 3);
                assert("PASS"@.len() == 4);
            }
            assert("PASS"@ != "QUIT"@) by {
                assert("PASS"@[0] == 'P');
                assert("QUIT"@[0] == 'Q');
            }
            assert("PASS"@ != "NICK"@) by {
                assert("PASS"@[0] == 'P');
                assert("NICK"@[0] == 'N');
            }
            assert("USER"@ != "PASS"@) by {
                assert("USER"@[0] == 'U');
                assert("PASS"@[0] == 'P');
            }
        }
        if util::string_eq(&line.command, "NICK") {
            if line.args.len() >= 1 {
                self.nick = Some(line.args[0].clone());
            }
            return;
        }
        if util::string_eq(&line.command, "USER") {
            if line.args.len() >= 1 {
                self.user = Some(line.args[0].clone());
                match &line.suffix {
                    Some(rn) => {
                        self.realname = Some(rn.clone());
                    },
                    None => {
                        if line.args.len() >= 2 {
                            self.realname = Some(
                                line.args[line.args.len() - 1].clone(),
                            );
                        }
                    },
                }
            }
            return;
        }
        if util::string_eq(&line.command, "CAP") {
            if line.args.len() < 1 {
                return;
            }
            if util::string_eq(&line.args[0], "LS") {
                self.cap_ended = false;
                self.reply1("CAP", "LS", Some(String::from_str("away-notify")));
                return;
            }
            if util::string_eq(&line.args[0], "REQ") {
                let req: Option<String> = match &line.suffix {
                    Some(t) => Some(t.clone()),
                    None => {
                        if line.args.len() >= 2 {
                            Some(line.args[1].clone())
                        } else {
                            None
                        }
                    },
                };
                match req {
                    Some(caps_text) => {
                        let words = util::tokenize_spaces(caps_text.as_str());
                        let wcnt = words.len();
                        let mut wi: usize = 0;
                        while wi < wcnt
                            invariant
                                wcnt == words@.len(),
                                wi <= wcnt,
                            decreases wcnt - wi,
                        {
                            match IrcCap::from_cap_name(words[wi].as_str()) {
                                Some(c) => {
                                    self.caps.push(c);
                                    self.reply1("CAP", "ACK", Some(words[wi].clone()));
                                },
                                None => {
                                    self.reply1("CAP", "NAK", Some(words[wi].clone()));
                                },
                            }
                            wi = wi + 1;
                        }
                    },
                    None => {},
                }
                return;
            }
            if util::string_eq(&line.args[0], "LIST") {
                let mut listed = String::new();
                let ccnt = self.caps.len();
                let mut ci: usize = 0;
                while ci < ccnt
                    invariant
                        ci <= ccnt,
                        ccnt == self.caps@.len(),
                    decreases ccnt - ci,
                {
                    if ci > 0 {
                        listed.push(' ');
                    }
                    listed.append(self.caps[ci].cap_name());
                    ci = ci + 1;
                }
                self.reply1("CAP", "LIST", Some(listed));
                return;
            }
            if util::string_eq(&line.args[0], "END") {
                self.cap_ended = true;
            }
            return;
        }
        if util::string_eq(&line.command, "QUIT") {
            self.failed = true;
            return;
        }
        if util::string_eq(&line.command, "PASS") {
            return;
        }
        self.reply1("451", "*", Some(String::from_str("You have not registered")));
    }

    /// Queues one server reply with a star target and one argument.
    fn reply1(&mut self, cmd: &str, arg: &str, suffix: Option<String>)
        ensures
            *final(self) == (PendingIrcConnection { outbox: final(self).outbox, ..*old(self) }),
            final(self).outbox@.len() == old(self).outbox@.len() + 1,
    {
        let mut args: Vec<String> = Vec::new();
        args.push(arg.to_owned());
        let line = IrcLine::new(Some(String::from_str("sms-irc.")), cmd, args, suffix);
        self.outbox.push(line);
    }

    /// Hands the finished registration over; nothing comes out until
    /// registration is done.
    pub fn take_registration(&self) -> (r: Option<RegistrationInformation>)
        ensures
            r is Some <==> self.spec_is_done(),
            r matches Some(info) ==> info.nick@ == self.nick.unwrap()@ && info.user@
                == self.user.unwrap()@ && info.realname@ == self.realname.unwrap()@,
    {
        if !self.is_done() {
            return None;
        }
        let nick = match &self.nick {
            Some(n) => n.clone(),
            None => {
                proof {
                    assert(false);
                }
                return None;
            },
        };
        let user = match &self.user {
            Some(u) => u.clone(),
            None => {
                proof {
                    assert(false);
                }
                return None;
            },
        };
        let realname = match &self.realname {
            Some(rn) => rn.clone(),
            None => {
                proof {
                    assert(false);
                }
                return None;
            },
        };
        let mut caps: Vec<IrcCap> = Vec::new();
        let ccnt = self.caps.len();
        let mut ci: usize = 0;
        while ci < ccnt
            invariant
                ci <= ccnt,
                ccnt == self.caps@.len(),
            decreases ccnt - ci,
        {
            caps.push(self.caps[ci]);
            ci = ci + 1;
        }
        Some(RegistrationInformation { nick, user, realname, caps })
    }
}

} // verus!

//! Protocol-level user records mirrored on the server-to-server link.

use vstd::prelude::*;
use crate::util;
use crate::addr::{PduAddr, spec_addr_string, addr_to_string};
use crate::nick::{spec_nick_of, string_to_irc_nick};

verus! {

/// One user as seen on the wire: the fields of a `UID` line.
pub struct InspUser {
    pub ts: i64,
    pub nick: String,
    pub hostname: String,
    pub displayed_hostname: String,
    pub ident: String,
    pub ip: String,
    pub signon_time: i64,
    pub modes: String,
    pub gecos: String,
}

#[verifier::ext_equal]
pub struct InspUserView {
    pub ts: i64,
    pub nick: Seq<char>,
    pub hostname: Seq<char>,
    pub displayed_hostname: Seq<char>,
    pub ident: Seq<char>,
    pub ip: Seq<char>,
    pub signon_time: i64,
    pub modes: Seq<char>,
    pub gecos: Seq<char>,
}

impl View for InspUser {
    type V = InspUserView;

    open spec fn view(&self) -> InspUserView {
        InspUserView {
            ts: self.ts,
            nick: self.nick@,
            hostname: self.hostname@,
            displayed_hostname: self.displayed_hostname@,
            ident: self.ident@,
            ip: self.ip@,
            signon_time: self.signon_time,
            modes: self.modes@,
            gecos: self.gecos@,
        }
    }
}

/// The given strings joined with single spaces.
pub open spec fn spec_join_space(parts: Seq<Seq<char>>) -> Seq<char>
    decreases parts.len(),
{
    if parts.len() == 0 {
        Seq::<char>::empty()
    } else if parts.len() == 1 {
        parts[0]
    } else {
        parts[0] + seq![' '] + spec_join_space(parts.drop_first())
    }
}

fn join_space_from(parts: &Vec<String>, i: usize) -> (r: String)
    requires
        i <= parts@.len(),
    ensures
        r@ == spec_join_space(parts@.map_values(|s: String| s@).skip(i as int)),
    decreases parts@.len() - i,
{
    let ghost pv = parts@.map_values(|s: String| s@);
    if i == parts.len() {
        proof {
            assert(pv.skip(i as int) =~= Seq::<Seq<char>>::empty());
        }
        String::new()
    } else if i + 1 == parts.len() {
        proof {
            assert(pv.skip(i as int).len() == 1);
            assert(pv.skip(i as int)[0] == pv[i as int]);
        }
        parts[i].clone()
    } else {
        let mut out = parts[i].clone();
        out.push(' ');
        let rest = join_space_from(parts, i + 1);
        proof {
            assert(pv.skip(i as int)[0] == pv[i as int]);
            assert(pv.skip(i as int).drop_first() =~= pv.skip(i + 1));
            assert(pv.skip(i as int).len() >= 2);
        }
        out.concat(rest.as_str())
    }
}

/// Joins words with single spaces.
pub fn join_space(parts: &Vec<String>) -> (r: String)
    ensures
        r@ == spec_join_space(parts@.map_values(|s: String| s@)),
{
    let r = join_space_from(parts, 0);
    proof {
        assert(parts@.map_values(|s: String| s@).skip(0) =~= parts@.map_values(|s: String| s@));
    }
    r
}

impl InspUser {
    pub fn duplicate(&self) -> (r: InspUser)
        ensures
            r@ == self@,
    {
        let r = InspUser {
            ts: self.ts,
            nick: self.nick.clone(),
            hostname: self.hostname.clone(),
            displayed_hostname: self.displayed_hostname.clone(),
            ident: self.ident.clone(),
            ip: self.ip.clone(),
            signon_time: self.signon_time,
            modes: self.modes.clone(),
            gecos: self.gecos.clone(),
        };
        proof {
            assert(r@ =~= self@);
        }
        r
    }

    /// Reads a user from the arguments and trailing text of a remote `UID`
    /// line: at least nine arguments, the two timestamps numeric, the
    /// trailing text present; the first argument is the user's UUID and any
    /// arguments past the ninth join the mode string.
    pub fn new_from_uid_line(args: Vec<String>, suffix: Option<String>) -> (r: Result<
        (String, InspUser),
        String,
    >)
        ensures
            ({
                let av = args@.map_values(|s: String| s@);
                r matches Ok(p) <==> args@.len() >= 9 && suffix is Some && util::spec_parse_i64(
                    av[1],
                ) is Some && util::spec_parse_i64(av[7]) is Some
            }),
            r matches Ok(p) ==> ({
                let av = args@.map_values(|s: String| s@);
                &&& p.0@ == av[0]
                &&& p.1@ == (InspUserView {
                    ts: util::spec_parse_i64(av[1]).unwrap(),
                    nick: av[2],
                    hostname: av[3],
                    displayed_hostname: av[4],
                    ident: av[5],
                    ip: av[6],
                    signon_time: util::spec_parse_i64(av[7]).unwrap(),
                    modes: spec_join_space(av.skip(8)),
                    gecos: suffix.unwrap()@,
                })
            }),
    {
        if args.len() < 9 {
            return Err(String::from_str("UID with invalid args"));
        }
        let gecos = match suffix {
            Some(s) => s,
            None => {
                return Err(String::from_str("UID with no suffix"));
            },
        };
        let ts = match util::parse_i64(args[1].as_str()) {
            Some(v) => v,
            None => {
                return Err(String::from_str("UID with bad timestamp"));
            },
        };
        let signon_time = match util::parse_i64(args[7].as_str()) {
            Some(v) => v,
            None => {
                return Err(String::from_str("UID with bad signon time"));
            },
        };
        let modes = join_space_from(&args, 8);
        let user = InspUser {
            ts,
            nick: args[2].clone(),
            hostname: args[3].clone(),
            displayed_hostname: args[4].clone(),
            ident: args[5].clone(),
            ip: args[6].clone(),
            signon_time,
            modes,
            gecos,
        };
        let uuid = args[0].clone();
        proof {
            let av = args@.map_values(|s: String| s@);
            assert(user@ =~= (InspUserView {
                ts: util::spec_parse_i64(av[1]).unwrap(),
                nick: av[2],
                hostname: av[3],
                displayed_hostname: av[4],
                ident: av[5],
                ip: av[6],
                signon_time: util::spec_parse_i64(av[7]).unwrap(),
                modes: spec_join_space(av.skip(8)),
                gecos: user.gecos@,
            }));
        }
        Ok((uuid, user))
    }

    /// The control pseudo-user's wire record, signed on at the given time.
    pub fn new_for_controlbot(nick: String, hostname: &str, ts: i64) -> (r: InspUser)
        ensures
            r@ == (InspUserView {
                ts: ts,
                nick: nick@,
                hostname: hostname@,
                displayed_hostname: hostname@,
                ident: "~control"@,
                ip: "0.0.0.0"@,
                signon_time: ts,
                modes: "+i"@,
                gecos: "sms-irc control bot"@,
            }),
    {
        let r = InspUser {
            ts,
            nick,
            hostname: hostname.to_owned(),
            displayed_hostname: hostname.to_owned(),
            ident: String::from_str("~control"),
            ip: String::from_str("0.0.0.0"),
            signon_time: ts,
            modes: String::from_str("+i"),
            gecos: String::from_str("sms-irc control bot"),
        };
        proof {
            assert(r@ =~= (InspUserView {
                ts: ts,
                nick: r.nick@,
                hostname: hostname@,
                displayed_hostname: hostname@,
                ident: "~control"@,
                ip: "0.0.0.0"@,
                signon_time: ts,
                modes: "+i"@,
                gecos: "sms-irc control bot"@,
            }));
        }
        r
    }

    /// The wire record of a ghost backed by a recipient: its ident is the
    /// nickname-safe form of the address, its gecos the address text.
    pub fn new_from_recipient(a: &PduAddr, nick: String, hostname: &str, ts: i64) -> (r: InspUser)
        ensures
            r@ == (InspUserView {
                ts: ts,
                nick: nick@,
                hostname: hostname@,
                displayed_hostname: hostname@,
                ident: spec_nick_of(spec_addr_string(a@)),
                ip: "0.0.0.0"@,
                signon_time: ts,
                modes: "+i"@,
                gecos: spec_addr_string(a@),
            }),
    {
        let addr_text = addr_to_string(a);
        let safe_addr = string_to_irc_nick(addr_text.as_str());
        let r = InspUser {
            ts,
            nick,
            hostname: hostname.to_owned(),
            displayed_hostname: hostname.to_owned(),
            ident: safe_addr,
            ip: String::from_str("0.0.0.0"),
            signon_time: ts,
            modes: String::from_str("+i"),
            gecos: addr_text,
        };
        proof {
            assert(r@ =~= (InspUserView {
                ts: ts,
                nick: r.nick@,
                hostname: hostname@,
                displayed_hostname: hostname@,
                ident: spec_nick_of(spec_addr_string(a@)),
                ip: "0.0.0.0"@,
                signon_time: ts,
                modes: "+i"@,
                gecos: spec_addr_string(a@),
            }));
        }
        r
    }
}

} // verus!

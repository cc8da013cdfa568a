//! SMTP password authentication: the verified core.
//!
//! The SMTP exchange itself is carried out by a mail transport outside
//! the library; the core derives the connection parameters, validates the
//! authentication mechanism against the closed set of accepted names, and
//! judges the transport's authentication result.

use vstd::prelude::*;
use vstd::utf8::encode_utf8;

use crate::plugin::Options;
use crate::session::Error;
use crate::session::Loot;
use crate::space::Credentials;
use crate::target::host_bytes;
use crate::target::parse_target;
use crate::target::port_value;
use crate::target::target_resolves;
use crate::target::target_text;

verus! {

pub const SMTP_DEFAULT_PORT: u16 = 25;

/// The closed set of authentication mechanisms a target may be asked to
/// use.
#[derive(Clone, Copy, PartialEq, Eq, Structural, Debug)]
pub enum Mechanism {
    Plain,
    Login,
    Xoauth2,
}

/// The mechanism denoted by an option value, if any: only `PLAIN`,
/// `LOGIN` and `XOAUTH2` are accepted.
pub open spec fn mechanism_of(s: Seq<char>) -> Option<Mechanism> {
    if s == "PLAIN"@ {
        Some(Mechanism::Plain)
    } else if s == "LOGIN"@ {
        Some(Mechanism::Login)
    } else if s == "XOAUTH2"@ {
        Some(Mechanism::Xoauth2)
    } else {
        None
    }
}

pub struct SMTP {
    pub host: String,
    pub port: u16,
    pub mechanism: Mechanism,
}

impl SMTP {
    pub fn new() -> (r: SMTP)
        ensures
            r.host@.len() == 0,
            r.port == SMTP_DEFAULT_PORT,
            r.mechanism == Mechanism::Plain,
    {
        SMTP { host: String::new(), port: SMTP_DEFAULT_PORT, mechanism: Mechanism::Plain }
    }

    pub fn description(&self) -> (r: &'static str)
        ensures
            r@ == "SMTP password authentication."@,
    {
        "SMTP password authentication."
    }

    /// Resolves the target and validates the mechanism option once.  An
    /// unresolvable target fails with `InvalidTarget` naming the target;
    /// otherwise a mechanism outside the accepted set fails with
    /// `InvalidMechanism` naming the rejected value.  On failure the
    /// plugin is left unchanged.
    pub fn setup(&mut self, opts: &Options) -> (r: Result<(), Error>)
        ensures
            r is Ok <==> (target_resolves(opts.target) && mechanism_of(opts.smtp_mechanism@)
                is Some),
            r is Ok ==> {
                &&& opts.target matches Some(t) && encode_utf8(final(self).host@) == host_bytes(
                    encode_utf8(t@),
                ) && final(self).port == port_value(encode_utf8(t@), SMTP_DEFAULT_PORT)
                &&& Some(final(self).mechanism) == mechanism_of(opts.smtp_mechanism@)
            },
            r is Err ==> *final(self) == *old(self),
            r is Err && !target_resolves(opts.target) ==> {
                &&& r matches Err(e) && e matches Error::InvalidTarget(s) && s@ == target_text(
                    opts.target,
                )
            },
            r is Err && target_resolves(opts.target) ==> {
                &&& r matches Err(e) && e matches Error::InvalidMechanism(m) && m@
                    == opts.smtp_mechanism@ && mechanism_of(opts.smtp_mechanism@) is None
            },
    {
        let (host, port) = match &opts.target {
            None => {
                let none_given = String::new();
                proof {
                    assert(none_given@ =~= Seq::<char>::empty());
                }
                return Err(Error::InvalidTarget(none_given));
            },
            Some(t) => {
                match parse_target(t.as_str(), SMTP_DEFAULT_PORT) {
                    Err(e) => {
                        return Err(e);
                    },
                    Ok(hp) => hp,
                }
            },
        };
        let mechanism: Mechanism = if opts.smtp_mechanism == "PLAIN".to_owned() {
            Mechanism::Plain
        } else if opts.smtp_mechanism == "LOGIN".to_owned() {
            Mechanism::Login
        } else if opts.smtp_mechanism == "XOAUTH2".to_owned() {
            Mechanism::Xoauth2
        } else {
            return Err(Error::InvalidMechanism(opts.smtp_mechanism.clone()));
        };
        self.host = host;
        self.port = port;
        self.mechanism = mechanism;
        Ok(())
    }

    /// Judges the transport's authentication result for a credential:
    /// loot exactly when the target accepted the authentication.
    pub fn classify(creds: &Credentials, auth_accepted: bool) -> (r: Option<Loot>)
        ensures
            r is Some <==> auth_accepted,
            r matches Some(l) ==> {
                &&& l.pairs@.len() == 2
                &&& l.pairs@[0].0@ == "username"@ && l.pairs@[0].1@ == creds.username@
                &&& l.pairs@[1].0@ == "password"@ && l.pairs@[1].1@ == creds.password@
            },
    {
        if auth_accepted {
            Some(Loot::from_credential(&creds.username, &creds.password))
        } else {
            None
        }
    }
}

} // verus!

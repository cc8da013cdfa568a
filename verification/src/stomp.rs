//! STOMP password authentication (ActiveMQ, RabbitMQ, HornetQ and
//! OpenMQ): the verified core.
//!
//! The core derives the connection parameters, builds the exact `CONNECT`
//! frame an attempt writes, and classifies the broker's response bytes.

use vstd::prelude::*;
use vstd::utf8::encode_utf8;

use crate::plugin::is_prefix_of;
use crate::plugin::prefix_matches;
use crate::plugin::Options;
use crate::session::Error;
use crate::session::Loot;
use crate::space::Credentials;
use crate::target::host_bytes;
use crate::target::parse_target;
use crate::target::port_value;
use crate::target::target_resolves;
use crate::target::target_text;

verus! {

pub const STOMP_DEFAULT_PORT: u16 = 61613;

/// The bytes an attempt writes: a `CONNECT` frame carrying the login and
/// the passcode, ended by a blank line and a NUL.
pub open spec fn stomp_connect_bytes(u: Seq<char>, p: Seq<char>) -> Seq<u8> {
    encode_utf8("CONNECT\nlogin:"@) + encode_utf8(u) + encode_utf8("\npasscode:"@) + encode_utf8(
        p,
    ) + encode_utf8("\n\n\x00\n"@)
}

/// A response that accepts the credential: it begins with `CONNECTED`.
pub open spec fn stomp_connected_response(b: Seq<u8>) -> bool {
    is_prefix_of(encode_utf8("CONNECTED"@), b)
}

pub struct STOMP {
    pub host: String,
    pub port: u16,
}

impl STOMP {
    pub fn new() -> (r: STOMP)
        ensures
            r.host@.len() == 0,
            r.port == STOMP_DEFAULT_PORT,
    {
        STOMP { host: String::new(), port: STOMP_DEFAULT_PORT }
    }

    pub fn description(&self) -> (r: &'static str)
        ensures
            r@ == "STOMP password authentication (ActiveMQ, RabbitMQ, HornetQ and OpenMQ)."@,
    {
        "STOMP password authentication (ActiveMQ, RabbitMQ, HornetQ and OpenMQ)."
    }

    /// Resolves the target once; the derived address is immutable for the
    /// plugin's lifetime.  On failure the error names the offending
    /// target and the plugin is left unchanged.
    pub fn setup(&mut self, opts: &Options) -> (r: Result<(), Error>)
        ensures
            r is Ok <==> target_resolves(opts.target),
            r is Ok ==> {
                &&& opts.target matches Some(t) && encode_utf8(final(self).host@) == host_bytes(
                    encode_utf8(t@),
                ) && final(self).port == port_value(encode_utf8(t@), STOMP_DEFAULT_PORT)
            },
            r is Err ==> *final(self) == *old(self),
            r matches Err(e) ==> e matches Error::InvalidTarget(s) && s@ == target_text(
                opts.target,
            ),
    {
        match &opts.target {
            None => {
                let none_given = String::new();
                proof {
                    assert(none_given@ =~= Seq::<char>::empty());
                }
                Err(Error::InvalidTarget(none_given))
            },
            Some(t) => {
                match parse_target(t.as_str(), STOMP_DEFAULT_PORT) {
                    Err(e) => Err(e),
                    Ok((host, port)) => {
                        self.host = host;
                        self.port = port;
                        Ok(())
                    },
                }
            },
        }
    }

    /// The exact frame bytes one attempt writes for a credential.
    pub fn connect_frame(creds: &Credentials) -> (r: Vec<u8>)
        ensures
            r@ == stomp_connect_bytes(creds.username@, creds.password@),
    {
        let mut frame: Vec<u8> = Vec::new();
        frame.extend_from_slice("CONNECT\nlogin:".as_bytes());
        frame.extend_from_slice(creds.username.as_str().as_bytes());
        frame.extend_from_slice("\npasscode:".as_bytes());
        frame.extend_from_slice(creds.password.as_str().as_bytes());
        frame.extend_from_slice("\n\n\x00\n".as_bytes());
        proof {
            assert(frame@ =~= stomp_connect_bytes(creds.username@, creds.password@));
        }
        frame
    }

    /// Judges the response bytes of one attempt: loot for the credential
    /// exactly when the broker answered with a `CONNECTED` frame.
    pub fn classify(creds: &Credentials, response: &[u8]) -> (r: Option<Loot>)
        ensures
            r is Some <==> stomp_connected_response(response@),
            r matches Some(l) ==> {
                &&& l.pairs@.len() == 2
                &&& l.pairs@[0].0@ == "username"@ && l.pairs@[0].1@ == creds.username@
                &&& l.pairs@[1].0@ == "password"@ && l.pairs@[1].1@ == creds.password@
            },
    {
        if prefix_matches(response, "CONNECTED".as_bytes()) {
            Some(Loot::from_credential(&creds.username, &creds.password))
        } else {
            None
        }
    }
}

} // verus!

//! Redis legacy and ACL password authentication: the verified core.
//!
//! The connection itself is transport work done outside the library; the
//! core derives the connection parameters from the options, builds the
//! exact `AUTH` command an attempt writes, and classifies the server's
//! response bytes.

use vstd::prelude::*;
use vstd::utf8::encode_utf8;

use crate::plugin::is_prefix_of;
use crate::plugin::prefix_matches;
use crate::plugin::Options;
use crate::session::Error;
use crate::session::Loot;
use crate::space::Credentials;
use crate::target::host_bytes;
use crate::target::parse_target;
use crate::target::port_value;
use crate::target::target_resolves;
use crate::target::target_text;

verus! {

pub const REDIS_DEFAULT_PORT: u16 = 6379;

/// The bytes an attempt writes: `AUTH <username> <password>` and a
/// newline.
pub open spec fn redis_auth_bytes(u: Seq<char>, p: Seq<char>) -> Seq<u8> {
    encode_utf8("AUTH "@) + encode_utf8(u) + encode_utf8(" "@) + encode_utf8(p) + encode_utf8(
        "\n"@,
    )
}

/// A response that accepts the credential: it begins with `+OK`.
pub open spec fn redis_ok_response(b: Seq<u8>) -> bool {
    is_prefix_of(encode_utf8("+OK"@), b)
}

pub struct Redis {
    pub ssl: bool,
    pub host: String,
    pub port: u16,
}

impl Redis {
    pub fn new() -> (r: Redis)
        ensures
            !r.ssl,
            r.host@.len() == 0,
            r.port == REDIS_DEFAULT_PORT,
    {
        Redis { ssl: false, host: String::new(), port: REDIS_DEFAULT_PORT }
    }

    pub fn description(&self) -> (r: &'static str)
        ensures
            r@ == "Redis legacy and ACL password authentication."@,
    {
        "Redis legacy and ACL password authentication."
    }

    /// Resolves the target once; the derived address and transport options
    /// are immutable for the plugin's lifetime.  On failure the error
    /// names the offending target and the plugin is left unchanged.
    pub fn setup(&mut self, opts: &Options) -> (r: Result<(), Error>)
        ensures
            r is Ok <==> target_resolves(opts.target),
            r is Ok ==> {
                &&& final(self).ssl == opts.redis_ssl
                &&& opts.target matches Some(t) && encode_utf8(final(self).host@) == host_bytes(
                    encode_utf8(t@),
                ) && final(self).port == port_value(encode_utf8(t@), REDIS_DEFAULT_PORT)
            },
            r is Err ==> *final(self) == *old(self),
            r matches Err(e) ==> e matches Error::InvalidTarget(s) && s@ == target_text(
                opts.target,
            ),
    {
        match &opts.target {
            None => {
                let none_given = String::new();
                proof {
                    assert(none_given@ =~= Seq::<char>::empty());
                }
                Err(Error::InvalidTarget(none_given))
            },
            Some(t) => {
                match parse_target(t.as_str(), REDIS_DEFAULT_PORT) {
                    Err(e) => Err(e),
                    Ok((host, port)) => {
                        self.ssl = opts.redis_ssl;
                        self.host = host;
                        self.port = port;
                        Ok(())
                    },
                }
            },
        }
    }

    /// The exact command bytes one attempt writes for a credential.
    pub fn auth_payload(creds: &Credentials) -> (r: Vec<u8>)
        ensures
            r@ == redis_auth_bytes(creds.username@, creds.password@),
    {
        let mut payload: Vec<u8> = Vec::new();
        payload.extend_from_slice("AUTH ".as_bytes());
        payload.extend_from_slice(creds.username.as_str().as_bytes());
        payload.extend_from_slice(" ".as_bytes());
        payload.extend_from_slice(creds.password.as_str().as_bytes());
        payload.extend_from_slice("\n".as_bytes());
        proof {
            assert(payload@ =~= redis_auth_bytes(creds.username@, creds.password@));
        }
        payload
    }

    /// Judges the response bytes of one attempt: loot for the credential
    /// exactly when the server answered `+OK`.
    pub fn classify(creds: &Credentials, response: &[u8]) -> (r: Option<Loot>)
        ensures
            r is Some <==> redis_ok_response(response@),
            r matches Some(l) ==> {
                &&& l.pairs@.len() == 2
                &&& l.pairs@[0].0@ == "username"@ && l.pairs@[0].1@ == creds.username@
                &&& l.pairs@[1].0@ == "password"@ && l.pairs@[1].1@ == creds.password@
            },
    {
        if prefix_matches(response, "+OK".as_bytes()) {
            Some(Loot::from_credential(&creds.username, &creds.password))
        } else {
            None
        }
    }
}

} // verus!

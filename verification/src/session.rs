//! Run-level error taxonomy and the record of a successful authentication.

use vstd::prelude::*;

verus! {

/// Why a run component could not be built or an attempt could not be judged.
///
/// Construction-time variants (`InvalidPattern`, `InvalidTarget`,
/// `InvalidMechanism`, `Io`, `DuplicatePlugin`) are fatal to the component
/// they concern and carry the offending value; `Attempt` is a transient
/// network-level failure of a single attempt and is retried by the
/// scheduler, never fatal to the run.
#[derive(Clone, Debug)]
pub enum Error {
    /// The filesystem pattern was syntactically invalid; holds the
    /// pattern library's message.
    InvalidPattern(String),
    /// The target string could not be resolved to a host and port.
    InvalidTarget(String),
    /// The authentication mechanism is not one of the accepted names.
    InvalidMechanism(String),
    /// A credential source's backing resource could not be read.
    Io(String),
    /// A plugin was registered twice under the same protocol name.
    DuplicatePlugin(String),
    /// A transient connection or protocol failure during one attempt.
    Attempt(String),
}

/// Evidence of one successful authentication: an ordered list of
/// key/value pairs, e.g. `username` and `password`.
#[derive(Clone, Debug)]
pub struct Loot {
    pub pairs: Vec<(String, String)>,
}

impl Loot {
    /// Builds the loot record for a credential pair that a target accepted.
    pub fn from_credential(username: &String, password: &String) -> (r: Loot)
        ensures
            r.pairs@.len() == 2,
            r.pairs@[0].0@ == "username"@,
            r.pairs@[0].1@ == username@,
            r.pairs@[1].0@ == "password"@,
            r.pairs@[1].1@ == password@,
    {
        let mut pairs: Vec<(String, String)> = Vec::new();
        pairs.push(("username".to_owned(), username.clone()));
        pairs.push(("password".to_owned(), password.clone()));
        Loot { pairs }
    }
}

} // verus!

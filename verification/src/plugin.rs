//! The uniform capability contract every protocol handler implements, the
//! options it is configured from, and shared response-classification
//! helpers.

use vstd::prelude::*;

use crate::session::Error;
use crate::session::Loot;
use crate::space::Credentials;

verus! {

/// Configuration handed to a plugin's `setup`: the universal raw target
/// string plus the protocol-specific options the in-tree plugins read.
pub struct Options {
    pub target: Option<String>,
    pub redis_ssl: bool,
    pub smtp_mechanism: String,
}

/// The capability surface of a protocol handler: describe itself, derive
/// immutable connection parameters once from the options, and attempt one
/// credential against the target within a timeout.  `attempt` reports
/// `Ok(Some(loot))` on an accepted credential, `Ok(None)` on a rejected
/// one, and `Err` on a transient network or protocol failure; the
/// scheduler handles every outcome, so no behaviour is assumed of
/// implementations.
pub trait Plugin {
    fn description(&self) -> &'static str;

    fn setup(&mut self, opts: &Options) -> Result<(), Error>;

    fn attempt(&self, creds: &Credentials, timeout_ms: u64) -> Result<Option<Loot>, Error>;
}

/// `p` is the first part of `b`.
pub open spec fn is_prefix_of(p: Seq<u8>, b: Seq<u8>) -> bool {
    p.len() <= b.len() && b.take(p.len() as int) == p
}

/// Whether a protocol response begins with the expected byte run.
pub fn prefix_matches(buf: &[u8], prefix: &[u8]) -> (r: bool)
    ensures
        r == is_prefix_of(prefix@, buf@),
{
    let m: usize = prefix.len();
    if m > buf.len() {
        return false;
    }
    let mut i: usize = 0;
    while i < m
        invariant
            m == prefix@.len(),
            m <= buf@.len(),
            i <= m,
            forall|k: int| 0 <= k < i ==> buf@[k] == prefix@[k],
        decreases m - i,
    {
        if buf[i] != prefix[i] {
            proof {
                assert(buf@.take(m as int)[i as int] != prefix@[i as int]);
            }
            return false;
        }
        i = i + 1;
    }
    proof {
        assert(buf@.take(m as int) =~= prefix@);
    }
    true
}

} // verus!

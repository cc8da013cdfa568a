//! Process-wide mapping from protocol name to plugin prototype.
//!
//! The registry is populated once, before any scheduling begins, by an
//! explicit initialization routine, and is read-only thereafter.
//! Registering twice under one name fails fast, so dispatch is never
//! ambiguous.

use vstd::prelude::*;

use crate::session::Error;

verus! {

/// The protocols this build knows; the prototype to instantiate for a
/// name.
#[derive(Clone, Copy, PartialEq, Eq, Structural, Debug)]
pub enum PluginKind {
    Redis,
    Smtp,
    Stomp,
}

pub struct Registry {
    pub entries: Vec<(String, PluginKind)>,
}

impl Registry {
    /// Some already-registered entry carries this name.
    pub open spec fn contains_name(&self, name: Seq<char>) -> bool {
        exists|i: int| 0 <= i < self.entries@.len() && #[trigger] self.entries@[i].0@ == name
    }

    /// Names are registered at most once.
    pub open spec fn inv(&self) -> bool {
        forall|i: int, j: int|
            0 <= i < j < self.entries@.len() ==> #[trigger] self.entries@[i].0@ != #[trigger] self
                .entries@[j].0@
    }

    pub fn new() -> (r: Registry)
        ensures
            r.inv(),
            r.entries@.len() == 0,
    {
        Registry { entries: Vec::new() }
    }

    /// Adds a prototype under a protocol name; fails fast when the name
    /// is taken, leaving the registry unchanged.
    pub fn register(&mut self, name: String, kind: PluginKind) -> (r: Result<(), Error>)
        requires
            old(self).inv(),
        ensures
            final(self).inv(),
            r is Ok <==> !old(self).contains_name(name@),
            r is Ok ==> final(self).entries@ == old(self).entries@.push((name, kind)),
            r is Err ==> final(self).entries@ == old(self).entries@,
            r matches Err(e) ==> e matches Error::DuplicatePlugin(n) && n@ == name@,
    {
        let n: usize = self.entries.len();
        let mut i: usize = 0;
        while i < n
            invariant
                self.inv(),
                self.entries@ == old(self).entries@,
                n == self.entries@.len(),
                i <= n,
                forall|k: int| 0 <= k < i ==> #[trigger] self.entries@[k].0@ != name@,
            decreases n - i,
        {
            if self.entries[i].0 == name {
                return Err(Error::DuplicatePlugin(name));
            }
            i = i + 1;
        }
        self.entries.push((name, kind));
        Ok(())
    }

    /// The prototype registered under a name, if any; read-only.
    pub fn lookup(&self, name: &String) -> (r: Option<PluginKind>)
        requires
            self.inv(),
        ensures
            r matches Some(k) ==> exists|i: int|
                0 <= i < self.entries@.len() && #[trigger] self.entries@[i].0@ == name@
                    && self.entries@[i].1 == k,
            r is None ==> !self.contains_name(name@),
    {
        let n: usize = self.entries.len();
        let mut i: usize = 0;
        while i < n
            invariant
                n == self.entries@.len(),
                i <= n,
                forall|k: int| 0 <= k < i ==> #[trigger] self.entries@[k].0@ != name@,
            decreases n - i,
        {
            if self.entries[i].0 == *name {
                return Some(self.entries[i].1);
            }
            i = i + 1;
        }
        None
    }
}

/// Builds the registry of the protocols this build ships, as process
/// initialization does before the scheduler is constructed.
pub fn builtin_registry() -> (r: Registry)
    ensures
        r.inv(),
        r.entries@.len() == 3,
        r.entries@[0].0@ == "redis"@ && r.entries@[0].1 == PluginKind::Redis,
        r.entries@[1].0@ == "smtp"@ && r.entries@[1].1 == PluginKind::Smtp,
        r.entries@[2].0@ == "stomp"@ && r.entries@[2].1 == PluginKind::Stomp,
{
    proof {
        reveal_strlit("redis");
        reveal_strlit("smtp");
        reveal_strlit("stomp");
    }
    let mut registry = Registry::new();
    let r1 = registry.register("redis".to_owned(), PluginKind::Redis);
    let r2 = registry.register("smtp".to_owned(), PluginKind::Smtp);
    let r3 = registry.register("stomp".to_owned(), PluginKind::Stomp);
    proof {
        reveal_strlit("redis");
        reveal_strlit("smtp");
        reveal_strlit("stomp");
        assert("redis"@ != "smtp"@ && "smtp"@ != "stomp"@) by {
            assert("redis"@.len() == 5 && "smtp"@.len() == 4 && "stomp"@.len() == 5);
        }
        assert("redis"@ != "stomp"@) by {
            assert("redis"@[0] == 'r' && "stomp"@[0] == 's');
        }
        assert(r1 is Ok);
        assert(r2 is Ok);
        assert(r3 is Ok);
    }
    registry
}

} // verus!

//! Filesystem-pattern credential source.
//!
//! A `Glob` expands a filesystem pattern once at construction and keeps a
//! snapshot of the match list, so the size reported before consumption and
//! the entries yielded later come from the same traversal.  A malformed
//! pattern fails construction; an unreadable entry counts towards the size
//! (which is then an upper bound) but is skipped during consumption.

use vstd::prelude::*;

use crate::session::Error;

verus! {

/// Whether the pattern library accepts the pattern as syntactically valid;
/// acceptance depends on the pattern text alone.
pub uninterp spec fn glob_pattern_ok(pattern: Seq<char>) -> bool;

/// Relies on glob::glob: it returns `Err` exactly when the pattern is
/// syntactically invalid (`glob::Pattern::new` rejects it), and otherwise
/// yields one entry per matching path, a `GlobError` for each entry that
/// could not be read.  Which entries come back depends on the filesystem,
/// so nothing is stated of the list itself.
#[verifier::external_body]
fn expand_pattern(pattern: &str) -> (r: Result<Vec<Result<String, String>>, String>)
    ensures
        r is Ok <==> glob_pattern_ok(pattern@),
{
    match glob::glob(pattern) {
        Err(e) => Err(e.to_string()),
        Ok(paths) => Ok(
            paths.map(
                |entry: Result<std::path::PathBuf, glob::GlobError>| match entry {
                    Ok(path) => Ok(path.to_string_lossy().into_owned()),
                    Err(e) => Err(e.to_string()),
                },
            ).collect(),
        ),
    }
}

/// View of one snapshot entry: the path of a readable match, or the error
/// text of an unreadable one.
pub open spec fn entry_view(e: Result<String, String>) -> Result<Seq<char>, Seq<char>> {
    match e {
        Ok(p) => Ok(p@),
        Err(m) => Err(m@),
    }
}

/// Views of a whole snapshot.
pub open spec fn entry_views(entries: Seq<Result<String, String>>) -> Seq<
    Result<Seq<char>, Seq<char>>,
> {
    Seq::new(entries.len(), |i: int| entry_view(entries[i]))
}

/// The paths of the readable entries, in order: what consumption yields.
pub open spec fn readable_entries(s: Seq<Result<Seq<char>, Seq<char>>>) -> Seq<Seq<char>>
    decreases s.len(),
{
    if s.len() == 0 {
        Seq::empty()
    } else {
        match s[0] {
            Ok(p) => seq![p] + readable_entries(s.drop_first()),
            Err(_) => readable_entries(s.drop_first()),
        }
    }
}

pub struct Glob {
    pub entries: Vec<Result<String, String>>,
    pub pos: usize,
    pub elements: usize,
}

impl Glob {
    /// The snapshot of the pattern expansion this source was built from.
    pub open spec fn entries_spec(&self) -> Seq<Result<Seq<char>, Seq<char>>> {
        entry_views(self.entries@)
    }

    pub open spec fn inv(&self) -> bool {
        &&& self.elements == self.entries@.len()
        &&& self.pos <= self.elements
    }

    /// The paths not yet yielded, in order.
    pub open spec fn pending(&self) -> Seq<Seq<char>> {
        readable_entries(self.entries_spec().skip(self.pos as int))
    }

    /// Validates the pattern and expands it once; the snapshot fixes both
    /// the size estimate and the entries consumption will see.
    pub fn new(pattern: String) -> (r: Result<Glob, Error>)
        ensures
            r is Ok <==> glob_pattern_ok(pattern@),
            r matches Ok(g) ==> {
                &&& g.inv()
                &&& g.pos == 0
                &&& g.elements == g.entries_spec().len()
            },
            r matches Err(e) ==> e matches Error::InvalidPattern(_),
    {
        match expand_pattern(pattern.as_str()) {
            Err(msg) => Err(Error::InvalidPattern(msg)),
            Ok(entries) => {
                let elements = entries.len();
                Ok(Glob { entries, pos: 0, elements })
            },
        }
    }

    /// Number of entries the expansion matched; an upper bound on what is
    /// yielded, exact when every entry was readable.
    pub fn search_space_size(&self) -> (r: usize)
        requires
            self.inv(),
        ensures
            r == self.entries_spec().len(),
    {
        self.elements
    }

    /// Yields the next readable path, skipping unreadable entries; the
    /// cursor never regresses.
    pub fn next(&mut self) -> (r: Option<String>)
        requires
            old(self).inv(),
        ensures
            final(self).inv(),
            final(self).entries_spec() == old(self).entries_spec(),
            old(self).pending().len() > 0 ==> {
                &&& r matches Some(p) && p@ == old(self).pending()[0]
                &&& final(self).pending() == old(self).pending().drop_first()
            },
            old(self).pending().len() == 0 ==> {
                &&& r is None
                &&& final(self).pending().len() == 0
            },
    {
        let ghost views = self.entries_spec();
        while self.pos < self.elements
            invariant
                self.inv(),
                self.entries_spec() == views,
                views == old(self).entries_spec(),
                self.pos < self.elements ==> readable_entries(views.skip(self.pos as int))
                    == old(self).pending(),
                self.pos == self.elements ==> old(self).pending().len() == 0,
            decreases self.elements - self.pos,
        {
            let ghost p = self.pos as int;
            proof {
                assert(views.skip(p).drop_first() =~= views.skip(p + 1));
            }
            match &self.entries[self.pos] {
                Ok(path) => {
                    let out = path.clone();
                    self.pos = self.pos + 1;
                    proof {
                        assert(views.skip(p)[0] == entry_view(self.entries@[p]));
                        assert(readable_entries(views.skip(p)) == seq![out@] + readable_entries(
                            views.skip(p + 1),
                        ));
                        assert(readable_entries(views.skip(p)).drop_first() =~= readable_entries(
                            views.skip(p + 1),
                        ));
                    }
                    return Some(out);
                },
                Err(_) => {
                    proof {
                        assert(views.skip(p)[0] == entry_view(self.entries@[p]));
                    }
                    self.pos = self.pos + 1;
                },
            }
        }
        proof {
            assert(views.skip(self.pos as int) =~= Seq::empty());
        }
        None
    }

    /// Yields every remaining readable path at once: the consumption
    /// sequence of a fresh source is exactly the readable part of the
    /// snapshot, in expansion order.
    pub fn drain(&mut self) -> (r: Vec<String>)
        requires
            old(self).inv(),
        ensures
            final(self).inv(),
            final(self).entries_spec() == old(self).entries_spec(),
            r.deep_view() == old(self).pending(),
            final(self).pending().len() == 0,
    {
        let ghost views = self.entries_spec();
        let mut out: Vec<String> = Vec::new();
        loop
            invariant
                self.inv(),
                self.entries_spec() == views,
                views == old(self).entries_spec(),
                out.deep_view() + self.pending() =~= old(self).pending(),
            decreases self.pending().len(),
        {
            let ghost prev = out.deep_view();
            let ghost pend = self.pending();
            match self.next() {
                Some(path) => {
                    out.push(path);
                    proof {
                        assert(out.deep_view() =~= prev.push(pend[0]));
                        assert(prev.push(pend[0]) + pend.drop_first() =~= prev + pend);
                    }
                },
                None => {
                    proof {
                        assert(out.deep_view() + self.pending() =~= out.deep_view());
                    }
                    return out;
                },
            }
        }
    }

    /// When every entry of the snapshot is readable, the consumption
    /// sequence is exactly the match list: one path per entry, in order,
    /// and the reported size is exact.
    pub proof fn lemma_all_readable_yields_all(s: Seq<Result<Seq<char>, Seq<char>>>)
        requires
            forall|i: int| 0 <= i < s.len() ==> s[i] is Ok,
        ensures
            readable_entries(s).len() == s.len(),
            forall|i: int| 0 <= i < s.len() ==> readable_entries(s)[i] == s[i]->Ok_0,
        decreases s.len(),
    {
        if s.len() > 0 {
            assert(s[0] is Ok);
            Self::lemma_all_readable_yields_all(s.drop_first());
        }
    }
}

} // verus!

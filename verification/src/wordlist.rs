//! Line-delimited credential source.
//!
//! A `Wordlist` holds the lines of a wordlist as a snapshot taken when the
//! backing file was read, so the total count reported before consumption
//! is exact and the consumption cursor yields every line in file order,
//! each exactly once.

use vstd::prelude::*;

verus! {

pub struct Wordlist {
    pub lines: Vec<String>,
    pub current: usize,
    pub elements: usize,
}

impl Wordlist {
    /// The lines this source was built from.
    pub open spec fn lines_spec(&self) -> Seq<Seq<char>> {
        self.lines.deep_view()
    }

    /// Position of the consumption cursor.
    pub open spec fn current_spec(&self) -> int {
        self.current as int
    }

    pub open spec fn inv(&self) -> bool {
        &&& self.elements == self.lines@.len()
        &&& self.current <= self.elements
    }

    /// The lines not yet yielded, in order.
    pub open spec fn pending(&self) -> Seq<Seq<char>> {
        self.lines_spec().skip(self.current as int)
    }

    /// Builds the source from the lines of a wordlist; the count of
    /// items to be yielded is fixed here, before consumption begins.
    pub fn new(lines: Vec<String>) -> (r: Wordlist)
        ensures
            r.inv(),
            r.lines_spec() == lines.deep_view(),
            r.current_spec() == 0,
    {
        let elements = lines.len();
        Wordlist { lines, current: 0, elements }
    }

    /// Exact number of items this source yields in total.
    pub fn search_space_size(&self) -> (r: usize)
        requires
            self.inv(),
        ensures
            r == self.lines_spec().len(),
    {
        self.elements
    }

    /// Yields the next line, advancing the cursor; the cursor never
    /// regresses and every line is yielded exactly once.
    pub fn next(&mut self) -> (r: Option<String>)
        requires
            old(self).inv(),
        ensures
            final(self).inv(),
            final(self).lines_spec() == old(self).lines_spec(),
            old(self).current_spec() < old(self).lines_spec().len() ==> {
                &&& final(self).current_spec() == old(self).current_spec() + 1
                &&& r matches Some(s) && s@ == old(self).lines_spec()[old(self).current_spec()]
            },
            old(self).current_spec() >= old(self).lines_spec().len() ==> {
                &&& r is None
                &&& final(self).current_spec() == old(self).current_spec()
            },
    {
        if self.current < self.elements {
            let line = self.lines[self.current].clone();
            self.current = self.current + 1;
            Some(line)
        } else {
            None
        }
    }

    /// Yields every remaining line at once: the consumption sequence of a
    /// fresh source is exactly the list of lines it was built from.
    pub fn drain(&mut self) -> (r: Vec<String>)
        requires
            old(self).inv(),
        ensures
            final(self).inv(),
            final(self).lines_spec() == old(self).lines_spec(),
            r.deep_view() == old(self).pending(),
            final(self).pending().len() == 0,
    {
        let ghost lines0 = self.lines.deep_view();
        let ghost c0 = self.current as int;
        let mut out: Vec<String> = Vec::new();
        while self.current < self.elements
            invariant
                self.inv(),
                self.lines.deep_view() == lines0,
                0 <= c0 <= self.current as int,
                out.deep_view() =~= lines0.subrange(c0, self.current as int),
            decreases self.elements - self.current,
        {
            let ghost prev = out.deep_view();
            let ghost cur = self.current as int;
            let line = self.lines[self.current].clone();
            out.push(line);
            self.current = self.current + 1;
            proof {
                assert(out.deep_view() =~= prev.push(lines0[cur]));
                assert(lines0.subrange(c0, cur + 1) =~= lines0.subrange(c0, cur).push(
                    lines0[cur],
                ));
            }
        }
        proof {
            assert(out.deep_view() =~= lines0.skip(c0));
            assert(self.pending() =~= Seq::<Seq<char>>::empty());
        }
        out
    }
}

} // verus!

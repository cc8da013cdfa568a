//! Credential space: the cartesian product of a username source and a
//! password source.
//!
//! The space exposes its exact size before consumption and enumerates the
//! product in a fixed order: the username (outer source) varies slowest,
//! the password (inner source) fastest, so position `i` maps to the pair
//! of indices `(i / passwords, i % passwords)` and a single integer is
//! enough to restart from an offset.

use vstd::arithmetic::div_mod::lemma_div_multiples_vanish_fancy;
use vstd::arithmetic::div_mod::lemma_fundamental_div_mod;
use vstd::arithmetic::div_mod::lemma_mod_division_less_than_divisor;
use vstd::arithmetic::div_mod::lemma_mod_multiples_vanish;
use vstd::arithmetic::div_mod::lemma_multiply_divide_lt;
use vstd::arithmetic::div_mod::lemma_small_mod;
use vstd::prelude::*;

verus! {

/// One combined unit submitted to a plugin's attempt operation.
#[derive(Clone, Debug)]
pub struct Credentials {
    pub username: String,
    pub password: String,
}

pub struct CredSpace {
    pub usernames: Vec<String>,
    pub passwords: Vec<String>,
    pub cursor: usize,
}

impl CredSpace {
    pub open spec fn users(&self) -> Seq<Seq<char>> {
        self.usernames.deep_view()
    }

    pub open spec fn passes(&self) -> Seq<Seq<char>> {
        self.passwords.deep_view()
    }

    /// Exact number of pairs the space yields: the product of the sizes
    /// of its sources.
    pub open spec fn size_spec(&self) -> int {
        self.users().len() as int * self.passes().len() as int
    }

    pub open spec fn inv(&self) -> bool {
        &&& self.users().len() * self.passes().len() <= usize::MAX
        &&& self.cursor <= self.size_spec()
    }

    /// Source indices of the pair at position `i` of the enumeration.
    pub open spec fn pair_at(&self, i: int) -> (int, int) {
        (i / self.passes().len() as int, i % self.passes().len() as int)
    }

    /// The pair of atoms at position `i`.
    pub open spec fn credential_spec(&self, i: int) -> (Seq<char>, Seq<char>) {
        (self.users()[self.pair_at(i).0], self.passes()[self.pair_at(i).1])
    }

    /// Position from which the pair of source indices `(u, p)` is yielded.
    pub open spec fn position_of(&self, u: int, p: int) -> int {
        u * self.passes().len() as int + p
    }

    pub fn new(usernames: Vec<String>, passwords: Vec<String>) -> (r: CredSpace)
        requires
            usernames@.len() * passwords@.len() <= usize::MAX,
        ensures
            r.inv(),
            r.users() == usernames.deep_view(),
            r.passes() == passwords.deep_view(),
            r.cursor == 0,
    {
        CredSpace { usernames, passwords, cursor: 0 }
    }

    pub fn size(&self) -> (r: usize)
        requires
            self.inv(),
        ensures
            r == self.size_spec(),
    {
        self.usernames.len() * self.passwords.len()
    }

    /// The pair at position `i` of the enumeration; any position can be
    /// re-derived, so retries and restarts need only an integer index.
    pub fn credential_at(&self, i: usize) -> (r: Credentials)
        requires
            self.inv(),
            i < self.size_spec(),
        ensures
            r.username@ == self.credential_spec(i as int).0,
            r.password@ == self.credential_spec(i as int).1,
    {
        let a = self.usernames.len();
        let b = self.passwords.len();
        proof {
            assert(b > 0) by (nonlinear_arith)
                requires
                    (i as int) < a as int * b as int,
                    a >= 0,
                    b >= 0,
            ;
            lemma_multiply_divide_lt(i as int, b as int, a as int);
            lemma_mod_division_less_than_divisor(i as int, b as int);
        }
        let username = self.usernames[i / b].clone();
        let password = self.passwords[i % b].clone();
        Credentials { username, password }
    }

    /// Sequential cursor over the product; monotonic, never regresses,
    /// yields each pair exactly once, in enumeration order.
    pub fn next(&mut self) -> (r: Option<Credentials>)
        requires
            old(self).inv(),
        ensures
            final(self).inv(),
            final(self).users() == old(self).users(),
            final(self).passes() == old(self).passes(),
            old(self).cursor < old(self).size_spec() ==> {
                &&& final(self).cursor == old(self).cursor + 1
                &&& r matches Some(c) && c.username@ == old(self).credential_spec(
                    old(self).cursor as int,
                ).0 && c.password@ == old(self).credential_spec(old(self).cursor as int).1
            },
            old(self).cursor >= old(self).size_spec() ==> {
                &&& r is None
                &&& final(self).cursor == old(self).cursor
            },
    {
        let total = self.size();
        if self.cursor < total {
            let c = self.credential_at(self.cursor);
            self.cursor = self.cursor + 1;
            Some(c)
        } else {
            None
        }
    }

    /// The enumeration is a bijection between positions and index pairs:
    /// distinct positions give distinct pairs of source indices, and every
    /// pair of source indices is reached from some position, so the space
    /// yields the full cartesian product, each combination exactly once.
    pub proof fn lemma_product_enumeration(&self)
        requires
            self.inv(),
        ensures
            forall|i: int, j: int|
                0 <= i < self.size_spec() && 0 <= j < self.size_spec() && i != j
                    ==> #[trigger] self.pair_at(i) != #[trigger] self.pair_at(j),
            forall|u: int, p: int|
                0 <= u < self.users().len() && 0 <= p < self.passes().len() ==> {
                    &&& 0 <= #[trigger] self.position_of(u, p) < self.size_spec()
                    &&& self.pair_at(self.position_of(u, p)) == (u, p)
                },
    {
        let a = self.users().len() as int;
        let b = self.passes().len() as int;
        assert forall|i: int, j: int|
            0 <= i < self.size_spec() && 0 <= j < self.size_spec() && i != j implies #[trigger] self
            .pair_at(i) != #[trigger] self.pair_at(j) by {
            assert(b > 0) by (nonlinear_arith)
                requires
                    0 <= i,
                    i < a * b,
                    a >= 0,
                    b >= 0,
            ;
            lemma_fundamental_div_mod(i, b);
            lemma_fundamental_div_mod(j, b);
        }
        assert forall|u: int, p: int|
            0 <= u < a && 0 <= p < b implies {
            &&& 0 <= #[trigger] self.position_of(u, p) < self.size_spec()
            &&& self.pair_at(self.position_of(u, p)) == (u, p)
        } by {
            assert(0 <= u * b + p < a * b) by (nonlinear_arith)
                requires
                    0 <= u < a,
                    0 <= p < b,
            ;
            lemma_div_multiples_vanish_fancy(u, p, b);
            assert(b * u == u * b) by (nonlinear_arith);
            lemma_mod_multiples_vanish(u, p, b);
            lemma_small_mod(p as nat, b as nat);
        }
    }
}

} // verus!

//! The attempt scheduler: drives the credential space against one
//! configured plugin per target, under a bounded number of in-flight
//! attempts, with a bounded retry policy for transient errors and a stop
//! policy that decides when dispatching ends.
//!
//! The scheduler itself is a deterministic state machine: `dispatch`
//! hands out the next `(target, credential)` attempt and `complete`
//! folds an attempt's outcome back in.  A driver, sequential or
//! concurrent, performs the attempts; completion order is free, and every
//! property below holds whatever the plugins answer.

use vstd::prelude::*;

use crate::plugin::Plugin;
use crate::session::Error;
use crate::session::Loot;
use crate::space::CredSpace;

verus! {

/// When to stop dispatching new attempts after a success.
#[derive(Clone, Copy, PartialEq, Eq, Structural, Debug)]
pub enum StopPolicy {
    /// Stop the whole run on the first success.
    StopOnFirstSuccess,
    /// Stop attempting a target once it yields a success; other targets
    /// go on.
    StopPerTarget,
    /// Try the full space against every target.
    Exhaustive,
}

/// One dispatched unit of work: a credential index tried against a
/// target, with the number of errored tries it already cost.
#[derive(Clone, Copy, PartialEq, Eq, Structural, Debug)]
pub struct Attempt {
    pub target: usize,
    pub cred_index: usize,
    pub tries: usize,
}

pub open spec fn sum_usize(s: Seq<usize>) -> int
    decreases s.len(),
{
    if s.len() == 0 {
        0
    } else {
        s[0] + sum_usize(s.drop_first())
    }
}

proof fn lemma_sum_update(s: Seq<usize>, t: int, v: usize)
    requires
        0 <= t < s.len(),
    ensures
        sum_usize(s.update(t, v)) == sum_usize(s) - s[t] + v,
    decreases s.len(),
{
    if t == 0 {
        assert(s.update(0, v).drop_first() =~= s.drop_first());
    } else {
        assert(s.update(t, v).drop_first() =~= s.drop_first().update(t - 1, v));
        lemma_sum_update(s.drop_first(), t - 1, v);
    }
}

proof fn lemma_sum_pointwise_le(s: Seq<usize>, m: int)
    requires
        forall|i: int| 0 <= i < s.len() ==> s[i] <= m,
    ensures
        sum_usize(s) <= s.len() * m,
    decreases s.len(),
{
    if s.len() > 0 {
        lemma_sum_pointwise_le(s.drop_first(), m);
        assert((s.len() - 1) * m + m == s.len() * m) by (nonlinear_arith);
    }
}

proof fn lemma_sum_bound_with_slack(s: Seq<usize>, m: int, t: int)
    requires
        forall|i: int| 0 <= i < s.len() ==> s[i] <= m,
        0 <= t < s.len(),
    ensures
        sum_usize(s) <= s.len() * m - (m - s[t]),
    decreases s.len(),
{
    if t == 0 {
        lemma_sum_pointwise_le(s.drop_first(), m);
    } else {
        lemma_sum_bound_with_slack(s.drop_first(), m, t - 1);
    }
    assert((s.len() - 1) * m + m == s.len() * m) by (nonlinear_arith);
}

proof fn lemma_sum_all_eq(s: Seq<usize>, m: usize)
    requires
        forall|i: int| 0 <= i < s.len() ==> s[i] == m,
    ensures
        sum_usize(s) == s.len() * m,
    decreases s.len(),
{
    if s.len() > 0 {
        lemma_sum_all_eq(s.drop_first(), m);
        assert((s.len() - 1) * m + m == s.len() * m) by (nonlinear_arith);
    }
}

/// How many targets are marked solved.
pub open spec fn count_true(s: Seq<bool>) -> int
    decreases s.len(),
{
    if s.len() == 0 {
        0
    } else {
        (if s[0] {
            1int
        } else {
            0int
        }) + count_true(s.drop_first())
    }
}

proof fn lemma_count_true_update_true(s: Seq<bool>, t: int)
    requires
        0 <= t < s.len(),
        !s[t],
    ensures
        count_true(s.update(t, true)) == count_true(s) + 1,
    decreases s.len(),
{
    if t == 0 {
        assert(s.update(0, true).drop_first() =~= s.drop_first());
    } else {
        assert(s.update(t, true).drop_first() =~= s.drop_first().update(t - 1, true));
        lemma_count_true_update_true(s.drop_first(), t - 1);
    }
}

proof fn lemma_count_true_bounds(s: Seq<bool>)
    ensures
        0 <= count_true(s) <= s.len(),
    decreases s.len(),
{
    if s.len() > 0 {
        lemma_count_true_bounds(s.drop_first());
    }
}

/// Attempts still available to fresh credentials: each undispatched
/// credential of each target may cost up to one try plus the retry
/// allowance.
pub open spec fn fresh_budget(cursors: Seq<usize>, space: int, w: int) -> int
    decreases cursors.len(),
{
    if cursors.len() == 0 {
        0
    } else {
        (space - cursors[0]) * w + fresh_budget(cursors.drop_first(), space, w)
    }
}

proof fn lemma_fresh_budget_update(cursors: Seq<usize>, space: int, w: int, t: int, v: usize)
    requires
        0 <= t < cursors.len(),
    ensures
        fresh_budget(cursors.update(t, v), space, w) == fresh_budget(cursors, space, w) - (space
            - cursors[t]) * w + (space - v) * w,
    decreases cursors.len(),
{
    if t == 0 {
        assert(cursors.update(0, v).drop_first() =~= cursors.drop_first());
    } else {
        assert(cursors.update(t, v).drop_first() =~= cursors.drop_first().update(t - 1, v));
        lemma_fresh_budget_update(cursors.drop_first(), space, w, t - 1, v);
    }
}

proof fn lemma_fresh_budget_zero(cursors: Seq<usize>, space: int, w: int)
    requires
        forall|i: int| 0 <= i < cursors.len() ==> cursors[i] == 0,
    ensures
        fresh_budget(cursors, space, w) == cursors.len() * (space * w),
    decreases cursors.len(),
{
    if cursors.len() > 0 {
        lemma_fresh_budget_zero(cursors.drop_first(), space, w);
        assert((cursors.len() - 1) * (space * w) + space * w == cursors.len() * (space * w))
            by (nonlinear_arith);
    }
}

proof fn lemma_fresh_budget_nonneg(cursors: Seq<usize>, space: int, w: int)
    requires
        forall|i: int| 0 <= i < cursors.len() ==> cursors[i] <= space,
        w >= 0,
    ensures
        fresh_budget(cursors, space, w) >= 0,
    decreases cursors.len(),
{
    if cursors.len() > 0 {
        lemma_fresh_budget_nonneg(cursors.drop_first(), space, w);
        assert((space - cursors[0]) * w >= 0) by (nonlinear_arith)
            requires
                space - cursors[0] >= 0,
                w >= 0,
        ;
    }
}

/// Attempts still owed to queued retries.
pub open spec fn retry_budget(retries: Seq<Attempt>, n: int) -> int
    decreases retries.len(),
{
    if retries.len() == 0 {
        0
    } else {
        retry_budget(retries.drop_last(), n) + (n + 1 - retries.last().tries)
    }
}

proof fn lemma_retry_budget_push(retries: Seq<Attempt>, n: int, a: Attempt)
    ensures
        retry_budget(retries.push(a), n) == retry_budget(retries, n) + (n + 1 - a.tries),
{
    assert(retries.push(a).drop_last() =~= retries);
    assert(retries.push(a).last() == a);
}

proof fn lemma_retry_budget_drop_last(retries: Seq<Attempt>, n: int)
    requires
        retries.len() > 0,
    ensures
        retry_budget(retries, n) == retry_budget(retries.drop_last(), n) + (n + 1
            - retries.last().tries),
{
    assert(retries =~= retries.drop_last().push(retries.last()));
    lemma_retry_budget_push(retries.drop_last(), n, retries.last());
}

proof fn lemma_retry_budget_nonneg(retries: Seq<Attempt>, n: int)
    requires
        forall|k: int| 0 <= k < retries.len() ==> (#[trigger] retries[k]).tries <= n,
    ensures
        retry_budget(retries, n) >= 0,
    decreases retries.len(),
{
    if retries.len() > 0 {
        lemma_retry_budget_nonneg(retries.drop_last(), n);
    }
}

/// What a finished run reports: resolved attempts out of the exact total,
/// and the loot gathered.
pub struct RunReport {
    pub completed: usize,
    pub total: usize,
    pub loot: Vec<Loot>,
}

pub struct Scheduler {
    pub num_targets: usize,
    pub space_size: usize,
    pub policy: StopPolicy,
    pub max_retries: usize,
    pub concurrency: usize,
    pub cursors: Vec<usize>,
    pub solved: Vec<bool>,
    pub retries: Vec<Attempt>,
    pub in_flight: usize,
    pub completed: usize,
    pub loot: Vec<Loot>,
    pub stopped: bool,
}

impl Scheduler {
    pub open spec fn inv(&self) -> bool {
        &&& self.cursors@.len() == self.num_targets
        &&& self.solved@.len() == self.num_targets
        &&& forall|t: int| 0 <= t < self.num_targets ==> #[trigger] self.cursors@[t] <= self.space_size
        &&& forall|k: int|
            0 <= k < self.retries@.len() ==> {
                &&& (#[trigger] self.retries@[k]).target < self.num_targets
                &&& self.retries@[k].cred_index < self.space_size
                &&& 1 <= self.retries@[k].tries <= self.max_retries
            }
        &&& self.completed + self.in_flight + self.retries@.len() == sum_usize(self.cursors@)
        &&& self.in_flight <= self.concurrency
        &&& self.concurrency >= 1
        &&& self.num_targets * self.space_size <= usize::MAX
    }

    /// The configuration never changes after construction.
    pub open spec fn same_config(&self, other: &Scheduler) -> bool {
        &&& self.num_targets == other.num_targets
        &&& self.space_size == other.space_size
        &&& self.policy == other.policy
        &&& self.max_retries == other.max_retries
        &&& self.concurrency == other.concurrency
    }

    /// A fresh credential can be dispatched to target `t`.
    pub open spec fn fresh_ready(&self, t: int) -> bool {
        &&& 0 <= t < self.num_targets
        &&& self.cursors@[t] < self.space_size
        &&& !(self.policy == StopPolicy::StopPerTarget && self.solved@[t])
    }

    /// Some attempt may be handed out now.
    pub open spec fn dispatchable(&self) -> bool {
        &&& !self.stopped
        &&& self.in_flight < self.concurrency
        &&& (self.retries@.len() > 0 || exists|t: int| self.fresh_ready(t))
    }

    /// Upper bound on the attempts the run may still start: initially
    /// the number of targets times the size of the space times one more
    /// than the retry allowance, and every dispatch/complete round
    /// strictly shrinks it, so a run terminates after at most that many
    /// attempts.
    pub open spec fn measure(&self) -> int {
        fresh_budget(self.cursors@, self.space_size as int, self.max_retries + 1) + retry_budget(
            self.retries@,
            self.max_retries as int,
        )
    }

    pub proof fn lemma_measure_nonneg(&self)
        requires
            self.inv(),
        ensures
            self.measure() >= 0,
    {
        lemma_fresh_budget_nonneg(self.cursors@, self.space_size as int, self.max_retries + 1);
        lemma_retry_budget_nonneg(self.retries@, self.max_retries as int);
    }

    pub fn new(
        num_targets: usize,
        space_size: usize,
        policy: StopPolicy,
        max_retries: usize,
        concurrency: usize,
    ) -> (r: Scheduler)
        requires
            concurrency >= 1,
            num_targets * space_size <= usize::MAX,
        ensures
            r.inv(),
            r.num_targets == num_targets,
            r.space_size == space_size,
            r.policy == policy,
            r.max_retries == max_retries,
            r.concurrency == concurrency,
            r.in_flight == 0,
            r.completed == 0,
            r.loot@.len() == 0,
            !r.stopped,
            forall|t: int| 0 <= t < num_targets ==> #[trigger] r.cursors@[t] == 0,
            forall|t: int| 0 <= t < num_targets ==> !(#[trigger] r.solved@[t]),
            r.retries@.len() == 0,
            r.measure() == num_targets * (space_size * (max_retries + 1)),
    {
        let cursors: Vec<usize> = vec![0; num_targets];
        let solved: Vec<bool> = vec![false; num_targets];
        proof {
            lemma_sum_all_eq(cursors@, 0);
            lemma_fresh_budget_zero(cursors@, space_size as int, max_retries + 1);
        }
        Scheduler {
            num_targets,
            space_size,
            policy,
            max_retries,
            concurrency,
            cursors,
            solved,
            retries: Vec::new(),
            in_flight: 0,
            completed: 0,
            loot: Vec::new(),
            stopped: false,
        }
    }

    /// Hands out the next attempt, if the stop policy, the concurrency
    /// bound and the remaining work allow one: queued retries first, then
    /// the first ready target's next fresh credential, in deterministic
    /// product order.  Once the run is stopped, nothing is dispatched any
    /// more.
    pub fn dispatch(&mut self) -> (r: Option<Attempt>)
        requires
            old(self).inv(),
        ensures
            final(self).inv(),
            final(self).same_config(old(self)),
            final(self).stopped == old(self).stopped,
            final(self).completed == old(self).completed,
            final(self).loot@ == old(self).loot@,
            final(self).solved@ == old(self).solved@,
            r is Some <==> old(self).dispatchable(),
            r is None ==> {
                &&& final(self).cursors@ == old(self).cursors@
                &&& final(self).retries@ == old(self).retries@
                &&& final(self).in_flight == old(self).in_flight
            },
            r matches Some(a) ==> {
                &&& a.target < old(self).num_targets
                &&& a.cred_index < old(self).space_size
                &&& a.tries <= old(self).max_retries
                &&& final(self).in_flight == old(self).in_flight + 1
                &&& final(self).measure() == old(self).measure() - (old(self).max_retries + 1
                    - a.tries)
                &&& old(self).retries@.len() > 0 ==> {
                    &&& a == old(self).retries@.last()
                    &&& final(self).retries@ == old(self).retries@.drop_last()
                    &&& final(self).cursors@ == old(self).cursors@
                }
                &&& old(self).retries@.len() == 0 ==> {
                    &&& a.tries == 0
                    &&& old(self).fresh_ready(a.target as int)
                    &&& forall|m: int| 0 <= m < a.target ==> !old(self).fresh_ready(m)
                    &&& a.cred_index == old(self).cursors@[a.target as int]
                    &&& final(self).cursors@ == old(self).cursors@.update(
                        a.target as int,
                        (a.cred_index + 1) as usize,
                    )
                    &&& final(self).retries@ == old(self).retries@
                }
            },
    {
        if self.stopped {
            return None;
        }
        if self.in_flight >= self.concurrency {
            return None;
        }
        if self.retries.len() > 0 {
            proof {
                lemma_retry_budget_drop_last(self.retries@, self.max_retries as int);
            }
            let popped = self.retries.pop();
            match popped {
                Some(a) => {
                    self.in_flight = self.in_flight + 1;
                    proof {
                        assert(self.retries@ =~= old(self).retries@.drop_last());
                    }
                    return Some(a);
                },
                None => {
                    proof {
                        assert(false);
                    }
                    return None;
                },
            }
        }
        let mut t: usize = 0;
        while t < self.num_targets
            invariant
                self.inv(),
                self == old(self),
                !self.stopped,
                self.in_flight < self.concurrency,
                self.retries@.len() == 0,
                t <= self.num_targets,
                forall|m: int| 0 <= m < t ==> !self.fresh_ready(m),
            decreases self.num_targets - t,
        {
            if self.cursors[t] < self.space_size {
                let skip = (self.policy == StopPolicy::StopPerTarget) && self.solved[t];
                if !skip {
                    let ci = self.cursors[t];
                    proof {
                        assert(old(self).fresh_ready(t as int));
                        assert(old(self).dispatchable());
                        lemma_sum_update(self.cursors@, t as int, (ci + 1) as usize);
                        lemma_fresh_budget_update(
                            self.cursors@,
                            self.space_size as int,
                            self.max_retries + 1,
                            t as int,
                            (ci + 1) as usize,
                        );
                        assert((self.space_size - ci) * (self.max_retries + 1) - (self.space_size
                            - (ci + 1)) * (self.max_retries + 1) == self.max_retries + 1)
                            by (nonlinear_arith);
                    }
                    self.cursors[t] = ci + 1;
                    self.in_flight = self.in_flight + 1;
                    return Some(Attempt { target: t, cred_index: ci, tries: 0 });
                }
            }
            t = t + 1;
        }
        None
    }

    /// Folds one attempt's outcome back in.  A success yields its loot,
    /// marks the target solved and, under `StopOnFirstSuccess`, stops the
    /// run; a failure resolves the credential with no retry; a transient
    /// error re-queues the attempt until its retry allowance is spent,
    /// then resolves it.
    pub fn complete(&mut self, a: Attempt, outcome: Result<Option<Loot>, Error>)
        requires
            old(self).inv(),
            old(self).in_flight >= 1,
            a.target < old(self).num_targets,
            a.cred_index < old(self).space_size,
            a.tries <= old(self).max_retries,
        ensures
            final(self).inv(),
            final(self).same_config(old(self)),
            final(self).cursors@ == old(self).cursors@,
            final(self).in_flight == old(self).in_flight - 1,
            outcome matches Ok(Some(l)) ==> {
                &&& final(self).loot@ == old(self).loot@.push(l)
                &&& final(self).completed == old(self).completed + 1
                &&& final(self).solved@ == old(self).solved@.update(a.target as int, true)
                &&& final(self).stopped == (old(self).stopped || old(self).policy
                    == StopPolicy::StopOnFirstSuccess)
                &&& final(self).retries@ == old(self).retries@
                &&& final(self).measure() == old(self).measure()
            },
            outcome matches Ok(None) ==> {
                &&& final(self).loot@ == old(self).loot@
                &&& final(self).completed == old(self).completed + 1
                &&& final(self).solved@ == old(self).solved@
                &&& final(self).stopped == old(self).stopped
                &&& final(self).retries@ == old(self).retries@
                &&& final(self).measure() == old(self).measure()
            },
            outcome is Err ==> {
                &&& final(self).loot@ == old(self).loot@
                &&& final(self).solved@ == old(self).solved@
                &&& final(self).stopped == old(self).stopped
                &&& a.tries < old(self).max_retries ==> {
                    &&& final(self).completed == old(self).completed
                    &&& final(self).retries@ == old(self).retries@.push(
                        Attempt { target: a.target, cred_index: a.cred_index, tries: (a.tries + 1) as usize },
                    )
                    &&& final(self).measure() == old(self).measure() + (old(self).max_retries
                        - a.tries)
                }
                &&& a.tries >= old(self).max_retries ==> {
                    &&& final(self).completed == old(self).completed + 1
                    &&& final(self).retries@ == old(self).retries@
                    &&& final(self).measure() == old(self).measure()
                }
            },
    {
        proof {
            lemma_sum_pointwise_le(self.cursors@, self.space_size as int);
            assert(self.cursors@.len() * self.space_size == self.num_targets * self.space_size);
        }
        self.in_flight = self.in_flight - 1;
        match outcome {
            Ok(judged) => {
                match judged {
                    Some(l) => {
                        self.loot.push(l);
                        self.solved[a.target] = true;
                        if self.policy == StopPolicy::StopOnFirstSuccess {
                            self.stopped = true;
                        }
                    },
                    None => {},
                }
                self.completed = self.completed + 1;
            },
            Err(_) => {
                if a.tries < self.max_retries {
                    proof {
                        lemma_retry_budget_push(
                            self.retries@,
                            self.max_retries as int,
                            Attempt {
                                target: a.target,
                                cred_index: a.cred_index,
                                tries: (a.tries + 1) as usize,
                            },
                        );
                    }
                    self.retries.push(
                        Attempt { target: a.target, cred_index: a.cred_index, tries: a.tries + 1 },
                    );
                } else {
                    self.completed = self.completed + 1;
                }
            },
        }
    }

    /// A run that resolved every attempt covered the whole space: each
    /// target's cursor reached the end of the product, so every
    /// `(target, credential)` pair was dispatched, and nothing is left
    /// in flight or queued.  With the space's enumeration being a
    /// bijection, a credential the plugin accepts is therefore always
    /// attempted in such a run.
    pub proof fn lemma_full_completion_covers_space(&self)
        requires
            self.inv(),
            self.completed == self.num_targets * self.space_size,
        ensures
            forall|t: int|
                0 <= t < self.num_targets ==> #[trigger] self.cursors@[t] == self.space_size,
            self.in_flight == 0,
            self.retries@.len() == 0,
    {
        lemma_sum_pointwise_le(self.cursors@, self.space_size as int);
        assert forall|t: int|
            0 <= t < self.num_targets implies #[trigger] self.cursors@[t]
            == self.space_size by {
            if self.cursors@[t] < self.space_size {
                lemma_sum_bound_with_slack(self.cursors@, self.space_size as int, t);
            }
        }
    }

    /// Observes an external cancellation signal: no further attempt is
    /// dispatched, while attempts already in flight may still be
    /// completed.
    pub fn cancel(&mut self)
        requires
            old(self).inv(),
        ensures
            final(self).inv(),
            final(self).same_config(old(self)),
            final(self).stopped,
            final(self).cursors@ == old(self).cursors@,
            final(self).solved@ == old(self).solved@,
            final(self).retries@ == old(self).retries@,
            final(self).in_flight == old(self).in_flight,
            final(self).completed == old(self).completed,
            final(self).loot@ == old(self).loot@,
    {
        self.stopped = true;
    }

    /// Progress so far: resolved attempts out of the exact up-front
    /// total, known before the first attempt is dispatched.
    pub fn progress(&self) -> (r: (usize, usize))
        requires
            self.inv(),
        ensures
            r.0 == self.completed,
            r.1 == self.num_targets * self.space_size,
            r.0 <= r.1,
    {
        proof {
            lemma_sum_pointwise_le(self.cursors@, self.space_size as int);
        }
        (self.completed, self.num_targets * self.space_size)
    }

    /// Nothing is in flight and nothing more will be dispatched.
    pub open spec fn done_spec(&self) -> bool {
        self.stopped || (self.in_flight == 0 && self.retries@.len() == 0 && forall|t: int|
            !self.fresh_ready(t))
    }

    pub fn is_done(&self) -> (r: bool)
        requires
            self.inv(),
        ensures
            r == self.done_spec(),
    {
        if self.stopped {
            return true;
        }
        if self.in_flight > 0 || self.retries.len() > 0 {
            return false;
        }
        let mut t: usize = 0;
        while t < self.num_targets
            invariant
                self.inv(),
                !self.stopped,
                self.in_flight == 0,
                self.retries@.len() == 0,
                t <= self.num_targets,
                forall|m: int| 0 <= m < t ==> !self.fresh_ready(m),
            decreases self.num_targets - t,
        {
            if self.cursors[t] < self.space_size {
                let skip = (self.policy == StopPolicy::StopPerTarget) && self.solved[t];
                if !skip {
                    proof {
                        assert(self.fresh_ready(t as int));
                    }
                    return false;
                }
            }
            t = t + 1;
        }
        true
    }
}

/// Drives the credential space to exhaustion (or until the stop policy
/// fires) against one configured plugin per target, sequentially, and
/// reports progress against the exact up-front total.  The run
/// terminates whatever the plugins answer — the loop consumes the
/// scheduler's measure, so a plugin is called at most once per unit of
/// the initial measure: targets times space size times one more than
/// the retry allowance — and under `Exhaustive` every
/// `(target, credential)` pair is resolved.
pub fn run<P: Plugin>(
    space: &CredSpace,
    plugins: &Vec<P>,
    policy: StopPolicy,
    max_retries: usize,
    concurrency: usize,
    timeout_ms: u64,
) -> (r: RunReport)
    requires
        space.inv(),
        concurrency >= 1,
        plugins@.len() * space.size_spec() <= usize::MAX,
    ensures
        r.total == plugins@.len() * space.size_spec(),
        r.completed <= r.total,
        policy == StopPolicy::Exhaustive ==> r.completed == r.total,
        policy == StopPolicy::StopOnFirstSuccess ==> r.loot@.len() <= 1,
        r.loot@.len() <= r.completed,
        policy == StopPolicy::StopPerTarget ==> r.loot@.len() <= plugins@.len(),
{
    let num_targets = plugins.len();
    let size = space.size();
    let mut sched = Scheduler::new(num_targets, size, policy, max_retries, concurrency);
    proof {
        lemma_count_true_bounds(sched.solved@);
    }
    loop
        invariant
            sched.inv(),
            sched.num_targets == plugins@.len(),
            sched.space_size == space.size_spec(),
            sched.policy == policy,
            sched.max_retries == max_retries,
            sched.in_flight == 0,
            space.inv(),
            policy != StopPolicy::StopOnFirstSuccess ==> !sched.stopped,
            policy == StopPolicy::StopOnFirstSuccess ==> {
                &&& sched.loot@.len() <= 1
                &&& (sched.stopped <==> sched.loot@.len() == 1)
            },
            sched.loot@.len() <= sched.completed,
            sched.retries@.len() <= 1,
            policy == StopPolicy::StopPerTarget ==> sched.loot@.len() <= count_true(
                sched.solved@,
            ),
            policy == StopPolicy::StopPerTarget ==> forall|k: int|
                0 <= k < sched.retries@.len() ==> !sched.solved@[(
                #[trigger] sched.retries@[k]).target as int],
        ensures
            sched.inv(),
            sched.num_targets == plugins@.len(),
            sched.space_size == space.size_spec(),
            sched.policy == policy,
            sched.in_flight == 0,
            sched.done_spec(),
            policy != StopPolicy::StopOnFirstSuccess ==> !sched.stopped,
            policy == StopPolicy::StopOnFirstSuccess ==> sched.loot@.len() <= 1,
            sched.loot@.len() <= sched.completed,
            policy == StopPolicy::StopPerTarget ==> sched.loot@.len() <= count_true(
                sched.solved@,
            ),
        decreases sched.measure(),
    {
        proof {
            sched.lemma_measure_nonneg();
        }
        let done = sched.is_done();
        if done {
            break ;
        }
        let dispatched = sched.dispatch();
        match dispatched {
            Some(a) => {
                let cred = space.credential_at(a.cred_index);
                let outcome = plugins[a.target].attempt(&cred, timeout_ms);
                let ghost pre = sched;
                let ghost out = outcome;
                proof {
                    assert(sched.retries@.len() == 0);
                    if policy == StopPolicy::StopPerTarget {
                        assert(!sched.solved@[a.target as int]);
                    }
                }
                sched.complete(a, outcome);
                proof {
                    sched.lemma_measure_nonneg();
                    if policy == StopPolicy::StopPerTarget && out is Ok && out->Ok_0 is Some {
                        lemma_count_true_update_true(pre.solved@, a.target as int);
                    }
                }
            },
            None => {
                proof {
                    assert(false);
                }
            },
        }
    }
    let total = num_targets * size;
    proof {
        lemma_sum_pointwise_le(sched.cursors@, sched.space_size as int);
        lemma_count_true_bounds(sched.solved@);
        if policy == StopPolicy::Exhaustive {
            assert forall|t: int|
                0 <= t < sched.num_targets implies #[trigger] sched.cursors@[t]
                == sched.space_size by {
                assert(!sched.fresh_ready(t));
            }
            lemma_sum_all_eq(sched.cursors@, sched.space_size);
        }
    }
    RunReport { completed: sched.completed, total, loot: sched.loot }
}

} // verus!

//! Health checks of upstreams: the attempts of one check, and the ordering
//! of the hosts that passed, fastest first.

use vstd::prelude::*;

use crate::hosts::texts;
use crate::text::{is_blank, is_blank_str};

verus! {

/// Attempts per check URL before the next URL is tried.
pub const CHECK_ATTEMPTS_PER_URL: usize = 3;

/// An upstream that passed a check, with the latency of the passing request.
pub struct AliveUpstream {
    pub host: String,
    pub latency_nanos: u128,
}

impl Clone for AliveUpstream {
    fn clone(&self) -> (r: Self)
        ensures
            r == *self,
    {
        AliveUpstream { host: self.host.clone(), latency_nanos: self.latency_nanos }
    }
}

/// A latency limit in milliseconds, in nanoseconds.
pub fn max_latency_nanos(ms: u64) -> (n: u128)
    ensures
        n == ms as int * 1_000_000,
{
    ms as u128 * 1_000_000
}

/// Non-decreasing in latency.
pub open spec fn latency_sorted(s: Seq<AliveUpstream>) -> bool {
    forall|i: int, j: int| 0 <= i < j < s.len() ==> s[i].latency_nanos <= s[j].latency_nanos
}

pub open spec fn has_latency(l: u128) -> spec_fn(AliveUpstream) -> bool {
    |a: AliveUpstream| a.latency_nanos == l
}

proof fn lemma_filter_none(s: Seq<AliveUpstream>, l: u128)
    requires
        forall|i: int| 0 <= i < s.len() ==> s[i].latency_nanos != l,
    ensures
        s.filter(has_latency(l)) == Seq::<AliveUpstream>::empty(),
    decreases s.len(),
{
    reveal(Seq::filter);
    if s.len() > 0 {
        let d = s.drop_last();
        assert forall|i: int| 0 <= i < d.len() implies d[i].latency_nanos != l by {
            assert(d[i] == s[i]);
        }
        lemma_filter_none(d, l);
        assert(s.last() == s[s.len() - 1]);
    } else {
        assert(s.filter(has_latency(l)) =~= Seq::<AliveUpstream>::empty());
    }
}

proof fn lemma_filter_insert(r: Seq<AliveUpstream>, pos: int, x: AliveUpstream, l: u128)
    requires
        0 <= pos <= r.len(),
        forall|i: int| 0 <= i < pos ==> r[i].latency_nanos <= x.latency_nanos,
        forall|i: int| pos <= i < r.len() ==> r[i].latency_nanos > x.latency_nanos,
    ensures
        r.insert(pos, x).filter(has_latency(l)) == if l == x.latency_nanos {
            r.filter(has_latency(l)).push(x)
        } else {
            r.filter(has_latency(l))
        },
{
    broadcast use vstd::seq_lib::group_seq_properties;

    let a = r.subrange(0, pos);
    let b = r.subrange(pos, r.len() as int);
    assert(r =~= a + b);
    assert(r.insert(pos, x) =~= a + seq![x] + b);
    Seq::filter_distributes_over_add(a + seq![x], b, has_latency(l));
    Seq::filter_distributes_over_add(a, seq![x], has_latency(l));
    Seq::filter_distributes_over_add(a, b, has_latency(l));
    reveal(Seq::filter);
    assert(seq![x].drop_last() =~= Seq::<AliveUpstream>::empty());
    if l == x.latency_nanos {
        assert forall|i: int| 0 <= i < b.len() implies b[i].latency_nanos != l by {
            assert(b[i] == r[pos + i]);
        }
        lemma_filter_none(b, l);
        assert(seq![x].filter(has_latency(l)) =~= seq![x]);
        assert(a.filter(has_latency(l)) + seq![x] =~= a.filter(has_latency(l)).push(x));
        assert(a.filter(has_latency(l)) + Seq::<AliveUpstream>::empty() =~= a.filter(has_latency(l)));
    } else {
        assert(seq![x].filter(has_latency(l)) =~= Seq::<AliveUpstream>::empty());
        assert(a.filter(has_latency(l)) + Seq::<AliveUpstream>::empty() =~= a.filter(has_latency(l)));
    }
}

/// The passed upstreams ordered by latency, fastest first, upstreams with
/// equal latency in the order they came (`sort_by_key`, a stable sort).
pub fn sort_by_latency(alive: Vec<AliveUpstream>) -> (r: Vec<AliveUpstream>)
    ensures
        latency_sorted(r@),
        forall|l: u128| #[trigger] r@.filter(has_latency(l)) == alive@.filter(has_latency(l)),
{
    let ghost s = alive@;
    let mut r: Vec<AliveUpstream> = Vec::new();
    proof {
        assert forall|l: u128| #[trigger] r@.filter(has_latency(l)) == s.take(0).filter(has_latency(l)) by {
            assert(s.take(0) =~= Seq::<AliveUpstream>::empty());
            reveal(Seq::filter);
            assert(r@.filter(has_latency(l)) =~= Seq::<AliveUpstream>::empty());
        }
    }
    let n = alive.len();
    let mut i: usize = 0;
    while i < n
        invariant
            n == s.len(),
            s == alive@,
            i <= n,
            latency_sorted(r@),
            forall|l: u128| #[trigger] r@.filter(has_latency(l)) == s.take(i as int).filter(
                has_latency(l),
            ),
        decreases n - i,
    {
        let x = alive[i].clone();
        let mut pos: usize = 0;
        while pos < r.len() && r[pos].latency_nanos <= x.latency_nanos
            invariant
                pos <= r@.len(),
                forall|k: int| 0 <= k < pos ==> r@[k].latency_nanos <= x.latency_nanos,
            decreases r@.len() - pos,
        {
            pos = pos + 1;
        }
        proof {
            assert forall|k: int| pos <= k < r@.len() implies r@[k].latency_nanos > x.latency_nanos by {
                if pos < r@.len() {
                    assert(r@[pos as int].latency_nanos > x.latency_nanos);
                    assert(r@[pos as int].latency_nanos <= r@[k].latency_nanos);
                }
            }
            assert forall|l: u128| #[trigger] r@.insert(pos as int, x).filter(has_latency(l)) == s.take(
                i + 1,
            ).filter(has_latency(l)) by {
                lemma_filter_insert(r@, pos as int, x, l);
                assert(s.take(i + 1) == s.take(i as int).push(x));
                s.take(i as int).lemma_filter_push(x, has_latency(l));
            }
        }
        let ghost before = r@;
        r.insert(pos, x);
        proof {
            before.insert_ensures(pos as int, x);
            assert forall|p: int, q: int| 0 <= p < q < r@.len() implies r@[p].latency_nanos
                <= r@[q].latency_nanos by {
                if q < pos {
                } else if q == pos {
                } else if p < pos {
                    assert(r@[q] == before[q - 1]);
                } else if p == pos {
                    assert(r@[q] == before[q - 1]);
                } else {
                    assert(r@[p] == before[p - 1]);
                    assert(r@[q] == before[q - 1]);
                }
            }
        }
        i = i + 1;
    }
    proof {
        assert(s.take(n as int) =~= s);
    }
    r
}

/// The outcome of one check request.
pub enum AttemptOutcome {
    /// The upstream relayed a response; whether its status was a success.
    Response { latency_nanos: u128, success: bool },
    /// The request failed.
    Failed,
}

/// Whether an attempt passes: a successful response within the latency limit.
pub open spec fn attempt_passes(o: AttemptOutcome, max_latency_nanos: u128) -> bool {
    match o {
        AttemptOutcome::Response { latency_nanos, success } => latency_nanos
            <= max_latency_nanos && success,
        AttemptOutcome::Failed => false,
    }
}

pub open spec fn non_blank_url() -> spec_fn(Seq<char>) -> bool {
    |u: Seq<char>| !is_blank(u)
}

/// One health check of an upstream (`check_one`): each non-blank check URL
/// in turn, up to `CHECK_ATTEMPTS_PER_URL` attempts each, until an attempt
/// passes.
pub struct HealthCheck {
    targets: Vec<String>,
    index: usize,
    attempt: usize,
    max_latency_nanos: u128,
    passed: Option<u128>,
}

impl HealthCheck {
    /// The URLs that the check requests, in order.
    pub closed spec fn targets(&self) -> Seq<Seq<char>> {
        texts(self.targets@)
    }

    /// The URL being tried.
    pub closed spec fn index(&self) -> usize {
        self.index
    }

    /// Attempts made on the URL being tried.
    pub closed spec fn attempt(&self) -> usize {
        self.attempt
    }

    pub closed spec fn max_latency(&self) -> u128 {
        self.max_latency_nanos
    }

    /// The latency of the attempt that passed, once one did.
    pub closed spec fn passed(&self) -> Option<u128> {
        self.passed
    }

    /// At most `CHECK_ATTEMPTS_PER_URL` attempts are made on each URL.
    #[verifier::type_invariant]
    spec fn attempts_in_range(self) -> bool {
        self.attempt < CHECK_ATTEMPTS_PER_URL
    }

    /// How far the check has got: grows by one with every attempt that fails.
    pub open spec fn progress(&self) -> int {
        self.index() as int * CHECK_ATTEMPTS_PER_URL as int + self.attempt() as int
    }

    /// A check through `check_urls`, blank ones skipped, with a latency limit.
    pub fn new(check_urls: &Vec<String>, max_latency_nanos: u128) -> (c: HealthCheck)
        ensures
            c.targets() == texts(check_urls@).filter(non_blank_url()),
            c.index() == 0,
            c.attempt() == 0,
            c.max_latency() == max_latency_nanos,
            c.passed() is None,
    {
        let ghost s = texts(check_urls@);
        let ghost p = non_blank_url();
        let mut targets: Vec<String> = Vec::new();
        let mut i: usize = 0;
        proof {
            reveal(Seq::filter);
            assert(s.take(0).filter(p) =~= Seq::<Seq<char>>::empty());
            assert(texts(targets@) =~= Seq::<Seq<char>>::empty());
        }
        while i < check_urls.len()
            invariant
                s == texts(check_urls@),
                p == non_blank_url(),
                i <= s.len(),
                texts(targets@) == s.take(i as int).filter(p),
            decreases s.len() - i,
        {
            proof {
                assert(s.take(i + 1) == s.take(i as int).push(s[i as int]));
                s.take(i as int).lemma_filter_push(s[i as int], p);
            }
            if !is_blank_str(check_urls[i].as_str()) {
                let ghost before = targets@;
                let u = check_urls[i].clone();
                targets.push(u);
                proof {
                    assert(texts(targets@) =~= texts(before).push(s[i as int]));
                    assert(p(s[i as int]));
                    assert(s.take(i + 1).filter(p) == s.take(i as int).filter(p).push(s[i as int]));
                }
            } else {
                proof {
                    assert(!p(s[i as int]));
                    assert(s.take(i + 1).filter(p) == s.take(i as int).filter(p));
                }
            }
            i = i + 1;
        }
        proof {
            assert(s.take(i as int) =~= s);
        }
        HealthCheck { targets, index: 0, attempt: 0, max_latency_nanos, passed: None }
    }

    /// The URL to request next, if the check goes on.
    pub fn next_url(&self) -> (u: Option<String>)
        ensures
            match u {
                Some(s) => self.passed() is None && self.index() < self.targets().len() && s@
                    == self.targets()[self.index() as int],
                None => self.passed() is Some || self.index() >= self.targets().len(),
            },
    {
        if self.passed.is_some() || self.index >= self.targets.len() {
            None
        } else {
            Some(self.targets[self.index].clone())
        }
    }

    /// Records the outcome of the request to the URL of `next_url`.
    pub fn record(&mut self, outcome: AttemptOutcome)
        requires
            old(self).passed() is None,
            old(self).index() < old(self).targets().len(),
        ensures
            final(self).targets() == old(self).targets(),
            final(self).max_latency() == old(self).max_latency(),
            attempt_passes(outcome, old(self).max_latency()) ==> final(self).passed() == Some(
                outcome->Response_latency_nanos,
            ) && final(self).index() == old(self).index() && final(self).attempt() == old(
                self,
            ).attempt(),
            !attempt_passes(outcome, old(self).max_latency()) ==> final(self).passed() is None
                && final(self).progress() == old(self).progress() + 1 && final(self).attempt()
                < CHECK_ATTEMPTS_PER_URL,
    {
        proof {
            use_type_invariant(&*self);
        }
        match outcome {
            AttemptOutcome::Response { latency_nanos, success } => {
                if latency_nanos <= self.max_latency_nanos && success {
                    self.passed = Some(latency_nanos);
                    return ;
                }
            },
            AttemptOutcome::Failed => {},
        }
        let len = self.targets.len();
        proof {
            assert(len == self.targets().len());
        }
        if self.attempt + 1 == CHECK_ATTEMPTS_PER_URL {
            self.index = self.index + 1;
            self.attempt = 0;
        } else {
            self.attempt = self.attempt + 1;
        }
    }

    /// The latency of the passing attempt, or nothing when every attempt failed.
    pub fn result(&self) -> (r: Option<u128>)
        ensures
            r == self.passed(),
    {
        self.passed
    }
}

/// A check makes at most `CHECK_ATTEMPTS_PER_URL` requests per URL: while
/// it goes on, its progress stays below that bound, and each failing
/// attempt raises it by one.
pub proof fn law_check_attempts_bounded(c: HealthCheck)
    requires
        c.index() < c.targets().len(),
        c.attempt() < CHECK_ATTEMPTS_PER_URL,
    ensures
        0 <= c.progress() < c.targets().len() * CHECK_ATTEMPTS_PER_URL,
{
    assert(c.index() as int * 3 + c.attempt() < c.targets().len() * 3) by (nonlinear_arith)
        requires
            c.index() < c.targets().len(),
            c.attempt() < 3,
    ;
}

} // verus!

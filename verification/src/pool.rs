//! The proxy pool: the online list that connections rotate through, the
//! candidate list that refills it, and the cache of recent health checks.
//! Every operation here is the state change that the pool maintainers and the
//! connection handler make under the pool lock; the checks and file writes
//! between them happen around these calls.

use vstd::prelude::*;

use crate::hosts::{
    contains_host, hosts_without, hosts_without_all, is_sorted_set, lemma_filter_no_duplicates,
    lemma_filter_sorted, lemma_filter_to_set, merge_hosts, non_blank, other_than, outside, texts,
    without, without_all,
};
use crate::config::AppConfig;
use crate::hosts::sorted_set_of;
use crate::order::{compare_text, TextOrder};
use vstd::arithmetic::div_mod::{
    lemma_fundamental_div_mod, lemma_fundamental_div_mod_converse, lemma_mod_pos_bound,
};

verus! {

/// Size that the online pool is kept at.
pub const ONLINE_TARGET: usize = 80;

/// Below this many candidates the candidate pool is refilled from FOFA.
pub const CANDIDATE_LOW_WATERMARK: usize = 200;

/// How many hosts one refill asks FOFA for.
pub const CANDIDATE_REFILL_LIMIT: usize = 1000;

/// Fewest candidates tested in one promotion round.
pub const BOOTSTRAP_CHECK_LIMIT: usize = 100;

/// How many health checks run at once.
pub const CHECK_CONCURRENCY: usize = 32;

/// Timeout of one health-check request, in seconds.
pub const CHECK_TIMEOUT_SECS: u64 = 10;

/// How long a passed health check stays valid, in nanoseconds.
pub const CHECK_CACHE_TTL_NANOS: u64 = 10_000_000_000;

/// Pause between two maintenance rounds, in seconds.
pub const MAINTAIN_INTERVAL_SECS: u64 = 10;

/// How many days back FOFA results are taken from.
pub const FOFA_DAYS: i64 = 30;

/// FOFA page size.
pub const FOFA_PAGE_SIZE: u32 = 1000;

/// When a host last passed a health check, in nanoseconds on the pool's clock.
pub struct CheckMark {
    pub host: String,
    pub at: u64,
}

/// The latest mark for `h` in `marks`.
pub open spec fn mark_of(marks: Seq<CheckMark>, h: Seq<char>) -> Option<u64>
    decreases marks.len(),
{
    if marks.len() == 0 {
        None
    } else if marks.last().host@ == h {
        Some(marks.last().at)
    } else {
        mark_of(marks.drop_last(), h)
    }
}

/// Whether a host checked at `at` (if ever) must be checked again at `now`:
/// never checked, or checked at least the cache lifetime ago. A clock that
/// reads earlier than the mark counts as no time elapsed.
pub open spec fn check_due(at: Option<u64>, now: u64) -> bool {
    match at {
        None => true,
        Some(t) => (if now >= t {
            now - t
        } else {
            0
        }) >= CHECK_CACHE_TTL_NANOS,
    }
}

/// The rotation cursor after one pick (`wrapping_add(1)`).
pub open spec fn next_cursor(c: usize) -> usize {
    if c == usize::MAX {
        0
    } else {
        (c + 1) as usize
    }
}

/// `o` with the hosts of `xs` appended that it does not hold yet, each once,
/// in the order of `xs`.
pub open spec fn admit_new(o: Seq<Seq<char>>, xs: Seq<Seq<char>>) -> Seq<Seq<char>>
    decreases xs.len(),
{
    if xs.len() == 0 {
        o
    } else {
        let p = admit_new(o, xs.drop_last());
        if p.contains(xs.last()) {
            p
        } else {
            p.push(xs.last())
        }
    }
}

/// What the connection handler gets when it asks for an upstream.
pub enum Pick {
    /// The online pool is empty.
    Empty,
    /// This host passed a check within the cache lifetime: use it.
    Ready(String),
    /// This host must pass a check before it is used.
    Verify(String),
}

/// The data of the proxy pool.
pub struct PoolData {
    online: Vec<String>,
    candidates: Vec<String>,
    marks: Vec<CheckMark>,
    cursor: usize,
}

proof fn lemma_mark_push(marks: Seq<CheckMark>, m: CheckMark, x: Seq<char>)
    ensures
        mark_of(marks.push(m), x) == if m.host@ == x {
            Some(m.at)
        } else {
            mark_of(marks, x)
        },
{
    assert(marks.push(m).drop_last() =~= marks);
}

fn find_mark(marks: &Vec<CheckMark>, h: &str) -> (r: Option<u64>)
    ensures
        r == mark_of(marks@, h@),
{
    let mut i: usize = marks.len();
    proof {
        assert(marks@.take(i as int) =~= marks@);
    }
    while i > 0
        invariant
            i <= marks@.len(),
            mark_of(marks@, h@) == mark_of(marks@.take(i as int), h@),
        decreases i,
    {
        let ghost t = marks@.take(i as int);
        proof {
            assert(t.drop_last() =~= marks@.take(i - 1));
            assert(t.last() == marks@[i - 1]);
        }
        if let TextOrder::Same = compare_text(marks[i - 1].host.as_str(), h) {
            return Some(marks[i - 1].at);
        }
        i = i - 1;
    }
    proof {
        assert(marks@.take(0) =~= Seq::<CheckMark>::empty());
    }
    None
}

fn drop_mark(marks: &Vec<CheckMark>, h: &str) -> (r: Vec<CheckMark>)
    ensures
        forall|x: Seq<char>| #[trigger] mark_of(r@, x) == if x == h@ {
            None
        } else {
            mark_of(marks@, x)
        },
{
    let mut r: Vec<CheckMark> = Vec::new();
    let mut i: usize = 0;
    while i < marks.len()
        invariant
            i <= marks@.len(),
            forall|x: Seq<char>| #[trigger] mark_of(r@, x) == if x == h@ {
                None
            } else {
                mark_of(marks@.take(i as int), x)
            },
        decreases marks@.len() - i,
    {
        let ghost t = marks@.take(i + 1);
        proof {
            assert(t.drop_last() =~= marks@.take(i as int));
            assert(t.last() == marks@[i as int]);
        }
        match compare_text(marks[i].host.as_str(), h) {
            TextOrder::Same => {},
            _ => {
                let m = CheckMark { host: marks[i].host.clone(), at: marks[i].at };
                let ghost before = r@;
                r.push(m);
                proof {
                    assert forall|x: Seq<char>| #[trigger] mark_of(r@, x) == if x == h@ {
                        None
                    } else {
                        mark_of(t, x)
                    } by {
                        lemma_mark_push(before, m, x);
                    }
                }
            },
        }
        i = i + 1;
    }
    proof {
        assert(marks@.take(i as int) =~= marks@);
    }
    r
}

impl PoolData {
    /// The online hosts, in rotation order.
    pub closed spec fn online(&self) -> Seq<Seq<char>> {
        texts(self.online@)
    }

    /// The candidate hosts.
    pub closed spec fn candidates(&self) -> Seq<Seq<char>> {
        texts(self.candidates@)
    }

    /// When `h` last passed a health check, if it is cached.
    pub closed spec fn checked_at(&self, h: Seq<char>) -> Option<u64> {
        mark_of(self.marks@, h)
    }

    /// The rotation cursor.
    pub closed spec fn cursor(&self) -> usize {
        self.cursor
    }

    /// The position in the online list that the next pick takes.
    pub open spec fn pick_index(&self) -> int {
        self.cursor() as int % self.online().len() as int
    }

    /// A pool with the given lists, nothing checked yet, rotation at the start.
    pub fn new(online: Vec<String>, candidates: Vec<String>) -> (p: PoolData)
        ensures
            p.online() == texts(online@),
            p.candidates() == texts(candidates@),
            forall|x: Seq<char>| #[trigger] p.checked_at(x) is None,
            p.cursor() == 0,
    {
        PoolData { online, candidates, marks: Vec::new(), cursor: 0 }
    }

    pub fn online_len(&self) -> (n: usize)
        ensures
            n == self.online().len(),
    {
        self.online.len()
    }

    pub fn candidates_len(&self) -> (n: usize)
        ensures
            n == self.candidates().len(),
    {
        self.candidates.len()
    }

    /// A copy of the online list, for writing it out.
    pub fn online_hosts(&self) -> (v: Vec<String>)
        ensures
            texts(v@) == self.online(),
    {
        let v = self.online.clone();
        proof {
            assert(texts(v@) =~= self.online());
        }
        v
    }

    /// A copy of the candidate list, for writing it out.
    pub fn candidate_hosts(&self) -> (v: Vec<String>)
        ensures
            texts(v@) == self.candidates(),
    {
        let v = self.candidates.clone();
        proof {
            assert(texts(v@) =~= self.candidates());
        }
        v
    }

    /// The next online host in rotation; the rotation advances by one.
    pub fn next_online(&mut self) -> (r: Option<String>)
        ensures
            old(self).online().len() == 0 ==> r is None && final(self).cursor() == old(self).cursor(),
            old(self).online().len() > 0 ==> r is Some && r->0@ == old(self).online()[old(self).pick_index()] && final(self).cursor() == next_cursor(
                old(self).cursor(),
            ),
            final(self).online() == old(self).online(),
            final(self).candidates() == old(self).candidates(),
            forall|x: Seq<char>| #[trigger] final(self).checked_at(x) == old(self).checked_at(x),
    {
        if self.online.len() == 0 {
            return None;
        }
        let h = self.online[self.cursor % self.online.len()].clone();
        self.cursor = if self.cursor == usize::MAX {
            0
        } else {
            self.cursor + 1
        };
        Some(h)
    }

    /// Whether `h` must pass a check before it is used at time `now`.
    pub fn needs_check(&self, h: &str, now: u64) -> (b: bool)
        ensures
            b == check_due(self.checked_at(h@), now),
    {
        match find_mark(&self.marks, h) {
            None => true,
            Some(t) => {
                let elapsed = if now >= t {
                    now - t
                } else {
                    0
                };
                elapsed >= CHECK_CACHE_TTL_NANOS
            },
        }
    }

    /// Records that `h` passed a check at `now`.
    pub fn mark_checked(&mut self, h: String, now: u64)
        ensures
            final(self).checked_at(h@) == Some(now),
            forall|x: Seq<char>| x != h@ ==> #[trigger] final(self).checked_at(x) == old(self).checked_at(x),
            final(self).online() == old(self).online(),
            final(self).candidates() == old(self).candidates(),
            final(self).cursor() == old(self).cursor(),
    {
        let mut marks = drop_mark(&self.marks, h.as_str());
        let ghost before = marks@;
        let m = CheckMark { host: h, at: now };
        let ghost mm = m;
        marks.push(m);
        proof {
            assert forall|x: Seq<char>| #[trigger] mark_of(marks@, x) == if x == mm.host@ {
                Some(now)
            } else {
                mark_of(old(self).marks@, x)
            } by {
                lemma_mark_push(before, mm, x);
            }
        }
        self.marks = marks;
    }

    /// Takes `h` out of the online pool and forgets its check
    /// (`remove_online`, also what `mark_failure` does).
    pub fn remove_online(&mut self, h: &str)
        ensures
            final(self).online() == without(old(self).online(), h@),
            !final(self).online().contains(h@),
            final(self).checked_at(h@) is None,
            forall|x: Seq<char>| x != h@ ==> #[trigger] final(self).checked_at(x) == old(self).checked_at(x),
            final(self).candidates() == old(self).candidates(),
            final(self).cursor() == old(self).cursor(),
            old(self).online().no_duplicates() ==> final(self).online().no_duplicates(),
    {
        self.online = hosts_without(&self.online, h);
        self.marks = drop_mark(&self.marks, h);
        proof {
            let f = without(old(self).online(), h@);
            if f.contains(h@) {
                old(self).online().lemma_filter_contains_rev(other_than(h@), h@);
                let k = choose|k: int| 0 <= k < f.len() && f[k] == h@;
                assert(f.filter(other_than(h@)).len() <= f.len());
            }
            if old(self).online().no_duplicates() {
                lemma_filter_no_duplicates(old(self).online(), other_than(h@));
            }
        }
    }

    /// The next upstream for a connection: the next host in rotation, and
    /// whether it must pass a check first.
    pub fn pick_upstream(&mut self, now: u64) -> (r: Pick)
        ensures
            old(self).online().len() == 0 ==> r is Empty,
            old(self).online().len() > 0 ==> ({
                let h = old(self).online()[old(self).pick_index()];
                match r {
                    Pick::Ready(s) => s@ == h && !check_due(old(self).checked_at(h), now),
                    Pick::Verify(s) => s@ == h && check_due(old(self).checked_at(h), now),
                    Pick::Empty => false,
                }
            }),
            old(self).online().len() > 0 ==> final(self).cursor() == next_cursor(
                old(self).cursor(),
            ),
            old(self).online().len() == 0 ==> final(self).cursor() == old(self).cursor(),
            final(self).online() == old(self).online(),
            final(self).candidates() == old(self).candidates(),
            forall|x: Seq<char>| #[trigger] final(self).checked_at(x) == old(self).checked_at(x),
    {
        match self.next_online() {
            None => Pick::Empty,
            Some(h) => {
                if self.needs_check(h.as_str(), now) {
                    Pick::Verify(h)
                } else {
                    Pick::Ready(h)
                }
            },
        }
    }

    /// The online hosts whose check is due at `now`.
    pub open spec fn expired(&self, now: u64) -> Seq<Seq<char>> {
        self.online().filter(self.due_at(now))
    }

    pub open spec fn due_at(&self, now: u64) -> spec_fn(Seq<char>) -> bool {
        |h: Seq<char>| check_due(self.checked_at(h), now)
    }

    /// The online hosts whose check is due at `now`, in rotation order: the
    /// hosts a maintenance round checks.
    pub fn expired_online(&self, now: u64) -> (v: Vec<String>)
        ensures
            texts(v@) == self.expired(now),
    {
        let ghost s = self.online();
        let mut v: Vec<String> = Vec::new();
        let mut i: usize = 0;
        proof {
            assert(s.take(0) =~= Seq::<Seq<char>>::empty());
            assert(s.take(0).filter(self.due_at(now)) =~= Seq::<Seq<char>>::empty());
        }
        while i < self.online.len()
            invariant
                s == self.online(),
                i <= s.len(),
                texts(v@) == s.take(i as int).filter(self.due_at(now)),
            decreases s.len() - i,
        {
            proof {
                assert(s.take(i + 1) == s.take(i as int).push(s[i as int]));
                s.take(i as int).lemma_filter_push(s[i as int], self.due_at(now));
            }
            if self.needs_check(self.online[i].as_str(), now) {
                v.push(self.online[i].clone());
                proof {
                    assert(texts(v@) =~= s.take(i as int).filter(self.due_at(now)).push(
                        s[i as int],
                    ));
                }
            }
            i = i + 1;
        }
        proof {
            assert(s.take(i as int) =~= s);
        }
        v
    }

    /// Applies the results of a maintenance check: the checked hosts that
    /// passed get a fresh mark, the others leave the online pool and lose
    /// their mark.
    pub fn apply_health(&mut self, checked: &Vec<String>, alive: &Vec<String>, now: u64)
        ensures
            final(self).online() == without_all(
                old(self).online(),
                without_all(texts(checked@), texts(alive@)),
            ),
            forall|x: Seq<char>| #[trigger]
                final(self).checked_at(x) == if texts(checked@).contains(x) {
                    if texts(alive@).contains(x) {
                        Some(now)
                    } else {
                        None
                    }
                } else {
                    old(self).checked_at(x)
                },
            final(self).candidates() == old(self).candidates(),
            final(self).cursor() == old(self).cursor(),
            old(self).online().no_duplicates() ==> final(self).online().no_duplicates(),
    {
        let dead = hosts_without_all(checked, alive);
        self.online = hosts_without_all(&self.online, &dead);
        let ghost online1 = self.online@;
        proof {
            if old(self).online().no_duplicates() {
                lemma_filter_no_duplicates(old(self).online(), outside(texts(dead@)));
            }
        }
        let ghost c = texts(checked@);
        let ghost a = texts(alive@);
        let ghost marks0 = self.marks@;
        let mut i: usize = 0;
        while i < checked.len()
            invariant
                c == texts(checked@),
                a == texts(alive@),
                i <= c.len(),
                self.online@ == online1,
                self.candidates@ == old(self).candidates@,
                self.cursor == old(self).cursor,
                forall|x: Seq<char>| #[trigger]
                    mark_of(self.marks@, x) == if c.take(i as int).contains(x) {
                        if a.contains(x) {
                            Some(now)
                        } else {
                            None
                        }
                    } else {
                        mark_of(marks0, x)
                    },
            decreases c.len() - i,
        {
            let ghost t = c.take(i + 1);
            proof {
                assert(t == c.take(i as int).push(c[i as int]));
                assert forall|x: Seq<char>| #[trigger] t.contains(x) == (c.take(i as int).contains(
                    x,
                ) || x == c[i as int]) by {
                    if t.contains(x) {
                        let k = choose|k: int| 0 <= k < t.len() && t[k] == x;
                        if k < i {
                            assert(c.take(i as int)[k] == x);
                        }
                    }
                    if c.take(i as int).contains(x) {
                        let k = choose|k: int| 0 <= k < i && c.take(i as int)[k] == x;
                        assert(t[k] == x);
                    }
                    if x == c[i as int] {
                        assert(t[i as int] == x);
                    }
                }
            }
            let host = checked[i].clone();
            if contains_host(alive, host.as_str()) {
                let mut marks = drop_mark(&self.marks, host.as_str());
                let ghost before = marks@;
                let m = CheckMark { host, at: now };
                let ghost mm = m;
                marks.push(m);
                proof {
                    assert forall|x: Seq<char>| #[trigger] mark_of(marks@, x) == if t.contains(x) {
                        if a.contains(x) {
                            Some(now)
                        } else {
                            None
                        }
                    } else {
                        mark_of(marks0, x)
                    } by {
                        lemma_mark_push(before, mm, x);
                    }
                }
                self.marks = marks;
            } else {
                self.marks = drop_mark(&self.marks, host.as_str());
            }
            i = i + 1;
        }
        proof {
            assert(c.take(i as int) =~= c);
        }
    }

    /// How many hosts the online pool lacks of its target size.
    pub fn missing_online(&self) -> (n: usize)
        ensures
            n == if self.online().len() < ONLINE_TARGET {
                ONLINE_TARGET - self.online().len()
            } else {
                0
            },
    {
        if self.online.len() < ONLINE_TARGET {
            ONLINE_TARGET - self.online.len()
        } else {
            0
        }
    }

    /// Whether the candidate pool is below its low watermark and must be refilled.
    pub fn needs_candidates(&self) -> (b: bool)
        ensures
            b == (self.candidates().len() < CANDIDATE_LOW_WATERMARK),
    {
        self.candidates.len() < CANDIDATE_LOW_WATERMARK
    }

    /// Merges fetched hosts into the candidates, as at start-up.
    pub fn absorb_fetched(&mut self, fetched: Vec<String>)
        ensures
            is_sorted_set(final(self).candidates()),
            final(self).candidates().to_set() == non_blank(
                old(self).candidates().to_set() + texts(fetched@).to_set(),
            ),
            final(self).same_except_candidates(old(self)),
    {
        let current = self.candidates.clone();
        proof {
            assert(texts(current@) =~= old(self).candidates());
        }
        self.candidates = merge_hosts(current, fetched);
    }

    /// Everything but the candidate list is as in `old`.
    pub open spec fn same_except_candidates(&self, old: &PoolData) -> bool {
        &&& self.online() == old.online()
        &&& self.cursor() == old.cursor()
        &&& forall|x: Seq<char>| #[trigger] self.checked_at(x) == old.checked_at(x)
    }

    /// Merges fetched hosts into the candidates and leaves out the hosts
    /// that are online, as a maintenance round does.
    pub fn refill_candidates(&mut self, fetched: Vec<String>)
        ensures
            is_sorted_set(final(self).candidates()),
            final(self).candidates().to_set() == non_blank(
                old(self).candidates().to_set() + texts(fetched@).to_set(),
            ).filter(outside(old(self).online())),
            final(self).same_except_candidates(old(self)),
    {
        let current = self.candidates.clone();
        proof {
            assert(texts(current@) =~= old(self).candidates());
        }
        let merged = merge_hosts(current, fetched);
        self.candidates = hosts_without_all(&merged, &self.online);
        proof {
            lemma_filter_sorted(texts(merged@), outside(self.online()));
            lemma_filter_to_set(texts(merged@), outside(self.online()));
        }
    }

    /// How many candidates a promotion round for `needed` hosts tests.
    pub open spec fn batch_size(&self, needed: usize) -> int {
        let want = if needed > BOOTSTRAP_CHECK_LIMIT {
            needed as int
        } else {
            BOOTSTRAP_CHECK_LIMIT as int
        };
        if want < self.candidates().len() {
            want
        } else {
            self.candidates().len() as int
        }
    }

    /// The candidates that a promotion round tests: the first
    /// `max(BOOTSTRAP_CHECK_LIMIT, needed)` of them.
    pub fn promotion_batch(&self, needed: usize) -> (v: Vec<String>)
        ensures
            texts(v@) == self.candidates().take(self.batch_size(needed)),
    {
        let want = if needed > BOOTSTRAP_CHECK_LIMIT {
            needed
        } else {
            BOOTSTRAP_CHECK_LIMIT
        };
        let n = if want < self.candidates.len() {
            want
        } else {
            self.candidates.len()
        };
        let mut v: Vec<String> = Vec::new();
        let mut i: usize = 0;
        while i < n
            invariant
                n <= self.candidates@.len(),
                i <= n,
                texts(v@) == self.candidates().take(i as int),
            decreases n - i,
        {
            let ghost before = v@;
            let h = self.candidates[i].clone();
            v.push(h);
            proof {
                assert(v@ == before.push(h));
                assert(h@ == self.candidates()[i as int]);
                assert(texts(v@) =~= texts(before).push(h@));
                assert(self.candidates().take(i + 1) =~= self.candidates().take(i as int).push(
                    h@,
                ));
            }
            i = i + 1;
        }
        v
    }

    /// Applies the results of a promotion round: the first `needed` hosts
    /// that passed, fastest first, join the online pool unless they are in it,
    /// with a fresh mark; every tested host leaves the candidates.
    pub fn apply_promotion(
        &mut self,
        tested: &Vec<String>,
        alive: &Vec<String>,
        needed: usize,
        now: u64,
    )
        ensures
            final(self).online() == admit_new(old(self).online(), texts(alive@).take(
                if needed < alive@.len() {
                    needed as int
                } else {
                    alive@.len() as int
                },
            )),
            forall|x: Seq<char>| #[trigger]
                final(self).checked_at(x) == if !old(self).online().contains(x) && final(self).online().contains(x) {
                    Some(now)
                } else {
                    old(self).checked_at(x)
                },
            final(self).candidates() == without_all(old(self).candidates(), texts(tested@)),
            final(self).cursor() == old(self).cursor(),
    {
        let limit = if needed < alive.len() {
            needed
        } else {
            alive.len()
        };
        let ghost a = texts(alive@);
        let ghost o0 = self.online();
        let ghost marks0 = self.marks@;
        let mut k: usize = 0;
        proof {
            assert(a.take(0) =~= Seq::<Seq<char>>::empty());
        }
        while k < limit
            invariant
                a == texts(alive@),
                limit <= alive@.len(),
                k <= limit,
                o0 == old(self).online(),
                self.online() == admit_new(o0, a.take(k as int)),
                forall|x: Seq<char>| #[trigger]
                    mark_of(self.marks@, x) == if !o0.contains(x) && self.online().contains(x) {
                        Some(now)
                    } else {
                        mark_of(marks0, x)
                    },
                forall|x: Seq<char>| o0.contains(x) ==> #[trigger] self.online().contains(x),
                self.candidates == old(self).candidates,
                self.cursor == old(self).cursor,
            decreases limit - k,
        {
            let ghost t = a.take(k + 1);
            let ghost prev = self.online();
            proof {
                assert(t.drop_last() =~= a.take(k as int));
                assert(t.last() == a[k as int]);
            }
            if !contains_host(&self.online, alive[k].as_str()) {
                let host = alive[k].clone();
                self.online.push(host.clone());
                let mut marks = drop_mark(&self.marks, host.as_str());
                let ghost before = marks@;
                let m = CheckMark { host, at: now };
                let ghost mm = m;
                marks.push(m);
                proof {
                    assert(self.online() =~= prev.push(a[k as int]));
                    assert forall|x: Seq<char>| #[trigger] self.online().contains(x) == (
                    prev.contains(x) || x == a[k as int]) by {
                        if self.online().contains(x) {
                            let j = choose|j: int| 0 <= j < self.online().len() && self.online()[j] == x;
                            if j < prev.len() {
                                assert(prev[j] == x);
                            }
                        }
                        if prev.contains(x) {
                            let j = choose|j: int| 0 <= j < prev.len() && prev[j] == x;
                            assert(self.online()[j] == x);
                        }
                        if x == a[k as int] {
                            assert(self.online()[prev.len() as int] == x);
                        }
                    }
                    assert forall|x: Seq<char>| #[trigger] mark_of(marks@, x) == if !o0.contains(x)
                        && self.online().contains(x) {
                        Some(now)
                    } else {
                        mark_of(marks0, x)
                    } by {
                        lemma_mark_push(before, mm, x);
                    }
                }
                self.marks = marks;
            }
            k = k + 1;
        }
        self.candidates = hosts_without_all(&self.candidates, tested);
    }
}

/// What the connection handler does next while it selects an upstream.
pub enum SelectStep {
    /// Use this upstream.
    Use(String),
    /// Check this upstream first; report how the check went with `passed`
    /// or `failed`.
    Check(String),
    /// No upstream: the online pool is empty, or every try failed.
    Exhausted,
}

/// The selection of an upstream for one connection (`select_upstream`):
/// at most one try per host that the online pool held when it began; a try
/// takes the next host in rotation and uses it at once if its check is
/// cached, else checks it; a host that fails its check leaves the pool.
pub struct UpstreamSelection {
    remaining: usize,
}

impl PoolData {
    /// `self` is `old` after one pick: only the rotation moved, by one when
    /// there was a host to pick.
    pub open spec fn after_pick(&self, old: &PoolData) -> bool {
        &&& self.online() == old.online()
        &&& self.candidates() == old.candidates()
        &&& forall|x: Seq<char>| #[trigger] self.checked_at(x) == old.checked_at(x)
        &&& self.cursor() == if old.online().len() == 0 {
            old.cursor()
        } else {
            next_cursor(old.cursor())
        }
    }
}

impl UpstreamSelection {
    /// Tries left.
    pub closed spec fn remaining(&self) -> usize {
        self.remaining
    }

    /// A selection with one try per online host.
    pub fn begin(pool: &PoolData) -> (s: UpstreamSelection)
        ensures
            s.remaining() == pool.online().len(),
    {
        UpstreamSelection { remaining: pool.online_len() }
    }

    /// The next try.
    pub fn next(&mut self, pool: &mut PoolData, now: u64) -> (r: SelectStep)
        ensures
            old(self).remaining() == 0 ==> r is Exhausted && *final(pool) == *old(pool)
                && final(self).remaining() == 0,
            old(self).remaining() > 0 ==> final(self).remaining() == old(self).remaining() - 1
                && final(pool).after_pick(old(pool)),
            old(self).remaining() > 0 && old(pool).online().len() == 0 ==> r is Exhausted,
            old(self).remaining() > 0 && old(pool).online().len() > 0 ==> ({
                let h = old(pool).online()[old(pool).pick_index()];
                match r {
                    SelectStep::Use(s) => s@ == h && !check_due(old(pool).checked_at(h), now),
                    SelectStep::Check(s) => s@ == h && check_due(old(pool).checked_at(h), now),
                    SelectStep::Exhausted => false,
                }
            }),
    {
        if self.remaining == 0 {
            return SelectStep::Exhausted;
        }
        self.remaining = self.remaining - 1;
        match pool.pick_upstream(now) {
            Pick::Empty => SelectStep::Exhausted,
            Pick::Ready(h) => SelectStep::Use(h),
            Pick::Verify(h) => SelectStep::Check(h),
        }
    }

    /// The check of `h` passed at `now`: its mark is renewed and it is used.
    pub fn passed(&mut self, pool: &mut PoolData, h: String, now: u64) -> (r: SelectStep)
        ensures
            r matches SelectStep::Use(s) && s@ == h@,
            final(pool).checked_at(h@) == Some(now),
            forall|x: Seq<char>| x != h@ ==> #[trigger] final(pool).checked_at(x) == old(
                pool,
            ).checked_at(x),
            final(pool).online() == old(pool).online(),
            final(pool).candidates() == old(pool).candidates(),
            final(pool).cursor() == old(pool).cursor(),
            final(self).remaining() == old(self).remaining(),
    {
        pool.mark_checked(h.clone(), now);
        SelectStep::Use(h)
    }

    /// The check of `h` failed: it leaves the online pool; `next` makes the
    /// following try.
    pub fn failed(&mut self, pool: &mut PoolData, h: &str)
        ensures
            final(pool).online() == without(old(pool).online(), h@),
            final(pool).checked_at(h@) is None,
            forall|x: Seq<char>| x != h@ ==> #[trigger] final(pool).checked_at(x) == old(
                pool,
            ).checked_at(x),
            final(pool).candidates() == old(pool).candidates(),
            final(pool).cursor() == old(pool).cursor(),
            final(self).remaining() == old(self).remaining(),
    {
        pool.remove_online(h);
    }
}

/// The rotation cursor after `k` picks from `c`.
pub open spec fn cursor_after(c: usize, k: nat) -> usize
    decreases k,
{
    if k == 0 {
        c
    } else {
        next_cursor(cursor_after(c, (k - 1) as nat))
    }
}

/// The positions that `n` picks in a row take in an online list of `n`
/// hosts, starting from cursor `c`.
pub open spec fn picked_positions(c: usize, n: nat) -> Seq<int> {
    Seq::new(n, |k: int| cursor_after(c, k as nat) as int % n as int)
}

proof fn lemma_cursor_after(c: usize, k: nat)
    requires
        c as int + k <= usize::MAX,
    ensures
        cursor_after(c, k) == c as int + k,
    decreases k,
{
    if k > 0 {
        lemma_cursor_after(c, (k - 1) as nat);
    }
}

/// Round robin: `n` picks in a row from an online list of `n` hosts take
/// every position once, so every online host serves one connection before
/// any serves a second (as long as the cursor does not wrap around).
pub proof fn law_round_robin(c: usize, n: nat)
    requires
        n > 0,
        c as int + n - 1 <= usize::MAX,
    ensures
        picked_positions(c, n).no_duplicates(),
        forall|j: int| 0 <= j < n ==> picked_positions(c, n).contains(j),
{
    let ps = picked_positions(c, n);
    let nn = n as int;
    assert forall|k: int| 0 <= k < nn implies #[trigger] ps[k] == (c as int + k) % nn by {
        lemma_cursor_after(c, k as nat);
    }
    assert forall|k1: int, k2: int| 0 <= k1 < nn && 0 <= k2 < nn && k1 != k2 implies ps[k1]
        != ps[k2] by {
        let x1 = c as int + k1;
        let x2 = c as int + k2;
        lemma_fundamental_div_mod(x1, nn);
        lemma_fundamental_div_mod(x2, nn);
        if x1 % nn == x2 % nn {
            let q1 = x1 / nn;
            let q2 = x2 / nn;
            assert(k2 - k1 == (q2 - q1) * nn) by (nonlinear_arith)
                requires
                    x1 == nn * q1 + x1 % nn,
                    x2 == nn * q2 + x2 % nn,
                    x1 % nn == x2 % nn,
                    x1 == c as int + k1,
                    x2 == c as int + k2,
            ;
            assert(false) by (nonlinear_arith)
                requires
                    k2 - k1 == (q2 - q1) * nn,
                    -nn < k2 - k1 < nn,
                    k2 != k1,
                    nn > 0,
            ;
        }
    }
    assert forall|j: int| 0 <= j < nn implies ps.contains(j) by {
        let q = c as int / nn;
        let r = c as int % nn;
        lemma_fundamental_div_mod(c as int, nn);
        lemma_mod_pos_bound(c as int, nn);
        if j >= r {
            let k = j - r;
            assert(c as int + k == q * nn + j);
            lemma_fundamental_div_mod_converse(c as int + k, nn, q, j);
            assert(ps[k] == j);
        } else {
            let k = j - r + nn;
            assert(c as int + k == (q + 1) * nn + j) by (nonlinear_arith)
                requires
                    c as int == nn * q + r,
                    k == j - r + nn,
            ;
            lemma_fundamental_div_mod_converse(c as int + k, nn, q + 1, j);
            assert(ps[k] == j);
        }
    }
}

/// The check cache: a host that passed a check at `now` is used without a
/// new check for exactly the cache lifetime.
pub proof fn law_check_cache(now: u64, t: u64)
    ensures
        check_due(Some(now), t) == (t >= now && t - now >= CHECK_CACHE_TTL_NANOS),
        now <= t < now + CHECK_CACHE_TTL_NANOS ==> !check_due(Some(now), t),
{
}

/// Promotion keeps the online pool free of duplicates, keeps every host it
/// had in place, adds only hosts that passed, and adds at most as many as asked.
pub proof fn law_promotion(o: Seq<Seq<char>>, xs: Seq<Seq<char>>)
    ensures
        o.no_duplicates() ==> admit_new(o, xs).no_duplicates(),
        o.len() <= admit_new(o, xs).len() <= o.len() + xs.len(),
        admit_new(o, xs).take(o.len() as int) == o,
        forall|x: Seq<char>| #[trigger] admit_new(o, xs).contains(x) <==> (o.contains(x) || xs.contains(x)),
    decreases xs.len(),
{
    if xs.len() == 0 {
        assert(o.take(o.len() as int) =~= o);
    } else {
        let d = xs.drop_last();
        law_promotion(o, d);
        let p = admit_new(o, d);
        let l = xs.last();
        assert forall|x: Seq<char>| #[trigger] xs.contains(x) <==> (d.contains(x) || x == l) by {
            if xs.contains(x) {
                let k = choose|k: int| 0 <= k < xs.len() && xs[k] == x;
                if k < d.len() {
                    assert(d[k] == x);
                }
            }
            if d.contains(x) {
                let k = choose|k: int| 0 <= k < d.len() && d[k] == x;
                assert(xs[k] == x);
            }
            if x == l {
                assert(xs[xs.len() - 1] == x);
            }
        }
        if !p.contains(l) {
            let q = p.push(l);
            assert(q.take(o.len() as int) =~= p.take(o.len() as int));
            assert forall|x: Seq<char>| #[trigger] q.contains(x) <==> (p.contains(x) || x == l) by {
                if q.contains(x) {
                    let k = choose|k: int| 0 <= k < q.len() && q[k] == x;
                    if k < p.len() {
                        assert(p[k] == x);
                    }
                }
                if p.contains(x) {
                    let k = choose|k: int| 0 <= k < p.len() && p[k] == x;
                    assert(q[k] == x);
                }
                if x == l {
                    assert(q[p.len() as int] == x);
                }
            }
            if o.no_duplicates() {
                assert forall|i: int, j: int| 0 <= i < q.len() && 0 <= j < q.len() && i != j implies q[i] != q[j] by {
                    if i == p.len() {
                        assert(p.contains(q[j]));
                    } else if j == p.len() {
                        assert(p.contains(q[i]));
                    }
                }
            }
        }
    }
}

/// The highest latency at which an upstream passes a check, in
/// milliseconds: the configured one, at least one.
pub fn max_latency(config: &AppConfig) -> (ms: u64)
    ensures
        ms == if config.max_latency > 1 {
            config.max_latency
        } else {
            1
        },
{
    if config.max_latency > 1 {
        config.max_latency
    } else {
        1
    }
}

/// The URLs that health checks request: the check URL and the fallback,
/// blank ones left out, sorted, without duplicates.
pub fn check_urls(config: &AppConfig) -> (urls: Vec<String>)
    ensures
        is_sorted_set(texts(urls@)),
        texts(urls@).to_set() == non_blank(
            set![config.check_url@, config.check_fallback_url@],
        ),
{
    let items = vec![config.check_url.clone(), config.check_fallback_url.clone()];
    proof {
        assert(texts(items@).to_set() =~= set![config.check_url@, config.check_fallback_url@])
            by {
            assert(texts(items@)[0] == config.check_url@);
            assert(texts(items@)[1] == config.check_fallback_url@);
        }
    }
    sorted_set_of(&items)
}

} // verus!

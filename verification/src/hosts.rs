//! Host lists: the sorted, duplicate-free lists that the pool files hold,
//! their text form, and the merge of fetched hosts into a pool.

use vstd::prelude::*;

use crate::order::{
    compare_text, lemma_text_lt_irreflexive, lemma_text_lt_transitive, text_lt, TextOrder,
};
use crate::text::{
    chars_of, is_blank, is_blank_str, is_space, lemma_trimmed_empty, lemma_trimmed_unchanged,
    push_char, string_of, strip_bounds, trimmed, Strip,
};

verus! {

/// The texts of a list of strings.
pub open spec fn texts(v: Seq<String>) -> Seq<Seq<char>> {
    v.map_values(|s: String| s@)
}

/// Strictly increasing in text order, hence free of duplicates: the shape
/// in which a `BTreeSet<String>` hands out its items.
pub open spec fn is_sorted_set(s: Seq<Seq<char>>) -> bool {
    forall|i: int, j: int| 0 <= i < j < s.len() ==> text_lt(#[trigger] s[i], #[trigger] s[j])
}

/// The items of `s` that are not blank.
pub open spec fn non_blank(s: Set<Seq<char>>) -> Set<Seq<char>> {
    s.filter(|x: Seq<char>| !is_blank(x))
}

/// A sorted set is determined by its items.
pub proof fn lemma_sorted_set_determined(a: Seq<Seq<char>>, b: Seq<Seq<char>>)
    requires
        is_sorted_set(a),
        is_sorted_set(b),
        a.to_set() == b.to_set(),
    ensures
        a == b,
    decreases a.len(),
{
    if a.len() == 0 {
        if b.len() > 0 {
            assert(b.to_set().contains(b[0]));
        }
        assert(a =~= b);
    } else {
        assert(a.to_set().contains(a[0]));
        assert(b.len() > 0);
        assert(b.to_set().contains(b[0]));
        let j = choose|j: int| 0 <= j < b.len() && b[j] == a[0];
        let k = choose|k: int| 0 <= k < a.len() && a[k] == b[0];
        if j > 0 {
            assert(text_lt(b[0], b[j]));
            if k > 0 {
                assert(text_lt(a[0], a[k]));
                lemma_text_lt_transitive(b[0], a[0], b[0]);
            }
            lemma_text_lt_irreflexive(b[0]);
        }
        assert(a[0] == b[0]);
        let a1 = a.drop_first();
        let b1 = b.drop_first();
        assert forall|x: Seq<char>| a1.to_set().contains(x) implies b1.to_set().contains(x) by {
            let p = choose|p: int| 0 <= p < a1.len() && a1[p] == x;
            assert(a.to_set().contains(a[p + 1]));
            let q = choose|q: int| 0 <= q < b.len() && b[q] == x;
            if q == 0 {
                assert(text_lt(a[0], a[p + 1]));
                lemma_text_lt_irreflexive(x);
            }
            assert(b1[q - 1] == x);
        }
        assert forall|x: Seq<char>| b1.to_set().contains(x) implies a1.to_set().contains(x) by {
            let p = choose|p: int| 0 <= p < b1.len() && b1[p] == x;
            assert(b.to_set().contains(b[p + 1]));
            let q = choose|q: int| 0 <= q < a.len() && a[q] == x;
            if q == 0 {
                assert(text_lt(b[0], b[p + 1]));
                lemma_text_lt_irreflexive(x);
            }
            assert(a1[q - 1] == x);
        }
        assert(a1.to_set() =~= b1.to_set());
        lemma_sorted_set_determined(a1, b1);
        assert(a =~= b) by {
            assert forall|i: int| 0 <= i < a.len() implies a[i] == b[i] by {
                if i > 0 {
                    assert(a[i] == a1[i - 1]);
                    assert(b[i] == b1[i - 1]);
                }
            }
        }
    }
}

/// Adds `h` to the sorted set `v`, where it belongs; does nothing when `v`
/// already holds it. Returns whether it was added.
pub fn insert_host(v: &mut Vec<String>, h: String) -> (added: bool)
    requires
        is_sorted_set(texts(old(v)@)),
    ensures
        is_sorted_set(texts(final(v)@)),
        texts(final(v)@).to_set() == texts(old(v)@).to_set().insert(h@),
        added == !texts(old(v)@).contains(h@),
        final(v)@.len() == old(v)@.len() + if added { 1int } else { 0int },
{
    let ghost s = texts(v@);
    let mut i: usize = 0;
    while i < v.len()
        invariant
            s == texts(v@),
            is_sorted_set(s),
            i <= v@.len(),
            forall|k: int| 0 <= k < i ==> text_lt(#[trigger] s[k], h@),
        ensures
            i < v@.len() ==> text_lt(h@, s[i as int]),
        decreases v@.len() - i,
    {
        match compare_text(v[i].as_str(), h.as_str()) {
            TextOrder::Before => {
                i = i + 1;
            },
            TextOrder::Same => {
                proof {
                    assert(s[i as int] == h@);
                }
                return false;
            },
            TextOrder::After => {
                break ;
            },
        }
    }
    proof {
        assert forall|k: int| i <= k < s.len() implies text_lt(h@, #[trigger] s[k]) by {
            assert(text_lt(h@, s[i as int]));
            if k > i {
                assert(text_lt(s[i as int], s[k]));
                lemma_text_lt_transitive(h@, s[i as int], s[k]);
            }
        }
        lemma_text_lt_irreflexive(h@);
        assert(!s.contains(h@)) by {
            if s.contains(h@) {
                let k = choose|k: int| 0 <= k < s.len() && s[k] == h@;
                if k < i {
                    assert(text_lt(s[k], h@));
                } else {
                    assert(text_lt(h@, s[k]));
                }
            }
        }
    }
    v.insert(i, h);
    proof {
        let t = texts(v@);
        assert(t =~= s.insert(i as int, h@));
        s.insert_ensures(i as int, h@);
        assert forall|p: int, q: int| 0 <= p < q < t.len() implies text_lt(
            #[trigger] t[p],
            #[trigger] t[q],
        ) by {
            if q < i {
            } else if q == i {
            } else if p < i {
                assert(t[q] == s[q - 1]);
                lemma_text_lt_transitive(t[p], h@, t[q]);
            } else if p == i {
                assert(t[q] == s[q - 1]);
            } else {
                assert(t[p] == s[p - 1]);
                assert(t[q] == s[q - 1]);
            }
        }
        assert forall|x: Seq<char>| t.to_set().contains(x) <==> s.to_set().insert(h@).contains(
            x,
        ) by {
            if t.to_set().contains(x) {
                let p = choose|p: int| 0 <= p < t.len() && t[p] == x;
                if p < i {
                    assert(s[p] == x);
                } else if p > i {
                    assert(s[p - 1] == x);
                }
            }
            if s.to_set().contains(x) {
                let p = choose|p: int| 0 <= p < s.len() && s[p] == x;
                if p < i {
                    assert(t[p] == x);
                } else {
                    assert(t[p + 1] == x);
                }
            }
            if x == h@ {
                assert(t[i as int] == x);
            }
        }
        assert(t.to_set() =~= s.to_set().insert(h@));
    }
    true
}

/// The non-blank items of `items`, sorted and without duplicates, as a
/// `BTreeSet<String>` built from them and filtered on `!trim().is_empty()` gives.
pub fn sorted_set_of(items: &Vec<String>) -> (r: Vec<String>)
    ensures
        is_sorted_set(texts(r@)),
        texts(r@).to_set() == non_blank(texts(items@).to_set()),
{
    let ghost s = texts(items@);
    let mut r: Vec<String> = Vec::new();
    let mut i: usize = 0;
    while i < items.len()
        invariant
            s == texts(items@),
            i <= items@.len(),
            is_sorted_set(texts(r@)),
            texts(r@).to_set() == non_blank(s.take(i as int).to_set()),
        decreases items@.len() - i,
    {
        let ghost before = texts(r@).to_set();
        if !is_blank_str(items[i].as_str()) {
            insert_host(&mut r, items[i].clone());
        }
        proof {
            assert(s.take(i + 1) == s.take(i as int).push(s[i as int]));
            s.take(i as int).lemma_push_to_set_commute(s[i as int]);
            assert(texts(r@).to_set() =~= non_blank(s.take(i + 1).to_set()));
        }
        i = i + 1;
    }
    proof {
        assert(s.take(i as int) == s);
    }
    r
}

/// Merges fetched hosts into a pool list: both lists together, blank entries
/// dropped, sorted and without duplicates.
pub fn merge_hosts(current: Vec<String>, fetched: Vec<String>) -> (r: Vec<String>)
    ensures
        is_sorted_set(texts(r@)),
        texts(r@).to_set() == non_blank(texts(current@).to_set() + texts(fetched@).to_set()),
{
    let mut all = current;
    let ghost c = texts(all@);
    let mut more = fetched;
    let ghost f = texts(more@);
    all.append(&mut more);
    proof {
        assert(texts(all@) =~= c + f);
        assert((c + f).to_set() =~= c.to_set() + f.to_set()) by {
            assert forall|x: Seq<char>| (c + f).to_set().contains(x) <==> (c.to_set()
                + f.to_set()).contains(x) by {
                if (c + f).to_set().contains(x) {
                    let p = choose|p: int| 0 <= p < (c + f).len() && (c + f)[p] == x;
                    if p < c.len() {
                        assert(c[p] == x);
                    } else {
                        assert(f[p - c.len()] == x);
                    }
                }
                if c.to_set().contains(x) {
                    let p = choose|p: int| 0 <= p < c.len() && c[p] == x;
                    assert((c + f)[p] == x);
                }
                if f.to_set().contains(x) {
                    let p = choose|p: int| 0 <= p < f.len() && f[p] == x;
                    assert((c + f)[p + c.len()] == x);
                }
            }
        }
    }
    sorted_set_of(&all)
}

/// Merging is symmetric: the same hosts come out whichever list is the pool.
pub proof fn law_merge_symmetric(a: Seq<Seq<char>>, b: Seq<Seq<char>>, ab: Seq<Seq<char>>, ba: Seq<Seq<char>>)
    requires
        is_sorted_set(ab),
        ab.to_set() == non_blank(a.to_set() + b.to_set()),
        is_sorted_set(ba),
        ba.to_set() == non_blank(b.to_set() + a.to_set()),
    ensures
        ab == ba,
{
    assert(a.to_set() + b.to_set() =~= b.to_set() + a.to_set());
    lemma_sorted_set_determined(ab, ba);
}

/// The lines of a text: the pieces between `'\n'` characters, the last one
/// possibly empty. (`str::lines` also drops a `'\r'` before each `'\n'` and
/// the empty piece after a final `'\n'`; both disappear in the trimming and
/// the blank-line filter that follow, so the entries are the same.)
pub open spec fn split_lines(s: Seq<char>) -> Seq<Seq<char>>
    decreases s.len(),
{
    if s.len() == 0 {
        seq![Seq::empty()]
    } else {
        let p = split_lines(s.drop_last());
        if s.last() == '\n' {
            p.push(Seq::empty())
        } else {
            p.update(p.len() - 1, p.last().push(s.last()))
        }
    }
}

/// A trimmed line that stands for a host: not empty, not a `#` comment.
pub open spec fn is_entry(t: Seq<char>) -> bool {
    t.len() > 0 && t[0] != '#'
}

/// The hosts that a list of lines names: each line trimmed, blank lines and
/// comments left out.
pub open spec fn entries_of(lines: Seq<Seq<char>>) -> Set<Seq<char>> {
    Set::new(
        |t: Seq<char>|
            exists|k: int| 0 <= k < lines.len() && is_entry(#[trigger] trimmed(lines[k])) && trimmed(lines[k]) == t,
    )
}

/// The hosts that a pool file holds.
pub open spec fn upstream_entries(content: Seq<char>) -> Set<Seq<char>> {
    entries_of(split_lines(content))
}

/// The text of a pool file: each host followed by a line break.
pub open spec fn upstream_text(hs: Seq<Seq<char>>) -> Seq<char>
    decreases hs.len(),
{
    if hs.len() == 0 {
        Seq::empty()
    } else {
        upstream_text(hs.drop_last()) + hs.last() + seq!['\n']
    }
}

/// A host that a pool file stores and gives back unchanged.
pub open spec fn is_plain_entry(h: Seq<char>) -> bool {
    &&& h.len() > 0
    &&& !is_space(h[0])
    &&& !is_space(h.last())
    &&& h[0] != '#'
    &&& !h.contains('\n')
}

proof fn lemma_split_lines_nonempty(s: Seq<char>)
    ensures
        split_lines(s).len() >= 1,
    decreases s.len(),
{
    if s.len() > 0 {
        lemma_split_lines_nonempty(s.drop_last());
    }
}

proof fn lemma_entries_push(lines: Seq<Seq<char>>, l: Seq<char>)
    ensures
        entries_of(lines.push(l)) == if is_entry(trimmed(l)) {
            entries_of(lines).insert(trimmed(l))
        } else {
            entries_of(lines)
        },
{
    let n = lines.push(l);
    assert forall|t: Seq<char>| entries_of(n).contains(t) implies (if is_entry(trimmed(l)) {
        entries_of(lines).insert(trimmed(l))
    } else {
        entries_of(lines)
    }).contains(t) by {
        let k = choose|k: int| 0 <= k < n.len() && is_entry(#[trigger] trimmed(n[k])) && trimmed(n[k]) == t;
        if k < lines.len() {
            assert(n[k] == lines[k]);
        }
    }
    assert forall|t: Seq<char>| entries_of(lines).contains(t) implies entries_of(n).contains(t) by {
        let k = choose|k: int| 0 <= k < lines.len() && is_entry(#[trigger] trimmed(lines[k])) && trimmed(lines[k]) == t;
        assert(n[k] == lines[k]);
    }
    if is_entry(trimmed(l)) {
        assert(n[lines.len() as int] == l);
        assert(entries_of(n).contains(trimmed(l)));
    }
    assert(entries_of(n) =~= if is_entry(trimmed(l)) {
        entries_of(lines).insert(trimmed(l))
    } else {
        entries_of(lines)
    });
}

/// Adds the host that `line` names, if it names one.
fn add_entry(r: &mut Vec<String>, line: &Vec<char>)
    requires
        is_sorted_set(texts(old(r)@)),
    ensures
        is_sorted_set(texts(final(r)@)),
        texts(final(r)@).to_set() == if is_entry(trimmed(line@)) {
            texts(old(r)@).to_set().insert(trimmed(line@))
        } else {
            texts(old(r)@).to_set()
        },
{
    let (a, b) = strip_bounds(line.as_slice(), &Strip::Space);
    if a < b && line[a] != '#' {
        let t = string_of(line.as_slice(), a, b);
        insert_host(r, t);
    }
}

/// The hosts of a pool file, as `read_upstreams` gives them: every line
/// trimmed, blank lines and `#` comments dropped, sorted, without duplicates.
pub fn parse_upstreams(content: &str) -> (r: Vec<String>)
    ensures
        is_sorted_set(texts(r@)),
        texts(r@).to_set() == upstream_entries(content@),
{
    let chars = chars_of(content);
    let ghost s = chars@;
    let mut r: Vec<String> = Vec::new();
    let mut line: Vec<char> = Vec::new();
    let ghost mut done: Seq<Seq<char>> = Seq::empty();
    let mut i: usize = 0;
    proof {
        assert(s.take(0) =~= Seq::<char>::empty());
        assert(entries_of(done) =~= Set::empty());
        assert(texts(r@).to_set() =~= Set::empty());
    }
    while i < chars.len()
        invariant
            s == chars@,
            s == content@,
            i <= s.len(),
            split_lines(s.take(i as int)) == done.push(line@),
            is_sorted_set(texts(r@)),
            texts(r@).to_set() == entries_of(done),
        decreases s.len() - i,
    {
        let c = chars[i];
        proof {
            assert(s.take(i + 1).drop_last() =~= s.take(i as int));
            assert(s.take(i + 1).last() == c);
            lemma_split_lines_nonempty(s.take(i as int));
        }
        if c == '\n' {
            add_entry(&mut r, &line);
            proof {
                lemma_entries_push(done, line@);
                done = done.push(line@);
            }
            line = Vec::new();
            proof {
                assert(split_lines(s.take(i + 1)) =~= done.push(line@));
            }
        } else {
            line.push(c);
            proof {
                assert(split_lines(s.take(i + 1)) =~= done.push(line@));
            }
        }
        i = i + 1;
    }
    add_entry(&mut r, &line);
    proof {
        lemma_entries_push(done, line@);
        assert(s.take(s.len() as int) =~= s);
    }
    r
}

/// The text of a pool file that holds `hosts`, as it is written:
/// the hosts joined by line breaks, with a final line break when there is any host.
pub fn upstreams_text(hosts: &Vec<String>) -> (out: String)
    ensures
        out@ == upstream_text(texts(hosts@)),
{
    let ghost hs = texts(hosts@);
    let mut out = String::new();
    let mut i: usize = 0;
    while i < hosts.len()
        invariant
            hs == texts(hosts@),
            i <= hosts@.len(),
            out@ == upstream_text(hs.take(i as int)),
        decreases hosts@.len() - i,
    {
        out.append(hosts[i].as_str());
        push_char(&mut out, '\n');
        proof {
            let t = hs.take(i + 1);
            assert(t.drop_last() =~= hs.take(i as int));
            assert(t.last() == hs[i as int]);
            assert(out@ =~= upstream_text(t));
        }
        i = i + 1;
    }
    proof {
        assert(hs.take(i as int) =~= hs);
    }
    out
}

proof fn lemma_split_append(t: Seq<char>, u: Seq<char>)
    requires
        !u.contains('\n'),
    ensures
        split_lines(t + u) == split_lines(t).update(
            split_lines(t).len() - 1,
            split_lines(t).last() + u,
        ),
    decreases u.len(),
{
    lemma_split_lines_nonempty(t);
    let p = split_lines(t);
    if u.len() == 0 {
        assert(t + u =~= t);
        assert(p.last() + u =~= p.last());
        assert(p.update(p.len() - 1, p.last() + u) =~= p);
    } else {
        let u1 = u.drop_last();
        assert(!u1.contains('\n')) by {
            if u1.contains('\n') {
                let k = choose|k: int| 0 <= k < u1.len() && u1[k] == '\n';
                assert(u[k] == '\n');
            }
        }
        assert(u.last() != '\n') by {
            assert(u[u.len() - 1] == u.last());
        }
        lemma_split_append(t, u1);
        assert((t + u).drop_last() =~= t + u1);
        assert((t + u).last() == u.last());
        lemma_split_lines_nonempty(t + u1);
        assert((p.last() + u1).push(u.last()) =~= p.last() + u);
        assert(split_lines(t + u) =~= p.update(p.len() - 1, p.last() + u));
    }
}

proof fn lemma_split_upstream_text(hs: Seq<Seq<char>>)
    requires
        forall|k: int| 0 <= k < hs.len() ==> !(#[trigger] hs[k]).contains('\n'),
    ensures
        split_lines(upstream_text(hs)) == hs.push(Seq::empty()),
    decreases hs.len(),
{
    if hs.len() == 0 {
        assert(split_lines(Seq::empty()) =~= hs.push(Seq::empty()));
    } else {
        let h1 = hs.drop_last();
        assert forall|k: int| 0 <= k < h1.len() implies !(#[trigger] h1[k]).contains('\n') by {
            assert(h1[k] == hs[k]);
        }
        lemma_split_upstream_text(h1);
        let x = upstream_text(h1) + hs.last();
        assert(!hs.last().contains('\n')) by {
            assert(hs[hs.len() - 1] == hs.last());
        }
        lemma_split_append(upstream_text(h1), hs.last());
        assert(Seq::<char>::empty() + hs.last() =~= hs.last());
        assert(split_lines(x) =~= hs);
        assert(upstream_text(hs) == x.push('\n'));
        assert(x.push('\n').drop_last() =~= x);
        assert(split_lines(upstream_text(hs)) =~= hs.push(Seq::empty()));
    }
}

/// Reading a pool file gives back the hosts that were written to it: the
/// same set, and the very list when it was written sorted and without
/// duplicates, as the pool files are written.
pub proof fn law_read_after_write(written: Seq<Seq<char>>, read: Seq<Seq<char>>)
    requires
        forall|k: int| 0 <= k < written.len() ==> is_plain_entry(#[trigger] written[k]),
        is_sorted_set(read),
        read.to_set() == upstream_entries(upstream_text(written)),
    ensures
        read.to_set() == written.to_set(),
        is_sorted_set(written) ==> read == written,
{
    assert forall|k: int| 0 <= k < written.len() implies !(#[trigger] written[k]).contains('\n') by {
        assert(is_plain_entry(written[k]));
    }
    lemma_split_upstream_text(written);
    let lines = written.push(Seq::empty());
    assert forall|t: Seq<char>| entries_of(lines).contains(t) <==> written.to_set().contains(t) by {
        if entries_of(lines).contains(t) {
            let k = choose|k: int| 0 <= k < lines.len() && is_entry(#[trigger] trimmed(lines[k])) && trimmed(lines[k]) == t;
            if k == written.len() {
                lemma_trimmed_empty(Seq::<char>::empty());
                assert(trimmed(lines[k]).len() == 0);
            } else {
                assert(lines[k] == written[k]);
                assert(is_plain_entry(written[k]));
                lemma_trimmed_unchanged(written[k]);
            }
        }
        if written.to_set().contains(t) {
            let k = choose|k: int| 0 <= k < written.len() && written[k] == t;
            assert(is_plain_entry(written[k]));
            lemma_trimmed_unchanged(written[k]);
            assert(lines[k] == written[k]);
            assert(is_entry(trimmed(lines[k])));
        }
    }
    assert(read.to_set() =~= written.to_set());
    if is_sorted_set(written) {
        lemma_sorted_set_determined(read, written);
    }
}

/// Whether `v` holds `h`.
pub fn contains_host(v: &Vec<String>, h: &str) -> (b: bool)
    ensures
        b == texts(v@).contains(h@),
{
    let ghost s = texts(v@);
    let mut i: usize = 0;
    while i < v.len()
        invariant
            s == texts(v@),
            i <= v@.len(),
            forall|k: int| 0 <= k < i ==> s[k] != h@,
        decreases v@.len() - i,
    {
        if let TextOrder::Same = compare_text(v[i].as_str(), h) {
            proof {
                assert(s[i as int] == h@);
            }
            return true;
        }
        i = i + 1;
    }
    false
}

/// The items of `s` other than `h`, in order.
pub open spec fn without(s: Seq<Seq<char>>, h: Seq<char>) -> Seq<Seq<char>> {
    s.filter(other_than(h))
}

pub open spec fn other_than(h: Seq<char>) -> spec_fn(Seq<char>) -> bool {
    |x: Seq<char>| x != h
}

pub open spec fn outside(drop: Seq<Seq<char>>) -> spec_fn(Seq<char>) -> bool {
    |x: Seq<char>| !drop.contains(x)
}

/// The items of `s` that `drop` does not hold, in order.
pub open spec fn without_all(s: Seq<Seq<char>>, drop: Seq<Seq<char>>) -> Seq<Seq<char>> {
    s.filter(outside(drop))
}

/// A filtered sorted set is a sorted set.
pub proof fn lemma_filter_sorted(s: Seq<Seq<char>>, p: spec_fn(Seq<char>) -> bool)
    requires
        is_sorted_set(s),
    ensures
        is_sorted_set(s.filter(p)),
    decreases s.len(),
{
    broadcast use vstd::seq::Seq::lemma_filter_push, vstd::seq::Seq::lemma_filter_contains_rev;

    if s.len() > 0 {
        let d = s.drop_last();
        assert(is_sorted_set(d)) by {
            assert forall|i: int, j: int| 0 <= i < j < d.len() implies text_lt(
                #[trigger] d[i],
                #[trigger] d[j],
            ) by {
                assert(d[i] == s[i] && d[j] == s[j]);
            }
        }
        lemma_filter_sorted(d, p);
        assert(s == d.push(s.last()));
        let f = d.filter(p);
        if p(s.last()) {
            assert forall|i: int, j: int| 0 <= i < j < f.len() + 1 implies text_lt(
                #[trigger] f.push(s.last())[i],
                #[trigger] f.push(s.last())[j],
            ) by {
                if j == f.len() {
                    assert(f.contains(f[i]));
                    let m = choose|m: int| 0 <= m < d.len() && d[m] == f[i];
                    assert(s[m] == d[m]);
                    assert(s[s.len() - 1] == s.last());
                }
            }
        }
    }
}

/// The items of `v` other than `h`, in order (`retain(|item| item != h)`).
pub fn hosts_without(v: &Vec<String>, h: &str) -> (r: Vec<String>)
    ensures
        texts(r@) == without(texts(v@), h@),
{
    broadcast use vstd::seq::Seq::lemma_filter_push;

    let ghost s = texts(v@);
    let mut r: Vec<String> = Vec::new();
    let mut i: usize = 0;
    proof {
        assert(s.take(0) =~= Seq::<Seq<char>>::empty());
        assert(without(s.take(0), h@) =~= Seq::<Seq<char>>::empty());
    }
    while i < v.len()
        invariant
            s == texts(v@),
            i <= v@.len(),
            texts(r@) == without(s.take(i as int), h@),
        decreases v@.len() - i,
    {
        proof {
            assert(s.take(i + 1) == s.take(i as int).push(s[i as int]));
            s.take(i as int).lemma_filter_push(s[i as int], other_than(h@));
        }
        match compare_text(v[i].as_str(), h) {
            TextOrder::Same => {},
            _ => {
                r.push(v[i].clone());
                proof {
                    assert(texts(r@) =~= without(s.take(i as int), h@).push(s[i as int]));
                }
            },
        }
        i = i + 1;
    }
    proof {
        assert(s.take(i as int) =~= s);
    }
    r
}

/// The items of `v` that `drop` does not hold, in order.
pub fn hosts_without_all(v: &Vec<String>, drop: &Vec<String>) -> (r: Vec<String>)
    ensures
        texts(r@) == without_all(texts(v@), texts(drop@)),
{
    broadcast use vstd::seq::Seq::lemma_filter_push;

    let ghost s = texts(v@);
    let ghost d = texts(drop@);
    let mut r: Vec<String> = Vec::new();
    let mut i: usize = 0;
    proof {
        assert(s.take(0) =~= Seq::<Seq<char>>::empty());
        assert(without_all(s.take(0), d) =~= Seq::<Seq<char>>::empty());
    }
    while i < v.len()
        invariant
            s == texts(v@),
            d == texts(drop@),
            i <= v@.len(),
            texts(r@) == without_all(s.take(i as int), d),
        decreases v@.len() - i,
    {
        proof {
            assert(s.take(i + 1) == s.take(i as int).push(s[i as int]));
            s.take(i as int).lemma_filter_push(s[i as int], outside(d));
        }
        if !contains_host(drop, v[i].as_str()) {
            r.push(v[i].clone());
            proof {
                assert(texts(r@) =~= without_all(s.take(i as int), d).push(s[i as int]));
            }
        }
        i = i + 1;
    }
    proof {
        assert(s.take(i as int) =~= s);
    }
    r
}

/// Filtering a list filters its set of items.
pub proof fn lemma_filter_to_set(s: Seq<Seq<char>>, p: spec_fn(Seq<char>) -> bool)
    ensures
        s.filter(p).to_set() == s.to_set().filter(p),
    decreases s.len(),
{
    if s.len() == 0 {
        assert(s.filter(p) =~= s);
        assert(s.to_set() =~= Set::empty());
        assert(s.to_set().filter(p) =~= Set::empty());
    } else {
        let d = s.drop_last();
        lemma_filter_to_set(d, p);
        assert(s == d.push(s.last()));
        d.lemma_filter_push(s.last(), p);
        d.lemma_push_to_set_commute(s.last());
        if p(s.last()) {
            d.filter(p).lemma_push_to_set_commute(s.last());
        }
        assert(s.filter(p).to_set() =~= s.to_set().filter(p));
    }
}

/// Filtering a list without duplicates gives a list without duplicates.
pub proof fn lemma_filter_no_duplicates(s: Seq<Seq<char>>, p: spec_fn(Seq<char>) -> bool)
    requires
        s.no_duplicates(),
    ensures
        s.filter(p).no_duplicates(),
    decreases s.len(),
{
    if s.len() > 0 {
        let d = s.drop_last();
        assert(d.no_duplicates()) by {
            assert forall|i: int, j: int| 0 <= i < d.len() && 0 <= j < d.len() && i != j implies d[i] != d[j] by {
                assert(d[i] == s[i] && d[j] == s[j]);
            }
        }
        lemma_filter_no_duplicates(d, p);
        assert(s == d.push(s.last()));
        d.lemma_filter_push(s.last(), p);
        if p(s.last()) {
            let f = d.filter(p);
            if f.contains(s.last()) {
                d.lemma_filter_contains_rev(p, s.last());
                let k = choose|k: int| 0 <= k < d.len() && d[k] == s.last();
                assert(s[k] == s[s.len() - 1]);
            }
            assert(f.push(s.last()).no_duplicates()) by {
                assert forall|i: int, j: int| 0 <= i < f.len() + 1 && 0 <= j < f.len() + 1 && i != j
                    implies f.push(s.last())[i] != f.push(s.last())[j] by {
                    if i == f.len() {
                        assert(f.contains(f[j]));
                    } else if j == f.len() {
                        assert(f.contains(f[i]));
                    }
                }
            }
        }
    }
}

} // verus!

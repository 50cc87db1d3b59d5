//! Characters, whitespace, decimal numbers and string building.

use vstd::prelude::*;

verus! {

/// Unicode `White_Space`, the property that `char::is_whitespace` and `str::trim` use.
pub open spec fn is_space(c: char) -> bool {
    let u = c as u32;
    ||| 0x09 <= u <= 0x0d
    ||| u == 0x20
    ||| u == 0x85
    ||| u == 0xa0
    ||| u == 0x1680
    ||| 0x2000 <= u <= 0x200a
    ||| u == 0x2028
    ||| u == 0x2029
    ||| u == 0x202f
    ||| u == 0x205f
    ||| u == 0x3000
}

/// A text that `trim` turns into the empty string: every character is whitespace.
pub open spec fn is_blank(s: Seq<char>) -> bool {
    forall|i: int| 0 <= i < s.len() ==> is_space(#[trigger] s[i])
}

/// The characters that the trimming functions of this crate strip.
pub enum Strip {
    /// Unicode whitespace, as `str::trim` strips it.
    Space,
    /// `[` and `]`, as `trim_matches(['[', ']'])` strips them.
    Bracket,
    /// `/`, as `trim_end_matches('/')` strips it.
    Slash,
}

pub open spec fn strips(kind: Strip, c: char) -> bool {
    match kind {
        Strip::Space => is_space(c),
        Strip::Bracket => c == '[' || c == ']',
        Strip::Slash => c == '/',
    }
}

/// `s` without its leading characters of `kind`.
pub open spec fn strip_front(s: Seq<char>, kind: Strip) -> Seq<char>
    decreases s.len(),
{
    if s.len() > 0 && strips(kind, s[0]) {
        strip_front(s.drop_first(), kind)
    } else {
        s
    }
}

/// `s` without its trailing characters of `kind`.
pub open spec fn strip_back(s: Seq<char>, kind: Strip) -> Seq<char>
    decreases s.len(),
{
    if s.len() > 0 && strips(kind, s.last()) {
        strip_back(s.drop_last(), kind)
    } else {
        s
    }
}

/// `s` without leading and trailing characters of `kind`.
pub open spec fn strip(s: Seq<char>, kind: Strip) -> Seq<char> {
    strip_back(strip_front(s, kind), kind)
}

/// What `str::trim` returns.
pub open spec fn trimmed(s: Seq<char>) -> Seq<char> {
    strip(s, Strip::Space)
}

pub fn is_space_char(c: char) -> (b: bool)
    ensures
        b == is_space(c),
{
    let u = c as u32;
    (0x09 <= u && u <= 0x0d) || u == 0x20 || u == 0x85 || u == 0xa0 || u == 0x1680 || (0x2000
        <= u && u <= 0x200a) || u == 0x2028 || u == 0x2029 || u == 0x202f || u == 0x205f || u
        == 0x3000
}

pub fn strips_char(kind: &Strip, c: char) -> (b: bool)
    ensures
        b == strips(*kind, c),
{
    match kind {
        Strip::Space => is_space_char(c),
        Strip::Bracket => c == '[' || c == ']',
        Strip::Slash => c == '/',
    }
}

/// Whether `s.trim()` is empty.
pub fn is_blank_str(s: &str) -> (b: bool)
    ensures
        b == is_blank(s@),
{
    for c in it: s.chars()
        invariant
            it.seq() == s@,
            forall|i: int| 0 <= i < it.index() ==> is_space(#[trigger] s@[i]),
    {
        if !is_space_char(c) {
            return false;
        }
    }
    true
}

/// Copies the characters of `s` into a vector.
pub fn chars_of(s: &str) -> (v: Vec<char>)
    ensures
        v@ == s@,
{
    let mut v: Vec<char> = Vec::new();
    for c in it: s.chars()
        invariant
            v@ == it.seq().take(it.index() as int),
            it.seq() == s@,
    {
        v.push(c);
    }
    v
}

/// Appends one character (`String::push`).
#[verifier::external_body]
pub(crate) fn push_char(s: &mut String, c: char)
    ensures
        final(s)@ == old(s)@.push(c),
{
    s.push(c);
}

/// Appends the characters `v[from..to]`.
pub fn push_chars(s: &mut String, v: &[char], from: usize, to: usize)
    requires
        from <= to <= v@.len(),
    ensures
        final(s)@ == old(s)@ + v@.subrange(from as int, to as int),
{
    let mut i = from;
    while i < to
        invariant
            from <= i <= to <= v@.len(),
            s@ == old(s)@ + v@.subrange(from as int, i as int),
        decreases to - i,
    {
        push_char(s, v[i]);
        i = i + 1;
        assert(v@.subrange(from as int, i as int) == v@.subrange(from as int, i - 1).push(
            v@[i - 1],
        ));
    }
}

/// A string holding the characters `v[from..to]`.
pub fn string_of(v: &[char], from: usize, to: usize) -> (s: String)
    requires
        from <= to <= v@.len(),
    ensures
        s@ == v@.subrange(from as int, to as int),
{
    let mut s = String::new();
    push_chars(&mut s, v, from, to);
    s
}

proof fn lemma_strip_front_at(s: Seq<char>, kind: Strip, k: int)
    requires
        0 <= k <= s.len(),
        forall|i: int| 0 <= i < k ==> strips(kind, #[trigger] s[i]),
        k == s.len() || !strips(kind, s[k]),
    ensures
        strip_front(s, kind) == s.subrange(k, s.len() as int),
    decreases k,
{
    if k == 0 {
        assert(s.subrange(0, s.len() as int) == s);
    } else {
        let t = s.drop_first();
        assert forall|i: int| 0 <= i < k - 1 implies strips(kind, #[trigger] t[i]) by {
            assert(t[i] == s[i + 1]);
        }
        lemma_strip_front_at(t, kind, k - 1);
        assert(t.subrange(k - 1, t.len() as int) == s.subrange(k, s.len() as int));
    }
}

pub proof fn lemma_strip_back_at(s: Seq<char>, kind: Strip, m: int)
    requires
        0 <= m <= s.len(),
        forall|i: int| m <= i < s.len() ==> strips(kind, #[trigger] s[i]),
        m == 0 || !strips(kind, s[m - 1]),
    ensures
        strip_back(s, kind) == s.subrange(0, m),
    decreases s.len() - m,
{
    if m == s.len() {
        assert(s.subrange(0, m) == s);
    } else {
        let t = s.drop_last();
        assert forall|i: int| m <= i < t.len() implies strips(kind, #[trigger] t[i]) by {
            assert(t[i] == s[i]);
        }
        lemma_strip_back_at(t, kind, m);
        assert(t.subrange(0, m) == s.subrange(0, m));
    }
}

/// Where the characters that `strip` keeps begin and end.
pub fn strip_bounds(v: &[char], kind: &Strip) -> (r: (usize, usize))
    ensures
        r.0 <= r.1 <= v@.len(),
        strip(v@, *kind) == v@.subrange(r.0 as int, r.1 as int),
{
    let mut k: usize = 0;
    while k < v.len() && strips_char(kind, v[k])
        invariant
            k <= v@.len(),
            forall|i: int| 0 <= i < k ==> strips(*kind, #[trigger] v@[i]),
        decreases v@.len() - k,
    {
        k = k + 1;
    }
    proof {
        lemma_strip_front_at(v@, *kind, k as int);
    }
    let ghost front = v@.subrange(k as int, v@.len() as int);
    let mut m: usize = v.len();
    while m > k && strips_char(kind, v[m - 1])
        invariant
            k <= m <= v@.len(),
            forall|i: int| m <= i < v@.len() ==> strips(*kind, #[trigger] v@[i]),
        decreases m,
    {
        m = m - 1;
    }
    proof {
        let mm = m - k;
        assert forall|i: int| mm <= i < front.len() implies strips(*kind, #[trigger] front[i]) by {
            assert(front[i] == v@[i + k]);
        }
        if mm > 0 {
            assert(front[mm - 1] == v@[m - 1]);
        }
        lemma_strip_back_at(front, *kind, mm);
        assert(front.subrange(0, mm) == v@.subrange(k as int, m as int));
    }
    (k, m)
}

/// `s` without its trailing characters of `kind` (`trim_end_matches`).
pub fn strip_end(s: &str, kind: &Strip) -> (r: String)
    ensures
        r@ == strip_back(s@, *kind),
{
    let v = chars_of(s);
    let mut m: usize = v.len();
    while m > 0 && strips_char(kind, v[m - 1])
        invariant
            m <= v@.len(),
            forall|i: int| m <= i < v@.len() ==> strips(*kind, #[trigger] v@[i]),
        decreases m,
    {
        m = m - 1;
    }
    proof {
        lemma_strip_back_at(v@, *kind, m as int);
    }
    string_of(v.as_slice(), 0, m)
}

/// `str::trim` on a character vector, as an owned string.
pub fn trim_to_string(v: &[char]) -> (s: String)
    ensures
        s@ == trimmed(v@),
{
    let (a, b) = strip_bounds(v, &Strip::Space);
    string_of(v, a, b)
}

proof fn lemma_strip_front_blank(s: Seq<char>)
    ensures
        (strip_front(s, Strip::Space).len() == 0) == is_blank(s),
        strip_front(s, Strip::Space).len() > 0 ==> !is_space(strip_front(s, Strip::Space)[0]),
    decreases s.len(),
{
    if s.len() > 0 && is_space(s[0]) {
        let t = s.drop_first();
        lemma_strip_front_blank(t);
        if is_blank(t) {
            assert forall|i: int| 0 <= i < s.len() implies is_space(#[trigger] s[i]) by {
                if i > 0 {
                    assert(s[i] == t[i - 1]);
                }
            }
        } else {
            let j = choose|j: int| 0 <= j < t.len() && !is_space(#[trigger] t[j]);
            assert(s[j + 1] == t[j]);
        }
    } else if s.len() > 0 {
        assert(!is_space(s[0]));
    }
}

proof fn lemma_strip_back_keeps(s: Seq<char>)
    requires
        s.len() > 0,
        !is_space(s[0]),
    ensures
        strip_back(s, Strip::Space).len() > 0,
    decreases s.len(),
{
    if is_space(s.last()) {
        if s.len() == 1 {
            assert(s.last() == s[0]);
        } else {
            lemma_strip_back_keeps(s.drop_last());
        }
    }
}

/// Trimming leaves nothing exactly when the text is blank.
pub proof fn lemma_trimmed_empty(s: Seq<char>)
    ensures
        (trimmed(s).len() == 0) == is_blank(s),
{
    lemma_strip_front_blank(s);
    let f = strip_front(s, Strip::Space);
    if f.len() > 0 {
        lemma_strip_back_keeps(f);
    }
}

/// A text with no whitespace at either end is its own trim.
pub proof fn lemma_trimmed_unchanged(s: Seq<char>)
    requires
        s.len() > 0,
        !is_space(s[0]),
        !is_space(s.last()),
    ensures
        trimmed(s) == s,
{
}

/// The decimal digit of `d < 10`.
pub open spec fn digit(d: nat) -> char {
    ((d + 48) as u32) as char
}

/// The decimal representation of `n`, as `Display` writes an unsigned integer.
pub open spec fn decimal(n: nat) -> Seq<char>
    decreases n,
{
    if n < 10 {
        seq![digit(n)]
    } else {
        decimal(n / 10).push(digit(n % 10))
    }
}

pub fn digit_char(d: u64) -> (c: char)
    requires
        d < 10,
    ensures
        c == digit(d as nat),
{
    if d == 0 {
        '0'
    } else if d == 1 {
        '1'
    } else if d == 2 {
        '2'
    } else if d == 3 {
        '3'
    } else if d == 4 {
        '4'
    } else if d == 5 {
        '5'
    } else if d == 6 {
        '6'
    } else if d == 7 {
        '7'
    } else if d == 8 {
        '8'
    } else {
        '9'
    }
}

/// Appends the decimal representation of `n`.
pub fn push_decimal(out: &mut String, n: u64)
    ensures
        final(out)@ == old(out)@ + decimal(n as nat),
    decreases n,
{
    if n >= 10 {
        push_decimal(out, n / 10);
    }
    push_char(out, digit_char(n % 10));
}

/// The decimal representation of `n`.
pub fn decimal_string(n: u64) -> (s: String)
    ensures
        s@ == decimal(n as nat),
{
    let mut s = String::new();
    push_decimal(&mut s, n);
    s
}

} // verus!

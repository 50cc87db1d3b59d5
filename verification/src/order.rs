//! The order in which host lists are kept: byte-wise lexicographic order of
//! the UTF-8 encoding, the order of `Ord for str` and so of `BTreeSet<String>`.

use vstd::prelude::*;
use vstd::utf8::encode_utf8;

verus! {

broadcast use vstd::utf8::encode_utf8_decode_utf8;

/// Strict lexicographic order on byte sequences.
pub open spec fn bytes_lt(a: Seq<u8>, b: Seq<u8>) -> bool
    decreases a.len(),
{
    if a.len() == 0 {
        b.len() > 0
    } else if b.len() == 0 {
        false
    } else if a[0] != b[0] {
        a[0] < b[0]
    } else {
        bytes_lt(a.drop_first(), b.drop_first())
    }
}

/// Strict order on texts: that of their UTF-8 bytes.
pub open spec fn text_lt(a: Seq<char>, b: Seq<char>) -> bool {
    bytes_lt(encode_utf8(a), encode_utf8(b))
}

pub proof fn lemma_bytes_lt_irreflexive(a: Seq<u8>)
    ensures
        !bytes_lt(a, a),
    decreases a.len(),
{
    if a.len() > 0 {
        lemma_bytes_lt_irreflexive(a.drop_first());
    }
}

pub proof fn lemma_bytes_lt_transitive(a: Seq<u8>, b: Seq<u8>, c: Seq<u8>)
    requires
        bytes_lt(a, b),
        bytes_lt(b, c),
    ensures
        bytes_lt(a, c),
    decreases a.len(),
{
    if a.len() > 0 && b.len() > 0 && c.len() > 0 && a[0] == b[0] && b[0] == c[0] {
        lemma_bytes_lt_transitive(a.drop_first(), b.drop_first(), c.drop_first());
    }
}

pub proof fn lemma_bytes_lt_total(a: Seq<u8>, b: Seq<u8>)
    requires
        a != b,
    ensures
        bytes_lt(a, b) || bytes_lt(b, a),
    decreases a.len(),
{
    if a.len() == 0 {
        assert(b.len() > 0) by {
            if b.len() == 0 {
                assert(a =~= b);
            }
        }
    } else if b.len() > 0 && a[0] == b[0] {
        if a.drop_first() == b.drop_first() {
            assert(a.drop_first().len() == b.drop_first().len());
            assert(a.len() == b.len());
            assert(a =~= b) by {
                assert forall|i: int| 0 <= i < a.len() implies a[i] == b[i] by {
                    if i > 0 {
                        assert(a[i] == a.drop_first()[i - 1]);
                        assert(b[i] == b.drop_first()[i - 1]);
                    }
                }
            }
        }
        lemma_bytes_lt_total(a.drop_first(), b.drop_first());
    }
}

pub proof fn lemma_text_lt_irreflexive(a: Seq<char>)
    ensures
        !text_lt(a, a),
{
    lemma_bytes_lt_irreflexive(encode_utf8(a));
}

pub proof fn lemma_text_lt_transitive(a: Seq<char>, b: Seq<char>, c: Seq<char>)
    requires
        text_lt(a, b),
        text_lt(b, c),
    ensures
        text_lt(a, c),
{
    lemma_bytes_lt_transitive(encode_utf8(a), encode_utf8(b), encode_utf8(c));
}

/// Two different texts have different encodings, so one comes before the other.
pub proof fn lemma_text_lt_total(a: Seq<char>, b: Seq<char>)
    requires
        a != b,
    ensures
        text_lt(a, b) || text_lt(b, a),
{
    if encode_utf8(a) == encode_utf8(b) {
        assert(vstd::utf8::decode_utf8(encode_utf8(a)) == a);
        assert(vstd::utf8::decode_utf8(encode_utf8(b)) == b);
    }
    lemma_bytes_lt_total(encode_utf8(a), encode_utf8(b));
}

/// The outcome of comparing two texts.
pub enum TextOrder {
    Before,
    Same,
    After,
}

proof fn lemma_bytes_lt_step(a: Seq<u8>, b: Seq<u8>, i: int)
    requires
        0 <= i < a.len(),
        i < b.len(),
        a[i] == b[i],
    ensures
        bytes_lt(a.subrange(i, a.len() as int), b.subrange(i, b.len() as int)) == bytes_lt(
            a.subrange(i + 1, a.len() as int),
            b.subrange(i + 1, b.len() as int),
        ),
{
    let x = a.subrange(i, a.len() as int);
    let y = b.subrange(i, b.len() as int);
    assert(x.drop_first() =~= a.subrange(i + 1, a.len() as int));
    assert(y.drop_first() =~= b.subrange(i + 1, b.len() as int));
}

/// Compares two texts in the order of `Ord for str`.
pub fn compare_text(a: &str, b: &str) -> (r: TextOrder)
    ensures
        r is Before <==> text_lt(a@, b@),
        r is Same <==> a@ == b@,
        r is After <==> text_lt(b@, a@),
{
    let x = a.as_bytes();
    let y = b.as_bytes();
    let ghost xa = x@;
    let ghost ya = y@;
    proof {
        assert(xa.subrange(0, xa.len() as int) =~= xa);
        assert(ya.subrange(0, ya.len() as int) =~= ya);
        lemma_bytes_lt_irreflexive(xa);
        if a@ != b@ {
            lemma_text_lt_total(a@, b@);
        } else {
            assert(xa == ya);
        }
        if xa == ya && a@ != b@ {
            assert(vstd::utf8::decode_utf8(xa) == a@);
            assert(vstd::utf8::decode_utf8(ya) == b@);
        }
        if text_lt(a@, b@) && text_lt(b@, a@) {
            lemma_bytes_lt_transitive(xa, ya, xa);
        }
    }
    let mut i: usize = 0;
    while i < x.len() && i < y.len()
        invariant
            x@ == xa,
            y@ == ya,
            xa == encode_utf8(a@),
            ya == encode_utf8(b@),
            !(bytes_lt(xa, ya) && bytes_lt(ya, xa)),
            (a@ == b@) == (xa == ya),
            a@ != b@ ==> (bytes_lt(xa, ya) || bytes_lt(ya, xa)),
            i <= xa.len(),
            i <= ya.len(),
            forall|k: int| 0 <= k < i ==> xa[k] == ya[k],
            bytes_lt(xa, ya) == bytes_lt(
                xa.subrange(i as int, xa.len() as int),
                ya.subrange(i as int, ya.len() as int),
            ),
            bytes_lt(ya, xa) == bytes_lt(
                ya.subrange(i as int, ya.len() as int),
                xa.subrange(i as int, xa.len() as int),
            ),
        decreases xa.len() - i,
    {
        if x[i] < y[i] {
            proof {
                assert(xa != ya);
            }
            return TextOrder::Before;
        }
        if x[i] > y[i] {
            proof {
                assert(xa != ya);
            }
            return TextOrder::After;
        }
        proof {
            lemma_bytes_lt_step(xa, ya, i as int);
            lemma_bytes_lt_step(ya, xa, i as int);
        }
        i = i + 1;
    }
    if x.len() < y.len() {
        TextOrder::Before
    } else if y.len() < x.len() {
        TextOrder::After
    } else {
        proof {
            assert(xa =~= ya);
        }
        TextOrder::Same
    }
}

} // verus!

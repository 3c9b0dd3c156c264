//! The order of names.
//!
//! Names are compared as Rust compares strings: byte by byte over their UTF-8 encoding. The
//! order is stated over views, so that contracts elsewhere can speak of sorted names.

use vstd::prelude::*;
use vstd::utf8::*;

verus! {

/// `a` and `b` hold the same bytes at every position below `k`.
pub open spec fn agree_below(a: Seq<u8>, b: Seq<u8>, k: int) -> bool {
    &&& 0 <= k <= a.len()
    &&& k <= b.len()
    &&& forall|j: int| 0 <= j < k ==> a[j] == b[j]
}

/// Lexicographic order on byte strings: at the first position where the two differ `a` holds
/// the smaller byte, or `a` ends there and `b` goes on.
pub open spec fn bytes_less(a: Seq<u8>, b: Seq<u8>) -> bool {
    exists|k: int| #[trigger]
        agree_below(a, b, k) && k < b.len() && (k == a.len() || a[k] < b[k])
}

/// The order of names: lexicographic by the bytes of their UTF-8 encoding.
pub open spec fn text_less(a: Seq<char>, b: Seq<char>) -> bool {
    bytes_less(encode_utf8(a), encode_utf8(b))
}

/// `a` is `b`, or comes before it.
pub open spec fn text_at_most(a: Seq<char>, b: Seq<char>) -> bool {
    a == b || text_less(a, b)
}

/// How one name stands to another.
#[derive(Clone, Copy, Debug, PartialEq, Eq, Structural)]
pub enum Position {
    /// The first name comes before the second.
    Before,
    /// The two names are the same text.
    Same,
    /// The first name comes after the second.
    After,
}

/// Two texts with the same encoding are the same text.
pub proof fn lemma_encoding_distinguishes(a: Seq<char>, b: Seq<char>)
    requires
        encode_utf8(a) == encode_utf8(b),
    ensures
        a == b,
{
    encode_utf8_decode_utf8(a);
    encode_utf8_decode_utf8(b);
}

/// No byte string comes before itself.
pub proof fn lemma_bytes_less_irreflexive(a: Seq<u8>)
    ensures
        !bytes_less(a, a),
{
}

/// The order on byte strings is transitive.
pub proof fn lemma_bytes_less_transitive(a: Seq<u8>, b: Seq<u8>, c: Seq<u8>)
    requires
        bytes_less(a, b),
        bytes_less(b, c),
    ensures
        bytes_less(a, c),
{
    let k1 = choose|k: int| #[trigger]
        agree_below(a, b, k) && k < b.len() && (k == a.len() || a[k] < b[k]);
    let k2 = choose|k: int| #[trigger]
        agree_below(b, c, k) && k < c.len() && (k == b.len() || b[k] < c[k]);
    let k = if k1 <= k2 {
        k1
    } else {
        k2
    };
    assert(agree_below(a, c, k));
}

/// Two byte strings that agree below `k` are the same, or one comes before the other.
proof fn lemma_bytes_total_from(a: Seq<u8>, b: Seq<u8>, k: int)
    requires
        agree_below(a, b, k),
    ensures
        a == b || bytes_less(a, b) || bytes_less(b, a),
    decreases a.len() - k,
{
    if k == a.len() && k == b.len() {
        assert(a =~= b);
    } else if k == a.len() || (k < b.len() && a[k] < b[k]) {
        assert(agree_below(a, b, k));
    } else if k == b.len() || b[k] < a[k] {
        assert(agree_below(b, a, k));
    } else {
        lemma_bytes_total_from(a, b, k + 1);
    }
}

/// Of two different names one comes before the other.
pub proof fn lemma_text_order_total(a: Seq<char>, b: Seq<char>)
    ensures
        a == b || text_less(a, b) || text_less(b, a),
{
    lemma_bytes_total_from(encode_utf8(a), encode_utf8(b), 0);
    if encode_utf8(a) == encode_utf8(b) {
        lemma_encoding_distinguishes(a, b);
    }
}

/// No name comes before itself.
pub proof fn lemma_text_less_irreflexive(a: Seq<char>)
    ensures
        !text_less(a, a),
{
    lemma_bytes_less_irreflexive(encode_utf8(a));
}

/// The order of names is transitive.
pub proof fn lemma_text_less_transitive(a: Seq<char>, b: Seq<char>, c: Seq<char>)
    requires
        text_less(a, b),
        text_less(b, c),
    ensures
        text_less(a, c),
{
    lemma_bytes_less_transitive(encode_utf8(a), encode_utf8(b), encode_utf8(c));
}

/// Of two names at most one comes before the other.
pub proof fn lemma_text_less_asymmetric(a: Seq<char>, b: Seq<char>)
    requires
        text_less(a, b),
    ensures
        !text_less(b, a),
        a != b,
{
    if text_less(b, a) {
        lemma_text_less_transitive(a, b, a);
    }
    lemma_text_less_irreflexive(a);
}

/// Compares two names in the order of [`text_less`].
pub fn compare(a: &str, b: &str) -> (position: Position)
    ensures
        position == Position::Before <==> text_less(a@, b@),
        position == Position::Same <==> a@ == b@,
        position == Position::After <==> text_less(b@, a@),
{
    let x = a.as_bytes();
    let y = b.as_bytes();
    let n: usize = x.len();
    let m: usize = y.len();
    let mut i: usize = 0;
    while i < n && i < m
        invariant
            n == x@.len(),
            m == y@.len(),
            x@ == encode_utf8(a@),
            y@ == encode_utf8(b@),
            agree_below(x@, y@, i as int),
        decreases n - i,
    {
        if x[i] < y[i] {
            proof {
                lemma_text_less_asymmetric(a@, b@);
            }
            return Position::Before;
        }
        if y[i] < x[i] {
            assert(agree_below(y@, x@, i as int));
            proof {
                lemma_text_less_asymmetric(b@, a@);
            }
            return Position::After;
        }
        i += 1;
    }
    if i < m {
        proof {
            lemma_text_less_asymmetric(a@, b@);
        }
        Position::Before
    } else if i < n {
        assert(agree_below(y@, x@, i as int));
        proof {
            lemma_text_less_asymmetric(b@, a@);
        }
        Position::After
    } else {
        proof {
            assert(x@ =~= y@);
            lemma_encoding_distinguishes(a@, b@);
            lemma_text_less_irreflexive(a@);
        }
        Position::Same
    }
}

/// Whether two names are the same text.
pub fn same_text(a: &str, b: &str) -> (same: bool)
    ensures
        same == (a@ == b@),
{
    compare(a, b) == Position::Same
}

} // verus!

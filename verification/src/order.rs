//! A total order on strings, used to keep every map and set of the store
//! sorted deterministically.
//!
//! Strings are ordered lexicographically by their UTF-8 byte values, which
//! is the order the surrounding ecosystem uses for string keys.  The order
//! is specified over `encode_utf8` of the character view, and the executable
//! comparison works on `as_bytes`, so the two sides meet in one model.

use vstd::prelude::*;
use vstd::string::StringSliceAdditionalSpecFns;
use vstd::utf8::{decode_utf8, encode_utf8, encode_utf8_decode_utf8};

verus! {

/// Strict lexicographic order on byte sequences.
pub open spec fn bytes_lt(a: Seq<u8>, b: Seq<u8>) -> bool
    decreases a.len(),
{
    if b.len() == 0 {
        false
    } else if a.len() == 0 {
        true
    } else if a[0] != b[0] {
        a[0] < b[0]
    } else {
        bytes_lt(a.drop_first(), b.drop_first())
    }
}

/// Strict order on strings: lexicographic by UTF-8 byte values.
pub open spec fn str_lt(a: Seq<char>, b: Seq<char>) -> bool {
    bytes_lt(encode_utf8(a), encode_utf8(b))
}

/// `bytes_lt` is a strict total order: of `a < b`, `a == b`, `b < a`,
/// exactly one holds.
pub proof fn lemma_bytes_lt_trichotomy(a: Seq<u8>, b: Seq<u8>)
    ensures
        bytes_lt(a, b) || a == b || bytes_lt(b, a),
        bytes_lt(a, b) ==> a != b && !bytes_lt(b, a),
        a == b ==> !bytes_lt(a, b),
    decreases a.len(),
{
    if a.len() == 0 && b.len() == 0 {
        assert(a =~= b);
    } else if a.len() != 0 && b.len() != 0 && a[0] == b[0] {
        lemma_bytes_lt_trichotomy(a.drop_first(), b.drop_first());
        if a.drop_first() == b.drop_first() {
            assert forall|k: int| 0 <= k < a.len() implies a[k] == b[k] by {
                if k > 0 {
                    assert(a[k] == a.drop_first()[k - 1]);
                    assert(b[k] == b.drop_first()[k - 1]);
                }
            }
            assert(a =~= b);
        }
        if a == b {
            assert(a.drop_first() =~= b.drop_first());
        }
    }
}

/// `bytes_lt` is transitive.
pub proof fn lemma_bytes_lt_trans(a: Seq<u8>, b: Seq<u8>, c: Seq<u8>)
    requires
        bytes_lt(a, b),
        bytes_lt(b, c),
    ensures
        bytes_lt(a, c),
    decreases a.len(),
{
    if a.len() != 0 && b.len() != 0 && c.len() != 0 && a[0] == b[0] && b[0] == c[0] {
        lemma_bytes_lt_trans(a.drop_first(), b.drop_first(), c.drop_first());
    }
}

/// UTF-8 encoding is injective: equal encodings come from equal strings.
pub proof fn lemma_encode_utf8_injective(a: Seq<char>, b: Seq<char>)
    requires
        encode_utf8(a) == encode_utf8(b),
    ensures
        a == b,
{
    encode_utf8_decode_utf8(a);
    encode_utf8_decode_utf8(b);
    assert(decode_utf8(encode_utf8(a)) == decode_utf8(encode_utf8(b)));
}

/// `str_lt` is a strict total order on character sequences.
pub proof fn lemma_str_lt_trichotomy(a: Seq<char>, b: Seq<char>)
    ensures
        str_lt(a, b) || a == b || str_lt(b, a),
        str_lt(a, b) ==> a != b && !str_lt(b, a),
        a == b ==> !str_lt(a, b),
{
    lemma_bytes_lt_trichotomy(encode_utf8(a), encode_utf8(b));
    if encode_utf8(a) == encode_utf8(b) {
        lemma_encode_utf8_injective(a, b);
    }
}

/// `str_lt` is transitive.
pub proof fn lemma_str_lt_trans(a: Seq<char>, b: Seq<char>, c: Seq<char>)
    requires
        str_lt(a, b),
        str_lt(b, c),
    ensures
        str_lt(a, c),
{
    lemma_bytes_lt_trans(encode_utf8(a), encode_utf8(b), encode_utf8(c));
}

/// Strict lexicographic order on pairs of strings.
pub open spec fn str_pair_lt(a: (Seq<char>, Seq<char>), b: (Seq<char>, Seq<char>)) -> bool {
    str_lt(a.0, b.0) || (a.0 == b.0 && str_lt(a.1, b.1))
}

/// `str_pair_lt` is a strict total order on pairs of strings.
pub proof fn lemma_str_pair_lt_trichotomy(a: (Seq<char>, Seq<char>), b: (Seq<char>, Seq<char>))
    ensures
        str_pair_lt(a, b) || a == b || str_pair_lt(b, a),
        str_pair_lt(a, b) ==> a != b && !str_pair_lt(b, a),
        a == b ==> !str_pair_lt(a, b),
{
    lemma_str_lt_trichotomy(a.0, b.0);
    lemma_str_lt_trichotomy(a.1, b.1);
}

/// `str_pair_lt` is transitive.
pub proof fn lemma_str_pair_lt_trans(
    a: (Seq<char>, Seq<char>),
    b: (Seq<char>, Seq<char>),
    c: (Seq<char>, Seq<char>),
)
    requires
        str_pair_lt(a, b),
        str_pair_lt(b, c),
    ensures
        str_pair_lt(a, c),
{
    if str_lt(a.0, b.0) && str_lt(b.0, c.0) {
        lemma_str_lt_trans(a.0, b.0, c.0);
    } else if a.0 == b.0 && b.0 == c.0 {
        lemma_str_lt_trans(a.1, b.1, c.1);
    }
}

/// A prefix scan decides `bytes_lt`: if `a` and `b` agree below `i`, the
/// comparison is settled by position `i`.
proof fn lemma_bytes_lt_at(a: Seq<u8>, b: Seq<u8>, i: int)
    requires
        0 <= i <= a.len(),
        i <= b.len(),
        forall|j: int| 0 <= j < i ==> a[j] == b[j],
    ensures
        i < a.len() && i < b.len() && a[i] < b[i] ==> bytes_lt(a, b),
        i < a.len() && i < b.len() && a[i] > b[i] ==> bytes_lt(b, a),
        i == a.len() && i < b.len() ==> bytes_lt(a, b),
        i == b.len() && i < a.len() ==> bytes_lt(b, a),
        i == a.len() && i == b.len() ==> a == b,
    decreases i,
{
    if i == 0 {
        if a.len() == 0 && b.len() == 0 {
            assert(a =~= b);
        }
    } else {
        lemma_bytes_lt_at(a.drop_first(), b.drop_first(), i - 1);
        if i == a.len() && i == b.len() && a.drop_first() == b.drop_first() {
            assert(a =~= b);
        }
    }
}

/// Three-way comparison of strings, byte-lexicographic.
pub fn cmp_str(a: &str, b: &str) -> (o: core::cmp::Ordering)
    ensures
        o == core::cmp::Ordering::Less <==> str_lt(a@, b@),
        o == core::cmp::Ordering::Equal <==> a@ == b@,
        o == core::cmp::Ordering::Greater <==> str_lt(b@, a@),
{
    proof {
        lemma_str_lt_trichotomy(a@, b@);
    }
    let ab = a.as_bytes();
    let bb = b.as_bytes();
    let mut i: usize = 0;
    loop
        invariant
            ab@ == encode_utf8(a@),
            bb@ == encode_utf8(b@),
            i <= ab@.len(),
            i <= bb@.len(),
            forall|j: int| 0 <= j < i ==> ab@[j] == bb@[j],
        ensures
            (i < ab@.len() && i < bb@.len() && ab@[i as int] != bb@[i as int]) || (i == ab@.len()
                || i == bb@.len()),
            forall|j: int| 0 <= j < i ==> ab@[j] == bb@[j],
        decreases ab@.len() - i,
    {
        if i == ab.len() || i == bb.len() {
            break ;
        }
        if ab[i] != bb[i] {
            break ;
        }
        i = i + 1;
    }
    proof {
        lemma_bytes_lt_at(ab@, bb@, i as int);
        if ab@ == bb@ {
            lemma_encode_utf8_injective(a@, b@);
        }
    }
    if i < ab.len() && i < bb.len() {
        if ab[i] < bb[i] {
            core::cmp::Ordering::Less
        } else {
            core::cmp::Ordering::Greater
        }
    } else if i < bb.len() {
        core::cmp::Ordering::Less
    } else if i < ab.len() {
        core::cmp::Ordering::Greater
    } else {
        proof {
            assert(ab@ =~= bb@);
        }
        core::cmp::Ordering::Equal
    }
}

} // verus!

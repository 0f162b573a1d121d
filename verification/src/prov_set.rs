//! Set-union cell over provenance records.
//!
//! The set is kept as a vector sorted strictly by identity
//! `(source, trigger)`, so identities are unique and iteration order is
//! deterministic (ascending).  Merge is set union; when an incoming record
//! collides with an existing identity, the existing record is kept, so the
//! first-observed timestamp wins.

use crate::order::{
    lemma_str_pair_lt_trans, lemma_str_pair_lt_trichotomy, str_pair_lt, cmp_str,
};
use crate::provenance::{ProvView, Provenance};
use core::cmp::Ordering;
use vstd::prelude::*;

verus! {

/// Identity order on provenance records: by `(source, trigger)`.
pub open spec fn prov_id_lt(a: ProvView, b: ProvView) -> bool {
    str_pair_lt(a.id(), b.id())
}

/// Well-formed model of a provenance set: strictly increasing by identity.
pub open spec fn prov_seq_wf(s: Seq<ProvView>) -> bool {
    forall|i: int, j: int| 0 <= i < j < s.len() ==> prov_id_lt(s[i], s[j])
}

/// Whether the sequence holds a record with the given identity.
pub open spec fn prov_seq_contains_id(s: Seq<ProvView>, id: (Seq<char>, Seq<char>)) -> bool
    decreases s.len(),
{
    s.len() != 0 && (s[0].id() == id || prov_seq_contains_id(s.drop_first(), id))
}

/// The first record with the given identity.
pub open spec fn prov_lookup(s: Seq<ProvView>, id: (Seq<char>, Seq<char>)) -> ProvView
    decreases s.len(),
{
    if s.len() == 0 {
        arbitrary()
    } else if s[0].id() == id {
        s[0]
    } else {
        prov_lookup(s.drop_first(), id)
    }
}

/// The identities of the records, in sequence order.
pub open spec fn prov_ids(s: Seq<ProvView>) -> Seq<(Seq<char>, Seq<char>)> {
    Seq::new(s.len(), |i: int| s[i].id())
}

/// Insert a record at its sorted position; an existing record with the
/// same identity is kept unchanged.
pub open spec fn prov_insert(s: Seq<ProvView>, p: ProvView) -> Seq<ProvView>
    decreases s.len(),
{
    if s.len() == 0 {
        seq![p]
    } else if prov_id_lt(p, s[0]) {
        seq![p] + s
    } else if p.id() == s[0].id() {
        s
    } else {
        seq![s[0]] + prov_insert(s.drop_first(), p)
    }
}

/// Set union: insert every record of `b` into `a`, existing identities of
/// `a` winning.
pub open spec fn prov_union(a: Seq<ProvView>, b: Seq<ProvView>) -> Seq<ProvView>
    decreases b.len(),
{
    if b.len() == 0 {
        a
    } else {
        prov_union(prov_insert(a, b[0]), b.drop_first())
    }
}

/// The sorted, deduplicated set built from a sequence of records, earlier
/// records winning on identity collision.
pub open spec fn prov_from_seq(s: Seq<ProvView>) -> Seq<ProvView> {
    prov_union(Seq::empty(), s)
}

/// The containment test matches its index form.
pub proof fn lemma_prov_contains_index(s: Seq<ProvView>, id: (Seq<char>, Seq<char>))
    ensures
        prov_seq_contains_id(s, id) <==> exists|i: int| 0 <= i < s.len() && s[i].id() == id,
    decreases s.len(),
{
    if s.len() != 0 {
        lemma_prov_contains_index(s.drop_first(), id);
        if prov_seq_contains_id(s.drop_first(), id) {
            let i = choose|i: int| 0 <= i < s.drop_first().len() && s.drop_first()[i].id() == id;
            assert(s[i + 1].id() == id);
        }
        if exists|i: int| 0 <= i < s.len() && s[i].id() == id {
            let i = choose|i: int| 0 <= i < s.len() && s[i].id() == id;
            if i > 0 {
                assert(s.drop_first()[i - 1].id() == id);
            }
        }
    }
}

/// In a well-formed sequence the head's identity does not recur in the
/// tail.
proof fn lemma_prov_wf_head(s: Seq<ProvView>)
    requires
        prov_seq_wf(s),
        s.len() != 0,
    ensures
        prov_seq_wf(s.drop_first()),
        !prov_seq_contains_id(s.drop_first(), s[0].id()),
        forall|id: (Seq<char>, Seq<char>)|
            #[trigger] prov_seq_contains_id(s.drop_first(), id) ==> prov_seq_contains_id(s, id),
        forall|id: (Seq<char>, Seq<char>)|
            #[trigger] prov_seq_contains_id(s, id) && id != s[0].id()
                ==> prov_seq_contains_id(s.drop_first(), id) && prov_lookup(s.drop_first(), id)
                == prov_lookup(s, id),
{
    let t = s.drop_first();
    assert forall|i: int, j: int| 0 <= i < j < t.len() implies prov_id_lt(t[i], t[j]) by {
        assert(t[i] == s[i + 1]);
        assert(t[j] == s[j + 1]);
    }
    lemma_prov_contains_index(t, s[0].id());
    if exists|i: int| 0 <= i < t.len() && t[i].id() == s[0].id() {
        let i = choose|i: int| 0 <= i < t.len() && t[i].id() == s[0].id();
        assert(prov_id_lt(s[0], s[i + 1]));
        lemma_str_pair_lt_trichotomy(s[0].id(), t[i].id());
    }
}

/// What `prov_insert` does: it keeps the sequence well formed, adds
/// exactly the new identity, and keeps every existing record unchanged.
pub proof fn lemma_prov_insert_props(s: Seq<ProvView>, p: ProvView)
    requires
        prov_seq_wf(s),
    ensures
        prov_seq_wf(prov_insert(s, p)),
        forall|id: (Seq<char>, Seq<char>)|
            #[trigger] prov_seq_contains_id(prov_insert(s, p), id) <==> prov_seq_contains_id(s, id)
                || id == p.id(),
        forall|id: (Seq<char>, Seq<char>)|
            #[trigger] prov_seq_contains_id(s, id) ==> prov_lookup(prov_insert(s, p), id)
                == prov_lookup(s, id),
        !prov_seq_contains_id(s, p.id()) ==> prov_lookup(prov_insert(s, p), p.id()) == p,
        prov_seq_contains_id(s, p.id()) ==> prov_insert(s, p) == s,
    decreases s.len(),
{
    lemma_str_pair_lt_trichotomy(p.id(), if s.len() == 0 {
        p.id()
    } else {
        s[0].id()
    });
    if s.len() == 0 {
        let r = prov_insert(s, p);
        assert(r == seq![p]);
        assert(r.drop_first() =~= Seq::<ProvView>::empty());
        assert forall|id: (Seq<char>, Seq<char>)| #[trigger]
            prov_seq_contains_id(r, id) implies prov_seq_contains_id(s, id) || id == p.id() by {
            assert(r[0] == p);
            assert(!prov_seq_contains_id(r.drop_first(), id));
        }
    } else if prov_id_lt(p, s[0]) {
        let r = seq![p] + s;
        assert forall|i: int, j: int| 0 <= i < j < r.len() implies prov_id_lt(r[i], r[j]) by {
            if i == 0 {
                if j == 1 {
                    assert(r[j] == s[0]);
                } else {
                    assert(r[j] == s[j - 1]);
                    assert(prov_id_lt(s[0], s[j - 1]));
                    lemma_str_pair_lt_trans(p.id(), s[0].id(), s[j - 1].id());
                }
            } else {
                assert(r[i] == s[i - 1]);
                assert(r[j] == s[j - 1]);
            }
        }
        assert(r.drop_first() =~= s);
        lemma_prov_wf_head(r);
        assert forall|id: (Seq<char>, Seq<char>)| #[trigger]
            prov_seq_contains_id(r, id) implies prov_seq_contains_id(s, id) || id == p.id() by {
            assert(r[0] == p);
        }
    } else if p.id() == s[0].id() {
        assert(prov_seq_contains_id(s, p.id()));
    } else {
        lemma_prov_wf_head(s);
        lemma_prov_insert_props(s.drop_first(), p);
        let t = prov_insert(s.drop_first(), p);
        let r = seq![s[0]] + t;
        assert(prov_insert(s, p) == r);
        // the head is below everything in the new tail
        assert forall|i: int, j: int| 0 <= i < j < r.len() implies prov_id_lt(r[i], r[j]) by {
            if i == 0 {
                assert(r[j] == t[j - 1]);
                lemma_prov_contains_index(t, t[j - 1].id());
                lemma_prov_contains_index(s.drop_first(), t[j - 1].id());
                if prov_seq_contains_id(s.drop_first(), t[j - 1].id()) {
                    let k = choose|k: int|
                        0 <= k < s.drop_first().len() && s.drop_first()[k].id() == t[j - 1].id();
                    assert(prov_id_lt(s[0], s[k + 1]));
                    lemma_str_pair_lt_trichotomy(s[0].id(), t[j - 1].id());
                    lemma_str_pair_lt_trichotomy(t[j - 1].id(), s[k + 1].id());
                } else {
                    assert(t[j - 1].id() == p.id());
                }
            } else {
                assert(r[i] == t[i - 1]);
                assert(r[j] == t[j - 1]);
            }
        }
        assert(r.drop_first() =~= t);
        lemma_prov_wf_head(r);
        assert forall|id: (Seq<char>, Seq<char>)| #[trigger]
            prov_seq_contains_id(r, id) implies prov_seq_contains_id(s, id) || id == p.id() by {
            assert(r[0] == s[0]);
            if prov_seq_contains_id(r.drop_first(), id) {
                assert(prov_seq_contains_id(t, id));
            }
        }
        assert forall|id: (Seq<char>, Seq<char>)|
            prov_seq_contains_id(s, id) || id == p.id() implies #[trigger] prov_seq_contains_id(
            r,
            id,
        ) by {
            assert(r[0] == s[0]);
            if prov_seq_contains_id(s, id) && s[0].id() != id {
                assert(prov_seq_contains_id(s.drop_first(), id));
                assert(prov_seq_contains_id(t, id));
            }
            if id == p.id() {
                assert(prov_seq_contains_id(t, id));
            }
        }
        assert forall|id: (Seq<char>, Seq<char>)|
            #[trigger] prov_seq_contains_id(s, id) implies prov_lookup(r, id) == prov_lookup(
            s,
            id,
        ) by {
            lemma_str_pair_lt_trichotomy(id, s[0].id());
        }
    }
}

/// What `prov_union` does: the union is well formed, holds exactly the
/// identities of both sides, and on every identity of `a` keeps `a`'s
/// record; identities only in a well-formed `b` keep `b`'s record.
pub proof fn lemma_prov_union_props(a: Seq<ProvView>, b: Seq<ProvView>)
    requires
        prov_seq_wf(a),
    ensures
        prov_seq_wf(prov_union(a, b)),
        forall|id: (Seq<char>, Seq<char>)|
            #[trigger] prov_seq_contains_id(prov_union(a, b), id) <==> prov_seq_contains_id(a, id)
                || prov_seq_contains_id(b, id),
        forall|id: (Seq<char>, Seq<char>)|
            #[trigger] prov_seq_contains_id(a, id) ==> prov_lookup(prov_union(a, b), id)
                == prov_lookup(a, id),
        prov_seq_wf(b) ==> forall|id: (Seq<char>, Seq<char>)|
            !prov_seq_contains_id(a, id) && #[trigger] prov_seq_contains_id(b, id) ==> prov_lookup(
                prov_union(a, b),
                id,
            ) == prov_lookup(b, id),
    decreases b.len(),
{
    if b.len() != 0 {
        let a1 = prov_insert(a, b[0]);
        lemma_prov_insert_props(a, b[0]);
        lemma_prov_union_props(a1, b.drop_first());
        assert(prov_union(a, b) == prov_union(a1, b.drop_first()));
        assert forall|id: (Seq<char>, Seq<char>)|
            #[trigger] prov_seq_contains_id(prov_union(a, b), id) <==> prov_seq_contains_id(a, id)
                || prov_seq_contains_id(b, id) by {
            assert(prov_seq_contains_id(prov_union(a1, b.drop_first()), id)
                <==> prov_seq_contains_id(a1, id) || prov_seq_contains_id(b.drop_first(), id));
            assert(prov_seq_contains_id(a1, id) <==> prov_seq_contains_id(a, id) || id
                == b[0].id());
            assert(prov_seq_contains_id(b, id) <==> (b[0].id() == id || prov_seq_contains_id(
                b.drop_first(),
                id,
            )));
        }
        assert forall|id: (Seq<char>, Seq<char>)|
            #[trigger] prov_seq_contains_id(a, id) implies prov_lookup(prov_union(a, b), id)
            == prov_lookup(a, id) by {
            assert(prov_seq_contains_id(a1, id));
            assert(prov_lookup(a1, id) == prov_lookup(a, id));
            assert(prov_lookup(prov_union(a1, b.drop_first()), id) == prov_lookup(a1, id));
        }
        if prov_seq_wf(b) {
            lemma_prov_wf_head(b);
            assert forall|id: (Seq<char>, Seq<char>)|
                !prov_seq_contains_id(a, id) && #[trigger] prov_seq_contains_id(b, id)
                implies prov_lookup(prov_union(a, b), id) == prov_lookup(b, id) by {
                if id == b[0].id() {
                    assert(prov_lookup(a1, id) == b[0]);
                    assert(prov_seq_contains_id(a1, id));
                    assert(prov_lookup(prov_union(a1, b.drop_first()), id) == prov_lookup(
                        a1,
                        id,
                    ));
                } else {
                    assert(prov_seq_contains_id(b.drop_first(), id));
                    assert(!prov_seq_contains_id(a1, id));
                    assert(prov_lookup(prov_union(a1, b.drop_first()), id) == prov_lookup(
                        b.drop_first(),
                        id,
                    ));
                    assert(prov_lookup(b, id) == prov_lookup(b.drop_first(), id));
                }
            }
        }
    }
}

/// Appending one record to the right side of a union is one insertion.
pub proof fn lemma_prov_union_push(a: Seq<ProvView>, b: Seq<ProvView>, p: ProvView)
    ensures
        prov_union(a, b.push(p)) == prov_insert(prov_union(a, b), p),
    decreases b.len(),
{
    if b.len() == 0 {
        assert(b.push(p)[0] == p);
        assert(b.push(p).drop_first() =~= Seq::<ProvView>::empty());
        assert(prov_union(a, b.push(p)) == prov_union(prov_insert(a, p), Seq::empty()));
        assert(prov_union(prov_insert(a, p), Seq::<ProvView>::empty()) == prov_insert(a, p));
        assert(prov_union(a, b) == a);
    } else {
        assert(b.push(p)[0] == b[0]);
        assert(b.push(p).drop_first() =~= b.drop_first().push(p));
        lemma_prov_union_push(prov_insert(a, b[0]), b.drop_first(), p);
        assert(prov_union(a, b.push(p)) == prov_union(
            prov_insert(a, b[0]),
            b.drop_first().push(p),
        ));
        assert(prov_union(a, b) == prov_union(prov_insert(a, b[0]), b.drop_first()));
    }
}

/// Two well-formed sequences with the same identities and the same record
/// per identity are equal: the sorted form is canonical.
pub proof fn lemma_prov_canonical(x: Seq<ProvView>, y: Seq<ProvView>)
    requires
        prov_seq_wf(x),
        prov_seq_wf(y),
        forall|id: (Seq<char>, Seq<char>)|
            #[trigger] prov_seq_contains_id(x, id) <==> prov_seq_contains_id(y, id),
        forall|id: (Seq<char>, Seq<char>)|
            #[trigger] prov_seq_contains_id(x, id) ==> prov_lookup(x, id) == prov_lookup(y, id),
    ensures
        x == y,
    decreases x.len(),
{
    if x.len() == 0 {
        if y.len() != 0 {
            assert(prov_seq_contains_id(y, y[0].id()));
            assert(prov_seq_contains_id(x, y[0].id()));
        }
        assert(x =~= y);
    } else {
        assert(prov_seq_contains_id(x, x[0].id()));
        assert(y.len() != 0) by {
            if y.len() == 0 {
                assert(!prov_seq_contains_id(y, x[0].id()));
            }
        }
        lemma_prov_heads_agree(x, y);
        assert(x[0] == y[0]) by {
            assert(prov_lookup(x, x[0].id()) == x[0]);
            assert(prov_lookup(y, y[0].id()) == y[0]);
        }
        lemma_prov_wf_head(x);
        lemma_prov_wf_head(y);
        assert forall|id: (Seq<char>, Seq<char>)|
            #[trigger] prov_seq_contains_id(x.drop_first(), id) implies prov_seq_contains_id(
            y.drop_first(),
            id,
        ) by {
            assert(prov_seq_contains_id(x, id));
            assert(prov_seq_contains_id(y, id));
        }
        assert forall|id: (Seq<char>, Seq<char>)|
            #[trigger] prov_seq_contains_id(y.drop_first(), id) implies prov_seq_contains_id(
            x.drop_first(),
            id,
        ) by {
            assert(prov_seq_contains_id(y, id));
            assert(prov_seq_contains_id(x, id));
        }
        assert forall|id: (Seq<char>, Seq<char>)|
            #[trigger] prov_seq_contains_id(x.drop_first(), id) implies prov_lookup(
            x.drop_first(),
            id,
        ) == prov_lookup(y.drop_first(), id) by {
            assert(prov_seq_contains_id(x, id));
            assert(prov_lookup(x.drop_first(), id) == prov_lookup(x, id));
            assert(prov_seq_contains_id(y.drop_first(), id));
            assert(prov_lookup(y.drop_first(), id) == prov_lookup(y, id));
        }
        lemma_prov_canonical(x.drop_first(), y.drop_first());
        assert(x =~= y) by {
            assert(x.drop_first() == y.drop_first());
            assert forall|k: int| 0 <= k < x.len() implies x[k] == y[k] by {
                if k > 0 {
                    assert(x[k] == x.drop_first()[k - 1]);
                    assert(y[k] == y.drop_first()[k - 1]);
                }
            }
        }
    }
}

/// Two nonempty well-formed sequences over the same identities start with
/// the same identity: the least one.
proof fn lemma_prov_heads_agree(x: Seq<ProvView>, y: Seq<ProvView>)
    requires
        prov_seq_wf(x),
        prov_seq_wf(y),
        x.len() != 0,
        y.len() != 0,
        forall|id: (Seq<char>, Seq<char>)|
            #[trigger] prov_seq_contains_id(x, id) <==> prov_seq_contains_id(y, id),
    ensures
        x[0].id() == y[0].id(),
{
    lemma_str_pair_lt_trichotomy(x[0].id(), y[0].id());
    lemma_prov_contains_index(y, x[0].id());
    lemma_prov_contains_index(x, y[0].id());
    assert(prov_seq_contains_id(x, x[0].id()));
    assert(prov_seq_contains_id(y, y[0].id()));
    assert(prov_seq_contains_id(x, y[0].id()));
    if str_pair_lt(x[0].id(), y[0].id()) {
        // x's head must occur in y, but everything in y is at or above
        // y's head, which sits above x's head
        let i = choose|i: int| 0 <= i < y.len() && y[i].id() == x[0].id();
        if i > 0 {
            assert(prov_id_lt(y[0], y[i]));
            lemma_str_pair_lt_trichotomy(y[0].id(), y[i].id());
            lemma_str_pair_lt_trans(x[0].id(), y[0].id(), y[i].id());
            lemma_str_pair_lt_trichotomy(x[0].id(), y[i].id());
        }
    } else if str_pair_lt(y[0].id(), x[0].id()) {
        let i = choose|i: int| 0 <= i < x.len() && x[i].id() == y[0].id();
        if i > 0 {
            assert(prov_id_lt(x[0], x[i]));
            lemma_str_pair_lt_trichotomy(x[0].id(), x[i].id());
            lemma_str_pair_lt_trans(y[0].id(), x[0].id(), x[i].id());
            lemma_str_pair_lt_trichotomy(y[0].id(), x[i].id());
        }
    }
}

/// Set union of provenance sets is associative.
pub proof fn lemma_prov_union_assoc(a: Seq<ProvView>, b: Seq<ProvView>, c: Seq<ProvView>)
    requires
        prov_seq_wf(a),
        prov_seq_wf(b),
        prov_seq_wf(c),
    ensures
        prov_union(prov_union(a, b), c) == prov_union(a, prov_union(b, c)),
{
    lemma_prov_union_props(a, b);
    lemma_prov_union_props(prov_union(a, b), c);
    lemma_prov_union_props(b, c);
    lemma_prov_union_props(a, prov_union(b, c));
    let lhs = prov_union(prov_union(a, b), c);
    let rhs = prov_union(a, prov_union(b, c));
    // both sides look a record up with the same priority: a, then b, then c
    assert forall|id: (Seq<char>, Seq<char>)| #[trigger]
        prov_seq_contains_id(lhs, id) implies prov_lookup(lhs, id) == prov_lookup(rhs, id) by {
        if prov_seq_contains_id(a, id) {
            assert(prov_seq_contains_id(prov_union(a, b), id));
            assert(prov_lookup(prov_union(a, b), id) == prov_lookup(a, id));
            assert(prov_lookup(lhs, id) == prov_lookup(prov_union(a, b), id));
            assert(prov_lookup(rhs, id) == prov_lookup(a, id));
        } else if prov_seq_contains_id(b, id) {
            assert(prov_seq_contains_id(prov_union(a, b), id));
            assert(prov_lookup(prov_union(a, b), id) == prov_lookup(b, id));
            assert(prov_lookup(lhs, id) == prov_lookup(prov_union(a, b), id));
            assert(prov_seq_contains_id(prov_union(b, c), id));
            assert(prov_lookup(prov_union(b, c), id) == prov_lookup(b, id));
            assert(prov_lookup(rhs, id) == prov_lookup(prov_union(b, c), id));
        } else {
            assert(prov_seq_contains_id(c, id));
            assert(!prov_seq_contains_id(prov_union(a, b), id));
            assert(prov_lookup(lhs, id) == prov_lookup(c, id));
            assert(prov_seq_contains_id(prov_union(b, c), id));
            assert(prov_lookup(prov_union(b, c), id) == prov_lookup(c, id));
            assert(prov_lookup(rhs, id) == prov_lookup(prov_union(b, c), id));
        }
    }
    lemma_prov_canonical(lhs, rhs);
}

/// Two well-formed sequences over the same identities list them in the
/// same order.
pub proof fn lemma_prov_wf_same_ids(x: Seq<ProvView>, y: Seq<ProvView>)
    requires
        prov_seq_wf(x),
        prov_seq_wf(y),
        forall|id: (Seq<char>, Seq<char>)|
            #[trigger] prov_seq_contains_id(x, id) <==> prov_seq_contains_id(y, id),
    ensures
        prov_ids(x) == prov_ids(y),
    decreases x.len(),
{
    if x.len() == 0 {
        if y.len() != 0 {
            assert(prov_seq_contains_id(y, y[0].id()));
            assert(prov_seq_contains_id(x, y[0].id()));
        }
        assert(prov_ids(x) =~= prov_ids(y));
    } else {
        assert(prov_seq_contains_id(x, x[0].id()));
        assert(y.len() != 0) by {
            if y.len() == 0 {
                assert(!prov_seq_contains_id(y, x[0].id()));
            }
        }
        lemma_prov_heads_agree(x, y);
        lemma_prov_wf_head(x);
        lemma_prov_wf_head(y);
        assert forall|id: (Seq<char>, Seq<char>)|
            #[trigger] prov_seq_contains_id(x.drop_first(), id) implies prov_seq_contains_id(
            y.drop_first(),
            id,
        ) by {
            assert(prov_seq_contains_id(x, id));
            assert(prov_seq_contains_id(y, id));
        }
        assert forall|id: (Seq<char>, Seq<char>)|
            #[trigger] prov_seq_contains_id(y.drop_first(), id) implies prov_seq_contains_id(
            x.drop_first(),
            id,
        ) by {
            assert(prov_seq_contains_id(y, id));
            assert(prov_seq_contains_id(x, id));
        }
        lemma_prov_wf_same_ids(x.drop_first(), y.drop_first());
        assert(x.len() == y.len()) by {
            assert(prov_ids(x.drop_first()).len() == prov_ids(y.drop_first()).len());
        }
        assert(prov_ids(x) =~= prov_ids(y)) by {
            assert forall|k: int| 0 <= k < x.len() implies x[k].id() == y[k].id() by {
                if k > 0 {
                    assert(x[k] == x.drop_first()[k - 1]);
                    assert(y[k] == y.drop_first()[k - 1]);
                    assert(prov_ids(x.drop_first())[k - 1] == prov_ids(y.drop_first())[k - 1]);
                }
            }
        }
    }
}

/// Set union is commutative on identities: only the retained timestamps,
/// which identity excludes, can differ between the two orders.
pub proof fn lemma_prov_union_commutative_ids(a: Seq<ProvView>, b: Seq<ProvView>)
    requires
        prov_seq_wf(a),
        prov_seq_wf(b),
    ensures
        prov_ids(prov_union(a, b)) == prov_ids(prov_union(b, a)),
{
    lemma_prov_union_props(a, b);
    lemma_prov_union_props(b, a);
    lemma_prov_wf_same_ids(prov_union(a, b), prov_union(b, a));
}

/// Set union is idempotent.
pub proof fn lemma_prov_union_idempotent(a: Seq<ProvView>)
    requires
        prov_seq_wf(a),
    ensures
        prov_union(a, a) == a,
{
    lemma_prov_union_props(a, a);
    lemma_prov_canonical(prov_union(a, a), a);
}

/// A union with a set whose identities are already present changes
/// nothing: the existing records, timestamps included, are kept.
pub proof fn lemma_prov_union_absorb(x: Seq<ProvView>, a: Seq<ProvView>)
    requires
        prov_seq_wf(x),
        forall|id: (Seq<char>, Seq<char>)|
            #[trigger] prov_seq_contains_id(a, id) ==> prov_seq_contains_id(x, id),
    ensures
        prov_union(x, a) == x,
{
    lemma_prov_union_props(x, a);
    let u = prov_union(x, a);
    assert forall|id: (Seq<char>, Seq<char>)| #[trigger]
        prov_seq_contains_id(u, id) implies prov_seq_contains_id(x, id) by {}
    assert forall|id: (Seq<char>, Seq<char>)| #[trigger]
        prov_seq_contains_id(u, id) implies prov_lookup(u, id) == prov_lookup(x, id) by {
        assert(prov_seq_contains_id(x, id));
    }
    lemma_prov_canonical(u, x);
}

/// The set built from any record sequence is well formed.
pub proof fn lemma_prov_from_seq_wf(s: Seq<ProvView>)
    ensures
        prov_seq_wf(prov_from_seq(s)),
        forall|id: (Seq<char>, Seq<char>)|
            #[trigger] prov_seq_contains_id(prov_from_seq(s), id) <==> prov_seq_contains_id(
                s,
                id,
            ),
{
    lemma_prov_union_props(Seq::empty(), s);
}

/// Inserting two records with equal `(source, trigger)` yields one record,
/// and the retained record is the first inserted: its timestamp survives.
pub proof fn lemma_prov_identity_first_write_wins(p1: ProvView, p2: ProvView)
    requires
        p1.id() == p2.id(),
    ensures
        prov_insert(prov_insert(Seq::empty(), p1), p2) == seq![p1],
{
    let one = prov_insert(Seq::empty(), p1);
    assert(one == seq![p1]);
    lemma_str_pair_lt_trichotomy(p2.id(), p1.id());
}

/// Three-way comparison of provenance records by identity.
pub fn prov_id_cmp(a: &Provenance, b: &Provenance) -> (o: Ordering)
    ensures
        o == Ordering::Less <==> prov_id_lt(a@, b@),
        o == Ordering::Equal <==> a@.id() == b@.id(),
        o == Ordering::Greater <==> prov_id_lt(b@, a@),
{
    proof {
        lemma_str_pair_lt_trichotomy(a@.id(), b@.id());
    }
    let by_source = cmp_str(a.source.as_str(), b.source.as_str());
    match by_source {
        Ordering::Equal => cmp_str(a.trigger.as_str(), b.trigger.as_str()),
        _ => by_source,
    }
}

impl PartialOrd for Provenance {
    /// The identity order: by `(source, trigger)`, timestamp excluded.
    fn partial_cmp(&self, other: &Self) -> (r: Option<Ordering>) {
        Some(prov_id_cmp(self, other))
    }
}

impl vstd::std_specs::cmp::PartialOrdSpecImpl for Provenance {
    open spec fn obeys_partial_cmp_spec() -> bool {
        true
    }

    open spec fn partial_cmp_spec(&self, other: &Self) -> Option<Ordering> {
        if prov_id_lt(self@, other@) {
            Some(Ordering::Less)
        } else if self@.id() == other@.id() {
            Some(Ordering::Equal)
        } else {
            Some(Ordering::Greater)
        }
    }
}

/// Append-only set of provenance records, deduplicated by identity and
/// sorted by identity.
pub struct ProvSet {
    entries: Vec<Provenance>,
}

impl View for ProvSet {
    type V = Seq<ProvView>;

    closed spec fn view(&self) -> Seq<ProvView> {
        Seq::new(self.entries@.len(), |i: int| self.entries@[i]@)
    }
}

impl ProvSet {
    /// The sorted-unique representation invariant: it holds of every
    /// reachable value of the type.
    #[verifier::type_invariant]
    pub open spec fn wf(self) -> bool {
        prov_seq_wf(self@)
    }

    /// The empty set.
    pub fn new() -> (r: Self)
        ensures
            r@ == Seq::<ProvView>::empty(),
    {
        let r = ProvSet { entries: Vec::new() };
        proof {
            assert(r@ =~= Seq::<ProvView>::empty());
        }
        r
    }

    /// Number of records.
    pub fn len(&self) -> (r: usize)
        ensures
            r == self@.len(),
    {
        self.entries.len()
    }

    /// The record at the given position, ascending by identity.
    pub fn get(&self, i: usize) -> (r: &Provenance)
        requires
            i < self@.len(),
        ensures
            r@ == self@[i as int],
    {
        &self.entries[i]
    }

    /// Insert one record; an existing record with the same identity is
    /// kept.  Returns whether the set changed.
    pub fn insert(&mut self, p: Provenance) -> (added: bool)
        ensures
            final(self)@ == prov_insert(old(self)@, p@),
            added == !prov_seq_contains_id(old(self)@, p@.id()),
    {
        proof {
            use_type_invariant(&*self);
        }
        let ghost s = self@;
        let mut entries: Vec<Provenance> = Vec::new();
        core::mem::swap(&mut entries, &mut self.entries);
        let ghost p_view = p@;
        let mut i: usize = 0;
        let mut duplicate = false;
        loop
            invariant_except_break
                !duplicate,
            invariant
                p@ == p_view,
                entries@.len() == s.len(),
                forall|k: int| 0 <= k < s.len() ==> entries@[k]@ == s[k],
                i <= s.len(),
                forall|j: int| 0 <= j < i ==> prov_id_lt(s[j], p_view),
            ensures
                i <= s.len(),
                forall|j: int| 0 <= j < i ==> prov_id_lt(s[j], p_view),
                duplicate ==> i < s.len() && s[i as int].id() == p_view.id(),
                !duplicate ==> i == s.len() || prov_id_lt(p_view, s[i as int]),
            decreases s.len() - i,
        {
            if i == entries.len() {
                break ;
            }
            match prov_id_cmp(&entries[i], &p) {
                Ordering::Less => {
                    i = i + 1;
                },
                Ordering::Equal => {
                    duplicate = true;
                    break ;
                },
                Ordering::Greater => {
                    break ;
                },
            }
        }
        proof {
            lemma_prov_insert_at(s, p_view, i as int);
            lemma_prov_contains_index(s, p_view.id());
            if prov_seq_contains_id(s, p_view.id()) && !duplicate {
                let k = choose|k: int| 0 <= k < s.len() && s[k].id() == p_view.id();
                lemma_str_pair_lt_trichotomy(s[k].id(), p_view.id());
                if k < i {
                } else {
                    assert(i < s.len());
                    assert(prov_id_lt(p_view, s[i as int]));
                    if k > i {
                        assert(prov_id_lt(s[i as int], s[k]));
                        lemma_str_pair_lt_trans(p_view.id(), s[i as int].id(), s[k].id());
                        lemma_str_pair_lt_trichotomy(p_view.id(), s[k].id());
                    }
                }
            }
            lemma_prov_insert_props(s, p_view);
        }
        let added = !duplicate;
        if !duplicate {
            entries.insert(i, p);
            proof {
                assert(Seq::new(entries@.len(), |k: int| entries@[k]@) =~= s.insert(
                    i as int,
                    p_view,
                ));
            }
        } else {
            proof {
                assert(Seq::new(entries@.len(), |k: int| entries@[k]@) =~= s);
            }
        }
        self.entries = entries;
        added
    }

    /// Merge another set into this one (set union); returns whether this
    /// set changed, i.e. whether the other side held a new identity.
    pub fn merge(&mut self, other: ProvSet) -> (changed: bool)
        ensures
            final(self)@ == prov_union(old(self)@, other@),
            changed == exists|id: (Seq<char>, Seq<char>)|
                #[trigger] prov_seq_contains_id(other@, id) && !prov_seq_contains_id(
                    old(self)@,
                    id,
                ),
    {
        proof {
            use_type_invariant(&*self);
            use_type_invariant(&other);
        }
        let ghost s = self@;
        let ghost o = other@;
        let mut changed = false;
        let n = other.len();
        let mut k: usize = 0;
        while k < n
            invariant
                n == o.len(),
                k <= n,
                prov_seq_wf(s),
                prov_seq_wf(o),
                forall|j: int| 0 <= j < o.len() ==> other@[j] == o[j],
                other@.len() == o.len(),
                self@ == prov_union(s, o.take(k as int)),
                changed == exists|id: (Seq<char>, Seq<char>)|
                    #[trigger] prov_seq_contains_id(o.take(k as int), id)
                        && !prov_seq_contains_id(s, id),
            decreases n - k,
        {
            let ghost before = self@;
            let p = other.get(k).duplicate();
            let added = self.insert(p);
            proof {
                assert(o.take(k as int).push(o[k as int]) =~= o.take(k as int + 1));
                lemma_prov_union_push(s, o.take(k as int), o[k as int]);
                lemma_prov_union_props(s, o.take(k as int));
                lemma_prov_contains_index(o.take(k as int + 1), o[k as int].id());
                assert(o.take(k as int + 1)[k as int].id() == o[k as int].id());
                if added {
                    assert(!prov_seq_contains_id(before, o[k as int].id()));
                    assert(!prov_seq_contains_id(s, o[k as int].id()));
                } else {
                    assert(prov_seq_contains_id(before, o[k as int].id()));
                }
                assert forall|id: (Seq<char>, Seq<char>)|
                    #[trigger] prov_seq_contains_id(o.take(k as int + 1), id)
                        && !prov_seq_contains_id(s, id) implies (changed || added || id == o[k
                    as int].id()) by {
                    lemma_prov_contains_index(o.take(k as int + 1), id);
                    lemma_prov_contains_index(o.take(k as int), id);
                    let j = choose|j: int|
                        0 <= j < k + 1 && (#[trigger] o.take(k as int + 1)[j].id()) == id;
                    if j < k {
                        assert(o.take(k as int)[j].id() == id);
                    }
                }
                if changed {
                    let id0 = choose|id: (Seq<char>, Seq<char>)|
                        #[trigger] prov_seq_contains_id(o.take(k as int), id)
                            && !prov_seq_contains_id(s, id);
                    lemma_prov_contains_index(o.take(k as int), id0);
                    let j0 = choose|j: int|
                        0 <= j < k && (#[trigger] o.take(k as int)[j].id()) == id0;
                    assert(o.take(k as int + 1)[j0].id() == id0);
                    lemma_prov_contains_index(o.take(k as int + 1), id0);
                }
            }
            changed = changed || added;
            k = k + 1;
        }
        proof {
            assert(o.take(n as int) =~= o);
        }
        changed
    }

    /// A copy of the set.
    pub fn duplicate(&self) -> (r: Self)
        ensures
            r@ == self@,
    {
        proof {
            use_type_invariant(self);
        }
        let ghost s = self@;
        let mut entries: Vec<Provenance> = Vec::new();
        let n = self.entries.len();
        let mut i: usize = 0;
        while i < n
            invariant
                n == s.len(),
                i <= n,
                self@ == s,
                self.entries@.len() == s.len(),
                forall|k: int| 0 <= k < s.len() ==> self.entries@[k]@ == s[k],
                entries@.len() == i,
                forall|k: int| 0 <= k < i ==> entries@[k]@ == s[k],
            decreases n - i,
        {
            entries.push(self.entries[i].duplicate());
            i = i + 1;
        }
        proof {
            assert(Seq::new(entries@.len(), |k: int| entries@[k]@) =~= s);
        }
        let r = ProvSet { entries };
        r
    }
}

/// Relates the insertion position an executable scan finds to the
/// recursive insertion function.
proof fn lemma_prov_insert_at(s: Seq<ProvView>, p: ProvView, i: int)
    requires
        prov_seq_wf(s),
        0 <= i <= s.len(),
        forall|j: int| 0 <= j < i ==> prov_id_lt(s[j], p),
    ensures
        i < s.len() && s[i].id() == p.id() ==> prov_insert(s, p) == s,
        (i == s.len() || prov_id_lt(p, s[i])) ==> prov_insert(s, p) == s.insert(i, p),
    decreases i,
{
    if i == 0 {
        if s.len() == 0 {
            assert(s.insert(0, p) =~= seq![p]);
        } else if prov_id_lt(p, s[0]) {
            assert(s.insert(0, p) =~= seq![p] + s);
            lemma_str_pair_lt_trichotomy(p.id(), s[0].id());
        }
    } else {
        assert(prov_id_lt(s[0], p));
        lemma_str_pair_lt_trichotomy(s[0].id(), p.id());
        lemma_prov_wf_head(s);
        let t = s.drop_first();
        assert forall|j: int| 0 <= j < i - 1 implies prov_id_lt(t[j], p) by {
            assert(t[j] == s[j + 1]);
        }
        lemma_prov_insert_at(t, p, i - 1);
        if i < s.len() {
            assert(t[i - 1] == s[i]);
        }
        if i < s.len() && s[i].id() == p.id() {
            assert(prov_insert(s, p) == seq![s[0]] + prov_insert(t, p));
            assert(seq![s[0]] + t =~= s);
        }
        if i == s.len() || prov_id_lt(p, s[i]) {
            assert(prov_insert(s, p) == seq![s[0]] + t.insert(i - 1, p));
            assert(seq![s[0]] + t.insert(i - 1, p) =~= s.insert(i, p));
        }
    }
}

} // verus!
